use fuzz_store::init::Init;

#[test]
fn dirty_mode() {
    assert!(Init::Dirty.is_dirty());
    assert!(!Init::Clean.is_dirty());
    assert!(!Init::Used { cycle: 3 }.is_dirty());
}

#[test]
fn used_cycles() {
    assert_eq!(Init::Dirty.used_cycles(), 0);
    assert_eq!(Init::Clean.used_cycles(), 0);
    assert_eq!(Init::Used { cycle: 0 }.used_cycles(), 0);
    assert_eq!(Init::Used { cycle: 50000 }.used_cycles(), 50000);
}
