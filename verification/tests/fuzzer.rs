use fuzz_store::corruption::corrupt;
use fuzz_store::fuzzer::{Fuzzer, INVALID_KEY, INVALID_LENGTH};
use fuzz_store::init::Init;
use fuzz_store::stats::{StatKey, Stats};
use fuzz_store::store::{
    Outcome, Step, StoreInterruption, StoreLimits, StoreOperation, StoreSetup, StoreUpdate,
};
use rand_core::{RngCore, SeedableRng};
use rand_pcg::Pcg32;

const SEED: [u8; 16] = [3, 1, 4, 1, 5, 9, 2, 6, 5, 3, 5, 8, 9, 7, 9, 3];

const LIMITS: StoreLimits = StoreLimits { max_updates: 31, total_capacity: 100 };

/// Entropy that starts with the seed and then holds numbers of the given widths.
fn entropy(numbers: &[(usize, usize)]) -> Vec<u8> {
    let mut data = SEED.to_vec();
    let mut position = 0;
    for &(number, width) in numbers {
        for i in 0..width {
            if position % 8 == 0 {
                data.push(0);
            }
            if number >> i & 1 == 1 {
                *data.last_mut().unwrap() |= 1 << (position % 8);
            }
            position += 1;
        }
    }
    data
}

/// Values that follow from the seed.
fn values(lengths: &[usize]) -> Vec<Vec<u8>> {
    let mut generator = Pcg32::from_seed(SEED);
    lengths
        .iter()
        .map(|&length| {
            let mut value = vec![0; length];
            generator.fill_bytes(&mut value);
            value
        })
        .collect()
}

fn observations(fuzzer: Fuzzer) -> Vec<(StatKey, usize)> {
    fuzzer.into_stats().unwrap().observations().to_vec()
}

/// The numbers of a storage of 4 pages of 64 bytes with 1000 erase cycles.
const GEOMETRY: [(usize, usize); 3] = [(1, 3), (1000, 16), (1, 6)];

fn with_geometry(numbers: &[(usize, usize)]) -> Vec<u8> {
    let mut all = GEOMETRY.to_vec();
    all.extend_from_slice(numbers);
    entropy(&all)
}

fn counters(fuzzer: Fuzzer) -> Vec<usize> {
    let mut fuzzer = fuzzer;
    fuzzer.finish(1, 1, 100_000);
    let observations = observations(fuzzer);
    let counters = &observations[observations.len() - 7..];
    let keys: Vec<StatKey> = counters.iter().map(|x| x.0).collect();
    assert_eq!(
        keys,
        vec![
            StatKey::PowerOnCount,
            StatKey::TransactionCount,
            StatKey::ClearCount,
            StatKey::PrepareCount,
            StatKey::InsertCount,
            StatKey::RemoveCount,
            StatKey::InterruptionCount,
        ]
    );
    counters.iter().map(|x| x.1).collect()
}

#[test]
fn new_records_the_amount_of_entropy() {
    let data = entropy(&[(0, 24)]);
    let fuzzer = Fuzzer::new(&data, Some(Stats::new()));
    assert_eq!(observations(fuzzer), vec![(StatKey::Entropy, 19)]);
}

#[test]
fn new_extends_statistics() {
    let mut stats = Stats::new();
    stats.add(StatKey::NumPages, 7);
    let fuzzer = Fuzzer::new(&[], Some(stats));
    assert_eq!(observations(fuzzer), vec![(StatKey::NumPages, 7), (StatKey::Entropy, 0)]);
}

#[test]
fn new_without_statistics() {
    let fuzzer = Fuzzer::new(&[1, 2, 3], None);
    assert!(fuzzer.into_stats().is_none());
}

#[test]
fn clean_setup() {
    let data = with_geometry(&[(0, 1), (0, 1)]);
    let mut fuzzer = Fuzzer::new(&data, Some(Stats::new()));
    match fuzzer.init() {
        StoreSetup::Clean { options, num_pages } => {
            assert_eq!(options.word_size, 4);
            assert_eq!(options.page_size, 64);
            assert_eq!(options.max_word_writes, 2);
            assert_eq!(options.max_page_erases, 1000);
            assert!(options.strict_write);
            assert_eq!(num_pages, 4);
        }
        _ => panic!(),
    }
    assert!(fuzzer.must_check(Outcome::PoweredOn));
    assert_eq!(
        observations(fuzzer),
        vec![
            (StatKey::Entropy, data.len()),
            (StatKey::PageSize, 64),
            (StatKey::MaxPageErases, 1000),
            (StatKey::NumPages, 4),
        ]
    );
}

#[test]
fn used_setup() {
    let data = with_geometry(&[(0, 1), (1, 1), (600, 10), (1, 1)]);
    let mut fuzzer = Fuzzer::new(&data, Some(Stats::new()));
    match fuzzer.init() {
        StoreSetup::Used { options, storage, cycle } => {
            assert_eq!(options.page_size, 64);
            assert!(options.strict_write);
            assert_eq!(storage, vec![0xff; 256]);
            assert_eq!(cycle, 600);
        }
        _ => panic!(),
    }
    assert_eq!(fuzzer.mode(), Init::Used { cycle: 600 });
    assert!(fuzzer.must_check(Outcome::PoweredOn));
    assert!(!fuzzer.must_check(Outcome::PoweredOff));
    assert_eq!(fuzzer.next_step(Outcome::PoweredOff), Step::PowerOn);
    assert_eq!(observations(fuzzer).last(), Some(&(StatKey::InitCycles, 600)));
}

#[test]
fn dirty_setup() {
    let data = with_geometry(&[(1, 1), (3, 9), (0x12, 8), (0x34, 8), (0x56, 8), (1, 1)]);
    let mut fuzzer = Fuzzer::new(&data, Some(Stats::new()));
    match fuzzer.init() {
        StoreSetup::Dirty { options, storage } => {
            assert_eq!(options.page_size, 64);
            assert_eq!(options.max_page_erases, 1000);
            assert!(!options.strict_write);
            assert_eq!(storage.len(), 256);
            assert_eq!(storage[..3], [0x12, 0x34, 0x56]);
            assert!(storage[3..].iter().all(|&x| x == 0xff));
        }
        _ => panic!(),
    }
    assert!(!fuzzer.must_check(Outcome::PoweredOn));
    assert_eq!(observations(fuzzer).last(), Some(&(StatKey::DirtyLength, 3)));
}

#[test]
fn setup_without_entropy() {
    let mut fuzzer = Fuzzer::new(&[], None);
    match fuzzer.init() {
        StoreSetup::Clean { options, num_pages } => {
            assert_eq!(options.page_size, 32);
            assert_eq!(options.max_page_erases, 0);
            assert_eq!(num_pages, 3);
        }
        _ => panic!(),
    }
}

#[test]
fn largest_setup() {
    let data = entropy(&[(7, 3), (50000, 16), (61, 6), (1, 1), (64 * 4096, 19)]);
    let mut fuzzer = Fuzzer::new(&data, None);
    match fuzzer.init() {
        StoreSetup::Dirty { options, storage } => {
            assert_eq!(options.page_size, 4096);
            assert_eq!(options.max_page_erases, 50000);
            assert_eq!(storage.len(), 64 * 4096);
            // The entropy is consumed, so that zeros are read.
            assert!(storage[1..].iter().all(|&x| x == 0));
        }
        _ => panic!(),
    }
}

#[test]
fn keys() {
    let data = entropy(&[(0, 13), (4095, 13), (4096, 13), (4097, 13)]);
    let mut fuzzer = Fuzzer::new(&data, None);
    assert_eq!(fuzzer.key(), 0);
    assert_eq!(fuzzer.key(), 4095);
    assert_eq!(fuzzer.key(), INVALID_KEY);
    assert_eq!(fuzzer.key(), 0);
}

#[test]
fn values_follow_the_seed() {
    let data = entropy(&[(5, 11), (0, 11), (1024, 11), (1025, 11), (4, 11)]);
    let mut fuzzer = Fuzzer::new(&data, None);
    let expected = values(&[5, 0, INVALID_LENGTH, 0, 4]);
    for value in expected {
        assert_eq!(fuzzer.value(), value);
    }
}

#[test]
fn values_differ_with_the_seed() {
    let mut data = entropy(&[(16, 11)]);
    let first = Fuzzer::new(&data, None).value();
    assert_eq!(first, values(&[16])[0]);
    assert!(first.iter().any(|&x| x != 0));
    data[0] ^= 1;
    assert_ne!(Fuzzer::new(&data, None).value(), first);
}

#[test]
fn updates() {
    let data = entropy(&[(0, 1), (17, 13), (3, 11), (1, 1), (4096, 13)]);
    let mut fuzzer = Fuzzer::new(&data, Some(Stats::new()));
    match fuzzer.update() {
        StoreUpdate::Insert { key, value } => {
            assert_eq!(key, 17);
            assert_eq!(value, values(&[3])[0]);
        }
        _ => panic!(),
    }
    match fuzzer.update() {
        StoreUpdate::Remove { key } => assert_eq!(key, 4096),
        _ => panic!(),
    }
    assert_eq!(counters(fuzzer), vec![0, 0, 0, 0, 1, 1, 0]);
}

#[test]
fn transaction() {
    let data = entropy(&[
        (0, 2),
        (3, 6),
        (0, 1),
        (1, 13),
        (2, 11),
        (1, 1),
        (2, 13),
        (0, 1),
        (3, 13),
        (7, 11),
    ]);
    let mut fuzzer = Fuzzer::new(&data, Some(Stats::new()));
    let expected = values(&[2, 7]);
    match fuzzer.operation(LIMITS) {
        StoreOperation::Transaction { updates } => {
            assert_eq!(updates.len(), 3);
            match &updates[0] {
                StoreUpdate::Insert { key, value } => {
                    assert_eq!(*key, 1);
                    assert_eq!(*value, expected[0]);
                }
                _ => panic!(),
            }
            match &updates[1] {
                StoreUpdate::Remove { key } => assert_eq!(*key, 2),
                _ => panic!(),
            }
            match &updates[2] {
                StoreUpdate::Insert { key, value } => {
                    assert_eq!(*key, 3);
                    assert_eq!(*value, expected[1]);
                }
                _ => panic!(),
            }
        }
        _ => panic!(),
    }
    assert_eq!(counters(fuzzer), vec![0, 1, 0, 0, 2, 1, 0]);
}

#[test]
fn transaction_with_too_many_updates() {
    let data = entropy(&[(0, 2), (32, 6)]);
    let mut fuzzer = Fuzzer::new(&data, Some(Stats::new()));
    match fuzzer.operation(LIMITS) {
        StoreOperation::Transaction { updates } => {
            assert_eq!(updates.len(), 32);
            for update in &updates {
                match update {
                    StoreUpdate::Insert { key, value } => {
                        assert_eq!(*key, 0);
                        assert!(value.is_empty());
                    }
                    _ => panic!(),
                }
            }
        }
        _ => panic!(),
    }
    assert_eq!(counters(fuzzer), vec![0, 1, 0, 0, 32, 0, 0]);
}

#[test]
fn clear() {
    let data = entropy(&[(1, 2), (4096, 13)]);
    let mut fuzzer = Fuzzer::new(&data, Some(Stats::new()));
    match fuzzer.operation(LIMITS) {
        StoreOperation::Clear { min_key } => assert_eq!(min_key, 4096),
        _ => panic!(),
    }
    assert_eq!(counters(fuzzer), vec![0, 0, 1, 0, 0, 0, 0]);
}

#[test]
fn prepare() {
    let data = entropy(&[(2, 2), (101, 7)]);
    let mut fuzzer = Fuzzer::new(&data, Some(Stats::new()));
    match fuzzer.operation(LIMITS) {
        StoreOperation::Prepare { length } => assert_eq!(length, 101),
        _ => panic!(),
    }
    assert_eq!(counters(fuzzer), vec![0, 0, 0, 1, 0, 0, 0]);
}

#[test]
fn third_choice_wraps() {
    // Two bits select one of three operations.
    let data = entropy(&[(3, 2)]);
    let mut fuzzer = Fuzzer::new(&data, None);
    match fuzzer.operation(LIMITS) {
        StoreOperation::Transaction { updates } => assert!(updates.is_empty()),
        _ => panic!(),
    }
}

#[test]
fn operations_consume_entropy() {
    let data: Vec<u8> = (0..100).map(|i| (i * 37 % 251) as u8).collect();
    let mut fuzzer = Fuzzer::new(&data, None);
    fuzzer.init();
    let mut count = 0;
    while fuzzer.next_step(Outcome::PoweredOn) == Step::Apply {
        fuzzer.operation(LIMITS);
        count += 1;
        assert!(count <= 8 * data.len());
    }
}

#[test]
fn planned_interruption() {
    let data = entropy(&[(1, 2), (0b01101, 5), (1, 1)]);
    let mut fuzzer = Fuzzer::new(&data, Some(Stats::new()));
    match fuzzer.interruption(Ok(vec![7, 5, 0])) {
        Ok(StoreInterruption::Planned { delay, mut complete_bits, interrupts }) => {
            assert_eq!(delay, 1);
            assert!(interrupts);
            assert_eq!(complete_bits.to_string(), "01101 (5 bits)");
            assert_eq!(complete_bits.pop(), Some(false));
            assert_eq!(complete_bits.pop(), Some(true));
        }
        _ => panic!(),
    }
    assert_eq!(counters(fuzzer), vec![0, 0, 0, 0, 0, 0, 1]);
}

#[test]
fn last_entry_does_not_interrupt() {
    let data = entropy(&[(2, 2), (0xff, 8)]);
    let mut fuzzer = Fuzzer::new(&data, Some(Stats::new()));
    match fuzzer.interruption(Ok(vec![7, 5, 0])) {
        Ok(StoreInterruption::Planned { delay, complete_bits, interrupts }) => {
            assert_eq!(delay, 2);
            assert!(!interrupts);
            assert!(complete_bits.is_empty());
        }
        _ => panic!(),
    }
    assert_eq!(counters(fuzzer), vec![0, 0, 0, 0, 0, 0, 0]);
}

#[test]
fn broken_delay_map() {
    let mut fuzzer = Fuzzer::new(&[], Some(Stats::new()));
    match fuzzer.interruption(Err(42)) {
        Err(delay) => assert_eq!(delay, 42),
        _ => panic!(),
    }
    assert_eq!(counters(fuzzer), vec![0, 0, 0, 0, 0, 0, 0]);
}

#[test]
fn dirty_mode_is_not_interrupted() {
    let data = with_geometry(&[(1, 1), (0, 9), (0xff, 8)]);
    let mut fuzzer = Fuzzer::new(&data, Some(Stats::new()));
    fuzzer.init();
    match fuzzer.interruption(Err(42)) {
        Ok(StoreInterruption::Never) => {}
        _ => panic!(),
    }
    match fuzzer.power_on(Ok(vec![3, 0])) {
        Ok(StoreInterruption::Never) => {}
        _ => panic!(),
    }
    assert_eq!(fuzzer.next_step(Outcome::PoweredOn), Step::Apply);
    assert_eq!(counters(fuzzer), vec![1, 0, 0, 0, 0, 0, 0]);
}

#[test]
fn power_on_is_counted() {
    let data = entropy(&[(0, 1), (1, 1), (1, 1)]);
    let mut fuzzer = Fuzzer::new(&data, Some(Stats::new()));
    match fuzzer.power_on(Ok(vec![1, 0])) {
        Ok(StoreInterruption::Planned { delay, complete_bits, interrupts }) => {
            assert_eq!(delay, 0);
            assert!(interrupts);
            assert_eq!(complete_bits.to_string(), "1 (1 bits)");
        }
        _ => panic!(),
    }
    assert!(fuzzer.power_on(Ok(vec![1, 0])).is_ok());
    assert!(fuzzer.power_on(Err(5)).is_err());
    assert_eq!(counters(fuzzer), vec![3, 0, 0, 0, 0, 0, 1]);
}

#[test]
fn steps_while_there_is_entropy() {
    let data = entropy(&[(1, 1)]);
    let mut fuzzer = Fuzzer::new(&data, Some(Stats::new()));
    assert_eq!(fuzzer.next_step(Outcome::PoweredOff), Step::PowerOn);
    assert_eq!(fuzzer.next_step(Outcome::PoweredOn), Step::Apply);
    assert_eq!(fuzzer.next_step(Outcome::PowerOnFailed), Step::Crash);
    assert_eq!(fuzzer.next_step(Outcome::ApplyFailed), Step::Crash);
    assert_eq!(observations(fuzzer), vec![(StatKey::Entropy, 17)]);
}

#[test]
fn finish_without_entropy() {
    let mut fuzzer = Fuzzer::new(&[], Some(Stats::new()));
    assert_eq!(fuzzer.next_step(Outcome::PoweredOff), Step::Finish);
    assert_eq!(observations(fuzzer).last(), Some(&(StatKey::FinishedLifetime, 0)));
    let mut fuzzer = Fuzzer::new(&[], Some(Stats::new()));
    assert_eq!(fuzzer.next_step(Outcome::PoweredOn), Step::Finish);
    assert_eq!(observations(fuzzer).last(), Some(&(StatKey::FinishedLifetime, 0)));
}

#[test]
fn finish_without_lifetime() {
    let data = entropy(&[(1, 1)]);
    let mut fuzzer = Fuzzer::new(&data, Some(Stats::new()));
    assert_eq!(fuzzer.next_step(Outcome::LifetimeExhausted), Step::Finish);
    assert_eq!(observations(fuzzer).last(), Some(&(StatKey::FinishedLifetime, 1)));
}

#[test]
fn dirty_mode_stops_on_failure() {
    let failures = [Outcome::PowerOnFailed, Outcome::LifetimeExhausted, Outcome::ApplyFailed];
    for &failure in &failures {
        let data = with_geometry(&[(1, 1), (0, 9), (0xff, 8)]);
        let mut fuzzer = Fuzzer::new(&data, Some(Stats::new()));
        fuzzer.init();
        assert_eq!(fuzzer.next_step(Outcome::PoweredOff), Step::PowerOn);
        assert_eq!(fuzzer.next_step(failure), Step::Stop);
        // The entropy is consumed.
        assert_eq!(fuzzer.next_step(Outcome::PoweredOff), Step::Stop);
        assert_eq!(observations(fuzzer).last(), Some(&(StatKey::DirtyLength, 0)));
    }
}

#[test]
fn finish_records_lifetime_and_counters() {
    let data = with_geometry(&[(0, 1), (1, 1), (600, 10)]);
    let mut fuzzer = Fuzzer::new(&data, Some(Stats::new()));
    fuzzer.init();
    // The virtual window is 60, so that 36000 were used initially.
    fuzzer.finish(4, 15, 36200);
    let observations = observations(fuzzer);
    let end = &observations[observations.len() - 9..];
    assert_eq!(
        end.to_vec(),
        vec![
            (StatKey::UsedLifetime, 200),
            (StatKey::NumCompactions, 3),
            (StatKey::PowerOnCount, 0),
            (StatKey::TransactionCount, 0),
            (StatKey::ClearCount, 0),
            (StatKey::PrepareCount, 0),
            (StatKey::InsertCount, 0),
            (StatKey::RemoveCount, 0),
            (StatKey::InterruptionCount, 0),
        ]
    );
}

#[test]
fn lifetime_of_a_clean_storage() {
    let mut fuzzer = Fuzzer::new(&[], Some(Stats::new()));
    fuzzer.init();
    fuzzer.finish(3, 7, 41);
    let observations = observations(fuzzer);
    let end = &observations[observations.len() - 9..];
    assert_eq!(end[..2].to_vec(), vec![(StatKey::UsedLifetime, 41), (StatKey::NumCompactions, 1)]);
}

#[test]
fn statistics_do_not_interfere() {
    let data: Vec<u8> = (0..200).map(|i| (i * 73 % 255) as u8).collect();
    let mut a = Fuzzer::new(&data, Some(Stats::new()));
    let mut b = Fuzzer::new(&data, None);
    assert_eq!(format!("{:?}", a.init()), format!("{:?}", b.init()));
    for i in 0..20 {
        assert_eq!(
            format!("{:?}", a.operation(LIMITS)),
            format!("{:?}", b.operation(LIMITS))
        );
        let map = vec![i, 3, 0];
        assert_eq!(
            format!("{:?}", a.interruption(Ok(map.clone()))),
            format!("{:?}", b.interruption(Ok(map)))
        );
    }
    assert_eq!(a.next_step(Outcome::PoweredOn), b.next_step(Outcome::PoweredOn));
    assert!(b.into_stats().is_none());
}

#[test]
fn room_of_counters() {
    let data = entropy(&[(1, 2)]);
    let mut fuzzer = Fuzzer::new(&data, Some(Stats::new()));
    assert!(fuzzer.has_room(usize::MAX));
    fuzzer.operation(LIMITS);
    assert!(fuzzer.has_room(usize::MAX - 1));
    assert!(!fuzzer.has_room(usize::MAX));
    let mut fuzzer = Fuzzer::new(&data, None);
    fuzzer.operation(LIMITS);
    assert!(fuzzer.has_room(usize::MAX));
}

#[test]
fn record_and_increment() {
    let mut fuzzer = Fuzzer::new(&[], Some(Stats::new()));
    fuzzer.record(StatKey::PageSize, 99);
    fuzzer.increment(StatKey::InsertCount);
    fuzzer.increment(StatKey::InsertCount);
    fuzzer.increment(StatKey::RemoveCount);
    assert_eq!(counters(fuzzer), vec![0, 0, 0, 0, 2, 1, 0]);
    let mut fuzzer = Fuzzer::new(&[], None);
    fuzzer.record(StatKey::PageSize, 99);
    fuzzer.increment(StatKey::InsertCount);
    // Any key is accepted, and nothing is counted.
    fuzzer.increment(StatKey::PageSize);
    assert!(fuzzer.into_stats().is_none());
}

#[test]
fn only_inserts_use_the_generator() {
    // A remove, a clear, a prepare and an interruption come before the first insert.
    let data = entropy(&[
        (0, 2),
        (1, 6),
        (1, 1),
        (2, 13),
        (1, 2),
        (3, 13),
        (2, 2),
        (4, 7),
        (0, 1),
        (5, 3),
        (0, 1),
        (6, 13),
        (9, 11),
    ]);
    let mut fuzzer = Fuzzer::new(&data, None);
    for _ in 0..3 {
        fuzzer.operation(LIMITS);
    }
    assert!(fuzzer.interruption(Ok(vec![3, 0])).is_ok());
    match fuzzer.update() {
        StoreUpdate::Insert { key, value } => {
            assert_eq!(key, 6);
            assert_eq!(value, values(&[9])[0]);
        }
        _ => panic!(),
    }
}

#[test]
fn values_consume_no_entropy() {
    let numbers = [(0, 2), (2, 6), (0, 1), (1, 13), (1000, 11), (0, 1), (2, 13), (3, 11), (77, 13)];
    let mut data = entropy(&numbers);
    for seed in 0..5 {
        data[0] = seed;
        let mut fuzzer = Fuzzer::new(&data, None);
        fuzzer.operation(LIMITS);
        assert_eq!(fuzzer.key(), 77);
    }
}

#[test]
fn run_is_counted() {
    let data = with_geometry(&[
        (0, 1),
        (0, 1),
        // Power on, interrupted.
        (0, 1),
        (0b10, 2),
        // Power on.
        (1, 1),
        // A transaction of an insert and a remove.
        (0, 2),
        (2, 6),
        (0, 1),
        (8, 13),
        (1, 11),
        (1, 1),
        (9, 13),
        (1, 1),
        // A clear, interrupted.
        (1, 2),
        (5, 13),
        (0, 1),
        (0b01, 2),
    ]);
    let mut fuzzer = Fuzzer::new(&data, Some(Stats::new()));
    fuzzer.init();
    let map = vec![2, 0];
    for _ in 0..2 {
        assert_eq!(fuzzer.next_step(Outcome::PoweredOff), Step::PowerOn);
        assert!(fuzzer.power_on(Ok(map.clone())).is_ok());
    }
    for _ in 0..2 {
        assert_eq!(fuzzer.next_step(Outcome::PoweredOn), Step::Apply);
        fuzzer.operation(LIMITS);
        assert!(fuzzer.interruption(Ok(map.clone())).is_ok());
    }
    assert_eq!(counters(fuzzer), vec![2, 1, 1, 0, 1, 1, 2]);
}

#[test]
fn interruption_corrupts() {
    // The bits that are read are false, true, true, and they are popped in the reverse order.
    let data = entropy(&[(0, 1), (0b110, 3)]);
    let mut fuzzer = Fuzzer::new(&data, None);
    match fuzzer.interruption(Ok(vec![3, 0])) {
        Ok(StoreInterruption::Planned { mut complete_bits, .. }) => {
            let mut current = [0xff, 0x0f];
            corrupt(&mut complete_bits, &mut current, &[0xee, 0x0e]);
            assert_eq!(current, [0xee, 0x0f]);
            assert!(complete_bits.is_empty());
        }
        _ => panic!(),
    }
}

#[test]
fn dirty_run_records_nothing() {
    let data = with_geometry(&[(1, 1), (0, 9), (1, 2), (7, 13), (2, 2), (5, 7), (1, 1)]);
    let mut fuzzer = Fuzzer::new(&data, Some(Stats::new()));
    fuzzer.init();
    assert_eq!(fuzzer.next_step(Outcome::PoweredOff), Step::PowerOn);
    assert!(fuzzer.power_on(Err(1)).is_ok());
    for _ in 0..2 {
        assert_eq!(fuzzer.next_step(Outcome::PoweredOn), Step::Apply);
        fuzzer.operation(LIMITS);
        assert!(fuzzer.interruption(Ok(vec![4, 0])).is_ok());
    }
    assert_eq!(fuzzer.mode(), Init::Dirty);
    assert_eq!(fuzzer.next_step(Outcome::ApplyFailed), Step::Stop);
    assert_eq!(observations(fuzzer).last(), Some(&(StatKey::DirtyLength, 0)));
}

#[test]
fn operations_within_the_machine() {
    // Only a transaction reads a number of updates, and only a prepare reads a length.
    let limits = StoreLimits { max_updates: usize::MAX, total_capacity: usize::MAX };
    let data = entropy(&[(1, 2), (12, 13)]);
    let mut fuzzer = Fuzzer::new(&data, Some(Stats::new()));
    match fuzzer.operation(limits) {
        StoreOperation::Clear { min_key } => assert_eq!(min_key, 12),
        _ => panic!(),
    }
}

#[test]
fn run_without_statistics() {
    let data = with_geometry(&[(0, 1), (0, 1), (0, 1), (3, 2), (1, 2), (7, 13), (1, 1)]);
    let mut fuzzer = Fuzzer::new(&data, None);
    fuzzer.init();
    assert_eq!(fuzzer.next_step(Outcome::PoweredOff), Step::PowerOn);
    assert!(fuzzer.power_on(Ok(vec![2, 0])).is_ok());
    assert_eq!(fuzzer.next_step(Outcome::PoweredOn), Step::Apply);
    fuzzer.operation(LIMITS);
    assert_eq!(fuzzer.next_step(Outcome::LifetimeExhausted), Step::Finish);
    fuzzer.finish(4, 15, 600);
    assert!(fuzzer.has_room(usize::MAX));
    assert!(fuzzer.into_stats().is_none());
}
