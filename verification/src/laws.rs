//! What holds of fuzzing runs as a whole.

use crate::bits::bit_at;
use crate::corruption::{
    can_corrupt, corrupted_bit, differences, differs, is_corrupted, law_corruption_extremes,
    lemma_differences_monotonic, shared_positions,
};
use crate::entropy::{
    entropy_bit, law_range_consumes, law_range_is_covered, lemma_entropy_range_bounds, selecting,
};
use crate::fuzzer::{
    delay_map_model, insert_count, lemma_inserts_are_drawn, lemma_updates_are_counted, FuzzerModel,
    INVALID_KEY, INVALID_LENGTH,
};
use crate::generator::generated_bytes;
use crate::init::Init;
use crate::stats::{counter_keys, StatKey};
use crate::store::{
    InterruptionModel, OperationModel, Outcome, SetupModel, Step, StoreLimits, UpdateModel,
};
use vstd::arithmetic::power2::{lemma2_to64, pow2};
use vstd::prelude::*;

verus! {

/// Whether two fuzzing states can differ in their statistics only.
pub open spec fn differ_in_statistics_only(a: FuzzerModel, b: FuzzerModel) -> bool {
    &&& a.entropy == b.entropy
    &&& a.values == b.values
    &&& a.init == b.init
}

/// Updates do not depend on statistics.
proof fn lemma_updates_ignore_statistics(a: FuzzerModel, b: FuzzerModel, count: nat)
    requires
        differ_in_statistics_only(a, b),
    ensures
        differ_in_statistics_only(a.after_updates(count), b.after_updates(count)),
        a.updates(count) == b.updates(count),
    decreases count,
{
    if count > 0 {
        lemma_updates_ignore_statistics(a, b, (count - 1) as nat);
    }
    assert forall|i: int| 0 <= i < count implies a.updates(count)[i] == b.updates(count)[i] by {
        lemma_updates_ignore_statistics(a, b, i as nat);
    }
    assert(a.updates(count) =~= b.updates(count));
}

/// Gathering statistics changes nothing of what a run generates and decides.
pub proof fn law_statistics_do_not_interfere(
    a: FuzzerModel,
    b: FuzzerModel,
    limits: StoreLimits,
    delay_map: Result<Seq<usize>, usize>,
    outcome: Outcome,
)
    requires
        differ_in_statistics_only(a, b),
    ensures
        a.setup() == b.setup(),
        differ_in_statistics_only(a.after_setup(), b.after_setup()),
        a.operation(limits) == b.operation(limits),
        differ_in_statistics_only(a.after_operation(limits), b.after_operation(limits)),
        a.interruption(delay_map) == b.interruption(delay_map),
        differ_in_statistics_only(
            a.after_interruption(delay_map),
            b.after_interruption(delay_map),
        ),
        a.step(outcome) == b.step(outcome),
        differ_in_statistics_only(a.after_step(outcome), b.after_step(outcome)),
{
    let a_chosen = a.after_range(0, 2);
    let b_chosen = b.after_range(0, 2);
    lemma_updates_ignore_statistics(
        a_chosen.after_range(0, limits.max_updates + 1),
        b_chosen.after_range(0, limits.max_updates + 1),
        a_chosen.range(0, limits.max_updates + 1) as nat,
    );
}

/// The generated manipulations are the same for the same entropy, whether or not statistics are
/// gathered.
pub proof fn law_start_ignores_statistics(
    data: Seq<u8>,
    a: Option<Seq<(StatKey, usize)>>,
    b: Option<Seq<(StatKey, usize)>>,
)
    ensures
        differ_in_statistics_only(FuzzerModel::start(data, a), FuzzerModel::start(data, b)),
        FuzzerModel::start(data, a).valid(),
{
}

/// A run that does not gather statistics has neither observations nor counters.
pub proof fn law_disabled_statistics_stay_empty(
    fuzzer: FuzzerModel,
    limits: StoreLimits,
    delay_map: Result<Seq<usize>, usize>,
    outcome: Outcome,
    virt_window: int,
    used: int,
)
    requires
        fuzzer.valid(),
        fuzzer.stats is None,
    ensures
        fuzzer.counters == Map::<StatKey, nat>::empty(),
        fuzzer.incremented(StatKey::PowerOnCount) == fuzzer,
        fuzzer.after_setup().stats is None && fuzzer.after_setup().valid(),
        fuzzer.after_operation(limits).stats is None && fuzzer.after_operation(limits).valid(),
        fuzzer.after_interruption(delay_map).stats is None && fuzzer.after_interruption(
            delay_map,
        ).valid(),
        fuzzer.after_step(outcome).stats is None && fuzzer.after_step(outcome).valid(),
        fuzzer.finished(virt_window, used).stats is None && fuzzer.finished(
            virt_window,
            used,
        ).valid(),
{
    assert(fuzzer.counters =~= Map::<StatKey, nat>::empty());
    let counted = fuzzer.after_range(0, 2).after_range(0, limits.max_updates + 1);
    let count = fuzzer.after_range(0, 2).range(0, limits.max_updates + 1);
    lemma_updates_are_counted(counted, count as nat);
}

/// The number of updates of an operation.
pub open spec fn update_count(operation: OperationModel) -> nat {
    match operation {
        OperationModel::Transaction { updates } => updates.len(),
        _ => 0,
    }
}

/// The number of inserts of an operation.
pub open spec fn operation_insert_count(operation: OperationModel) -> nat {
    match operation {
        OperationModel::Transaction { updates } => insert_count(updates),
        _ => 0,
    }
}

/// The number by which an operation increases the counter of `key`.
pub open spec fn counted_by(operation: OperationModel, key: StatKey) -> int {
    match key {
        StatKey::TransactionCount => if operation is Transaction {
            1
        } else {
            0
        },
        StatKey::ClearCount => if operation is Clear {
            1
        } else {
            0
        },
        StatKey::PrepareCount => if operation is Prepare {
            1
        } else {
            0
        },
        StatKey::InsertCount => operation_insert_count(operation) as int,
        StatKey::RemoveCount => update_count(operation) - operation_insert_count(operation),
        _ => 0,
    }
}

/// When statistics are gathered, the counters tell how many operations of each kind, and how many
/// updates of each kind, were generated. Nothing is recorded before the end of the run.
pub proof fn law_operations_are_counted(fuzzer: FuzzerModel, limits: StoreLimits)
    requires
        fuzzer.valid(),
        fuzzer.stats is Some,
    ensures
        fuzzer.after_operation(limits).valid(),
        fuzzer.after_operation(limits).stats == fuzzer.stats,
        forall|key: StatKey|
            key.is_counter() ==> #[trigger] fuzzer.after_operation(limits).counters[key]
                == fuzzer.counters[key] + counted_by(fuzzer.operation(limits), key),
{
    let counted = fuzzer.after_range(0, 2).after_range(0, limits.max_updates + 1);
    let count = fuzzer.after_range(0, 2).range(0, limits.max_updates + 1);
    lemma_updates_are_counted(counted, count as nat);
}

/// When statistics are gathered, the counter of interruptions counts the interruptions that hit a
/// storage operation, and generating an interruption changes no other counter.
pub proof fn law_interruptions_are_counted(
    fuzzer: FuzzerModel,
    delay_map: Result<Seq<usize>, usize>,
)
    requires
        fuzzer.valid(),
        fuzzer.stats is Some,
    ensures
        fuzzer.after_interruption(delay_map).valid(),
        fuzzer.after_interruption(delay_map).stats == fuzzer.stats,
        fuzzer.after_interruption(delay_map).counters == (if fuzzer.interrupts(delay_map) {
            fuzzer.counters.insert(
                StatKey::InterruptionCount,
                fuzzer.counters[StatKey::InterruptionCount] + 1,
            )
        } else {
            fuzzer.counters
        }),
{
}

/// What happens in a run between its start and its end.
pub enum Event {
    /// The store is powered on.
    PowerOn { delay_map: Result<Seq<usize>, usize> },
    /// An operation is generated and applied.
    Apply { limits: StoreLimits, delay_map: Result<Seq<usize>, usize> },
    /// The next step is decided.
    Decide { outcome: Outcome },
}

/// The state after an event.
pub open spec fn after_event(fuzzer: FuzzerModel, event: Event) -> FuzzerModel {
    match event {
        Event::PowerOn { delay_map } => fuzzer.incremented(
            StatKey::PowerOnCount,
        ).after_interruption(delay_map),
        Event::Apply { limits, delay_map } => fuzzer.after_operation(limits).after_interruption(
            delay_map,
        ),
        Event::Decide { outcome } => fuzzer.after_step(outcome),
    }
}

/// The state after some events.
pub open spec fn after_events(fuzzer: FuzzerModel, events: Seq<Event>) -> FuzzerModel
    decreases events.len(),
{
    if events.len() == 0 {
        fuzzer
    } else {
        after_event(after_events(fuzzer, events.drop_last()), events.last())
    }
}

/// How many times an event does what the counter of `key` counts.
pub open spec fn event_count(fuzzer: FuzzerModel, event: Event, key: StatKey) -> int {
    match event {
        Event::PowerOn { delay_map } => match key {
            StatKey::PowerOnCount => 1,
            StatKey::InterruptionCount => if fuzzer.interrupts(delay_map) {
                1
            } else {
                0
            },
            _ => 0,
        },
        Event::Apply { limits, delay_map } => match key {
            StatKey::InterruptionCount => if fuzzer.after_operation(limits).interrupts(
                delay_map,
            ) {
                1
            } else {
                0
            },
            _ => counted_by(fuzzer.operation(limits), key),
        },
        Event::Decide { .. } => 0,
    }
}

/// How many times some events do what the counter of `key` counts.
pub open spec fn events_count(fuzzer: FuzzerModel, events: Seq<Event>, key: StatKey) -> int
    decreases events.len(),
{
    if events.len() == 0 {
        0
    } else {
        events_count(fuzzer, events.drop_last(), key) + event_count(
            after_events(fuzzer, events.drop_last()),
            events.last(),
            key,
        )
    }
}

/// Whether no event finishes the run.
pub open spec fn not_finished(fuzzer: FuzzerModel, events: Seq<Event>) -> bool
    decreases events.len(),
{
    events.len() > 0 ==> {
        &&& not_finished(fuzzer, events.drop_last())
        &&& events.last() matches Event::Decide { outcome } ==> !(after_events(
            fuzzer,
            events.drop_last(),
        ).step(outcome) is Finish)
    }
}

/// When statistics are gathered, the value of each counter is how many times what it counts
/// happened, and nothing is recorded until the run finishes.
pub proof fn law_run_is_counted(fuzzer: FuzzerModel, events: Seq<Event>, key: StatKey)
    requires
        fuzzer.valid(),
        fuzzer.stats is Some,
        key.is_counter(),
        not_finished(fuzzer, events),
    ensures
        after_events(fuzzer, events).valid(),
        after_events(fuzzer, events).stats == fuzzer.stats,
        after_events(fuzzer, events).counters[key] == fuzzer.counters[key] + events_count(
            fuzzer,
            events,
            key,
        ),
    decreases events.len(),
{
    if events.len() > 0 {
        law_run_is_counted(fuzzer, events.drop_last(), key);
        let before = after_events(fuzzer, events.drop_last());
        match events.last() {
            Event::PowerOn { delay_map } => {
                let counted = before.incremented(StatKey::PowerOnCount);
                assert(before.counters.contains_key(StatKey::PowerOnCount));
                assert(counted.valid());
                law_interruptions_are_counted(counted, delay_map);
            },
            Event::Apply { limits, delay_map } => {
                law_operations_are_counted(before, limits);
                law_interruptions_are_counted(before.after_operation(limits), delay_map);
            },
            Event::Decide { .. } => {},
        }
    }
}

/// Whatever happened in a run, gathering statistics changes nothing of what it generates and
/// decides next.
pub proof fn law_statistics_do_not_interfere_with_a_run(
    a: FuzzerModel,
    b: FuzzerModel,
    events: Seq<Event>,
    limits: StoreLimits,
    delay_map: Result<Seq<usize>, usize>,
    outcome: Outcome,
)
    requires
        differ_in_statistics_only(a, b),
    ensures
        differ_in_statistics_only(after_events(a, events), after_events(b, events)),
        after_events(a, events).operation(limits) == after_events(b, events).operation(limits),
        after_events(a, events).interruption(delay_map) == after_events(b, events).interruption(
            delay_map,
        ),
        after_events(a, events).step(outcome) == after_events(b, events).step(outcome),
    decreases events.len(),
{
    if events.len() > 0 {
        let before = events.drop_last();
        match events.last() {
            Event::PowerOn { .. } | Event::Decide { .. } => {
                law_statistics_do_not_interfere_with_a_run(
                    a,
                    b,
                    before,
                    limits,
                    delay_map,
                    outcome,
                );
            },
            Event::Apply { limits: applied, delay_map: described } => {
                law_statistics_do_not_interfere_with_a_run(
                    a,
                    b,
                    before,
                    applied,
                    described,
                    outcome,
                );
                law_statistics_do_not_interfere(
                    after_events(a, before),
                    after_events(b, before),
                    applied,
                    described,
                    outcome,
                );
            },
        }
    }
    law_statistics_do_not_interfere(
        after_events(a, events),
        after_events(b, events),
        limits,
        delay_map,
        outcome,
    );
}

/// A run that does not gather statistics has neither observations nor counters, whatever happens.
pub proof fn law_run_without_statistics(
    fuzzer: FuzzerModel,
    events: Seq<Event>,
    virt_window: int,
    used: int,
)
    requires
        fuzzer.valid(),
        fuzzer.stats is None,
    ensures
        after_events(fuzzer, events).valid(),
        after_events(fuzzer, events).stats is None,
        after_events(fuzzer, events).counters == Map::<StatKey, nat>::empty(),
        after_events(fuzzer, events).finished(virt_window, used) == after_events(fuzzer, events),
    decreases events.len(),
{
    if events.len() > 0 {
        law_run_without_statistics(fuzzer, events.drop_last(), virt_window, used);
        let before = after_events(fuzzer, events.drop_last());
        match events.last() {
            Event::PowerOn { .. } | Event::Decide { .. } => {},
            Event::Apply { limits, delay_map } => {
                law_disabled_statistics_stay_empty(
                    before,
                    limits,
                    delay_map,
                    Outcome::PoweredOn,
                    virt_window,
                    used,
                );
            },
        }
    }
    assert(after_events(fuzzer, events).counters =~= Map::<StatKey, nat>::empty());
}

/// A run in dirty mode stays in dirty mode, records nothing, and neither finishes nor reports a
/// broken invariant.
pub proof fn law_dirty_run(fuzzer: FuzzerModel, events: Seq<Event>, outcome: Outcome)
    requires
        fuzzer.valid(),
        fuzzer.init is Dirty,
    ensures
        after_events(fuzzer, events).valid(),
        after_events(fuzzer, events).init is Dirty,
        after_events(fuzzer, events).stats == fuzzer.stats,
        not_finished(fuzzer, events),
        !(after_events(fuzzer, events).step(outcome) is Finish),
        !(after_events(fuzzer, events).step(outcome) is Crash),
    decreases events.len(),
{
    if events.len() > 0 {
        law_dirty_run(fuzzer, events.drop_last(), outcome);
        let before = after_events(fuzzer, events.drop_last());
        match events.last() {
            Event::PowerOn { delay_map } => {
                assert(before.stats is Some ==> before.counters.contains_key(
                    StatKey::PowerOnCount,
                ));
                assert(before.incremented(StatKey::PowerOnCount).valid());
            },
            Event::Apply { limits, delay_map } => {
                let counted = before.after_range(0, 2).after_range(0, limits.max_updates + 1);
                let count = before.after_range(0, 2).range(0, limits.max_updates + 1);
                lemma_updates_are_counted(counted, count as nat);
                assert(before.after_operation(limits).valid());
            },
            Event::Decide { .. } => {},
        }
    }
}

/// Updates without an insert leave the generator of values alone.
proof fn lemma_removes_keep_generator(fuzzer: FuzzerModel, count: nat)
    requires
        insert_count(fuzzer.updates(count)) == 0,
    ensures
        fuzzer.after_updates(count).values == fuzzer.values,
    decreases count,
{
    if count > 0 {
        assert(fuzzer.updates(count).drop_last() =~= fuzzer.updates((count - 1) as nat));
        lemma_removes_keep_generator(fuzzer, (count - 1) as nat);
    }
}

/// The pseudo entropy is only used to generate the values of entries.
pub proof fn law_generator_only_serves_values(
    fuzzer: FuzzerModel,
    limits: StoreLimits,
    delay_map: Result<Seq<usize>, usize>,
    outcome: Outcome,
)
    ensures
        fuzzer.after_setup().values == fuzzer.values,
        operation_insert_count(fuzzer.operation(limits)) == 0 ==> fuzzer.after_operation(
            limits,
        ).values == fuzzer.values,
        fuzzer.after_interruption(delay_map).values == fuzzer.values,
        fuzzer.after_step(outcome).values == fuzzer.values,
{
    let counted = fuzzer.after_range(0, 2).after_range(0, limits.max_updates + 1);
    let count = fuzzer.after_range(0, 2).range(0, limits.max_updates + 1);
    if insert_count(counted.updates(count as nat)) == 0 {
        lemma_removes_keep_generator(counted, count as nat);
    }
}

/// The content of values consumes no fuzzing entropy: how much an operation consumes depends on
/// the entropy and on the limits of the store alone.
pub proof fn law_values_consume_no_entropy(a: FuzzerModel, b: FuzzerModel, limits: StoreLimits)
    requires
        a.entropy == b.entropy,
    ensures
        a.after_operation(limits).entropy == b.after_operation(limits).entropy,
{
    let count = a.after_range(0, 2).range(0, limits.max_updates + 1) as nat;
    lemma_inserts_are_drawn(a.after_range(0, 2).after_range(0, limits.max_updates + 1), count);
    lemma_inserts_are_drawn(b.after_range(0, 2).after_range(0, limits.max_updates + 1), count);
}

/// The fuzzing mode is fixed by the initial storage.
pub proof fn law_mode_is_kept(
    fuzzer: FuzzerModel,
    limits: StoreLimits,
    delay_map: Result<Seq<usize>, usize>,
    outcome: Outcome,
    virt_window: int,
    used: int,
)
    requires
        fuzzer.valid(),
    ensures
        fuzzer.after_operation(limits).init == fuzzer.init,
        fuzzer.after_interruption(delay_map).init == fuzzer.init,
        fuzzer.after_step(outcome).init == fuzzer.init,
        fuzzer.finished(virt_window, used).init == fuzzer.init,
{
    let counted = fuzzer.after_range(0, 2).after_range(0, limits.max_updates + 1);
    let count = fuzzer.after_range(0, 2).range(0, limits.max_updates + 1);
    lemma_updates_are_counted(counted, count as nat);
}

/// The initial storage of a new run has pages of a power of two from 32 to 4096 bytes, 3 to 64
/// pages, and at most 50000 erase cycles, of which at most all are used. Only a dirty storage does
/// without strict writes. The fuzzing mode tells which storage it is.
pub proof fn law_setup(fuzzer: FuzzerModel)
    requires
        fuzzer.init is Clean,
    ensures
        exists|exponent: nat|
            5 <= exponent <= 12 && fuzzer.options().page_size == #[trigger] pow2(exponent),
        32 <= fuzzer.options().page_size <= 4096,
        fuzzer.options().max_page_erases <= 50000,
        3 <= fuzzer.num_pages() <= 64,
        match fuzzer.setup() {
            SetupModel::Dirty { options, storage } => {
                &&& options.page_size == fuzzer.options().page_size
                &&& options.max_page_erases == fuzzer.options().max_page_erases
                &&& !options.strict_write
                &&& storage.len() == fuzzer.num_pages() * options.page_size
                &&& fuzzer.after_setup().init is Dirty
            },
            SetupModel::Used { options, storage, cycle } => {
                &&& options == fuzzer.options()
                &&& options.strict_write
                &&& storage.len() == fuzzer.num_pages() * options.page_size
                &&& forall|i: int| 0 <= i < storage.len() ==> storage[i] == 0xff
                &&& cycle <= options.max_page_erases
                &&& fuzzer.after_setup().init == Init::Used { cycle }
                &&& fuzzer.after_setup().init.cycles() == cycle
            },
            SetupModel::Clean { options, num_pages } => {
                &&& options == fuzzer.options()
                &&& options.strict_write
                &&& num_pages == fuzzer.num_pages()
                &&& fuzzer.after_setup().init is Clean
            },
        },
{
    let sized = fuzzer.after_range(5, 12);
    lemma2_to64();
    lemma_entropy_range_bounds(fuzzer.entropy, 5, 12);
    lemma_entropy_range_bounds(sized.entropy, 0, 50000);
    lemma_entropy_range_bounds(sized.after_range(0, 50000).entropy, 3, 64);
    let exponent: nat = fuzzer.range(5, 12) as nat;
    assert(pow2(exponent) == fuzzer.options().page_size);
    assert(0 <= fuzzer.num_pages() * fuzzer.options().page_size <= 64 * 4096)
        by (nonlinear_arith)
        requires
            fuzzer.num_pages() <= 64,
            fuzzer.options().page_size <= 4096,
    ;
    let chosen = fuzzer.after_geometry().after_bits(1);
    lemma_entropy_range_bounds(chosen.entropy, 0, fuzzer.storage_size() as int);
    lemma_entropy_range_bounds(
        chosen.after_bits(1).entropy,
        0,
        fuzzer.options().max_page_erases as int,
    );
}

/// In dirty mode only crashing is tested: there is no interruption, no broken invariant is
/// reported, and the run ends without further statistics.
pub proof fn law_dirty_mode(
    fuzzer: FuzzerModel,
    delay_map: Result<Seq<usize>, usize>,
    outcome: Outcome,
)
    requires
        fuzzer.init is Dirty,
    ensures
        fuzzer.interruption(delay_map) == Ok::<InterruptionModel, usize>(InterruptionModel::Never),
        fuzzer.after_interruption(delay_map) == fuzzer,
        !(fuzzer.step(outcome) is Crash),
        !(fuzzer.step(outcome) is Finish),
        fuzzer.after_step(outcome).stats == fuzzer.stats,
        fuzzer.after_step(outcome).counters == fuzzer.counters,
        fuzzer.step(outcome) is Stop <==> fuzzer.after_step(outcome).entropy.len() == 0,
{
}

/// In the other modes each broken invariant is reported, except that there is lifetime left, and
/// the run does not end without finishing.
pub proof fn law_other_modes(fuzzer: FuzzerModel, outcome: Outcome)
    requires
        !(fuzzer.init is Dirty),
    ensures
        fuzzer.step(outcome) is Crash <==> (outcome is PowerOnFailed || outcome is ApplyFailed),
        fuzzer.step(outcome) is Finish <==> (outcome is LifetimeExhausted || (fuzzer.entropy.len()
            == 0 && (outcome is PoweredOff || outcome is PoweredOn))),
        !(fuzzer.step(outcome) is Stop),
        fuzzer.after_step(outcome).entropy == fuzzer.entropy,
        fuzzer.after_step(outcome).counters == fuzzer.counters,
        fuzzer.stats matches Some(stats) ==> fuzzer.after_step(outcome).stats == Some(
            if fuzzer.step(outcome) is Finish {
                stats.push(
                    (
                        StatKey::FinishedLifetime,
                        if outcome is LifetimeExhausted {
                            1usize
                        } else {
                            0usize
                        },
                    ),
                )
            } else {
                stats
            },
        ),
{
}

/// A run goes on only while there is entropy. Operations are applied to a store that is powered on,
/// and a store is powered on when it is off.
pub proof fn law_steps_need_entropy(fuzzer: FuzzerModel, outcome: Outcome)
    ensures
        fuzzer.step(outcome) is Apply || fuzzer.step(outcome) is PowerOn ==> fuzzer.entropy.len()
            > 0 && fuzzer.after_step(outcome) == fuzzer,
        fuzzer.step(outcome) is Apply ==> outcome is PoweredOn,
        fuzzer.step(outcome) is PowerOn ==> outcome is PoweredOff,
        outcome is PoweredOff || outcome is PoweredOn ==> !(fuzzer.step(outcome) is Crash),
{
}

/// Updates never add entropy.
proof fn lemma_updates_consume(fuzzer: FuzzerModel, count: nat)
    ensures
        fuzzer.after_updates(count).entropy.len() <= fuzzer.entropy.len(),
    decreases count,
{
    if count > 0 {
        lemma_updates_consume(fuzzer, (count - 1) as nat);
    }
}

/// Each operation consumes entropy if there is any, so that a run applies at most as many
/// operations as there are bits of entropy. An interruption never adds entropy.
pub proof fn law_operations_consume_entropy(
    fuzzer: FuzzerModel,
    limits: StoreLimits,
    delay_map: Result<Seq<usize>, usize>,
)
    ensures
        fuzzer.after_operation(limits).entropy.len() <= fuzzer.entropy.len(),
        fuzzer.entropy.len() > 0 ==> fuzzer.after_operation(limits).entropy.len()
            < fuzzer.entropy.len(),
        fuzzer.after_interruption(delay_map).entropy.len() <= fuzzer.entropy.len(),
{
    let counted = fuzzer.after_range(0, 2).after_range(0, limits.max_updates + 1);
    let count = fuzzer.after_range(0, 2).range(0, limits.max_updates + 1);
    law_range_consumes(fuzzer.entropy, 0, 2);
    lemma_updates_consume(counted, count as nat);
}

/// A planned interruption chooses an entry of the delay map, and has a bit for each bit that the
/// storage operation after the delay modifies. It hits a storage operation unless it chooses the
/// last entry.
pub proof fn law_planned_interruption(fuzzer: FuzzerModel, modified_bits: Seq<usize>)
    requires
        !(fuzzer.init is Dirty),
        0 < modified_bits.len() <= usize::MAX,
    ensures
        fuzzer.interruption(Ok(modified_bits)) matches Ok(
            InterruptionModel::Planned { delay, complete_bits, interrupts },
        ) && {
            &&& delay < modified_bits.len()
            &&& complete_bits.len() == modified_bits[delay as int]
            &&& interrupts == (delay != modified_bits.len() - 1)
        },
{
    lemma_entropy_range_bounds(fuzzer.entropy, 0, modified_bits.len() - 1);
}

/// The storage operation that a planned interruption hits can be corrupted if and only if it
/// changes at most as many bits as the delay map says.
pub proof fn law_interruption_can_corrupt(
    fuzzer: FuzzerModel,
    modified_bits: Seq<usize>,
    current: Seq<u8>,
    target: Seq<u8>,
)
    requires
        !(fuzzer.init is Dirty),
        0 < modified_bits.len() <= usize::MAX,
    ensures
        fuzzer.interruption(Ok(modified_bits)) matches Ok(
            InterruptionModel::Planned { delay, complete_bits, .. },
        ) && (can_corrupt(current, target, complete_bits) <==> differences(
            current,
            target,
            shared_positions(current, target),
        ) <= modified_bits[delay as int]),
{
}

/// What a planned interruption leaves of the storage operation that it hits.
///
/// Bits that are not to change stay as they are. The bits of the interruption are popped in the
/// reverse order of their reading: of the bits to change, the first one is changed if the last bit
/// that was read is set, the second one if the last but one is, and so on. If all bits that were
/// read are set, the storage operation is completed, and if none is, it has no effect.
pub proof fn law_interruption_corrupts(
    fuzzer: FuzzerModel,
    modified_bits: Seq<usize>,
    current: Seq<u8>,
    target: Seq<u8>,
    result: Seq<u8>,
)
    requires
        !(fuzzer.init is Dirty),
        0 < modified_bits.len() <= usize::MAX,
        current.len() == target.len(),
        fuzzer.interruption(Ok(modified_bits)) matches Ok(
            InterruptionModel::Planned { complete_bits, .. },
        ) && can_corrupt(current, target, complete_bits) && is_corrupted(
            current,
            target,
            complete_bits,
            result,
        ),
    ensures
        ({
            let read = fuzzer.after_range(0, modified_bits.len() - 1).entropy;
            let count = modified_bits[fuzzer.range(0, modified_bits.len() - 1) as int];
            &&& forall|pos: int|
                0 <= pos < 8 * current.len() ==> #[trigger] bit_at(result, pos) == (if differs(
                    current,
                    target,
                    pos,
                ) && entropy_bit(read, count - 1 - differences(current, target, pos as nat)) {
                    bit_at(target, pos)
                } else {
                    bit_at(current, pos)
                })
            &&& (forall|i: int| 0 <= i < count ==> #[trigger] entropy_bit(read, i)) ==> result
                == target
            &&& (forall|i: int| 0 <= i < count ==> !#[trigger] entropy_bit(read, i)) ==> result
                == current
        }),
{
    let read = fuzzer.after_range(0, modified_bits.len() - 1).entropy;
    let count = modified_bits[fuzzer.range(0, modified_bits.len() - 1) as int];
    let complete_bits = Seq::new(count as nat, |i: int| entropy_bit(read, i));
    assert forall|pos: int| 0 <= pos < 8 * current.len() implies #[trigger] bit_at(result, pos) == (
    if differs(current, target, pos) && entropy_bit(
        read,
        count - 1 - differences(current, target, pos as nat),
    ) {
        bit_at(target, pos)
    } else {
        bit_at(current, pos)
    }) by {
        assert(bit_at(result, pos) == corrupted_bit(current, target, complete_bits, pos));
        lemma_differences_monotonic(current, target, (pos + 1) as nat, 8 * current.len());
    }
    law_corruption_extremes(current, target, complete_bits, result);
}

/// A fuzzing state with other entropy.
pub open spec fn with_entropy(fuzzer: FuzzerModel, entropy: Seq<bool>) -> FuzzerModel {
    FuzzerModel { entropy, ..fuzzer }
}

/// Each key is generated for some entropy, the canonical invalid one included.
pub proof fn law_keys_are_covered(fuzzer: FuzzerModel, key: usize, rest: Seq<bool>)
    requires
        key <= INVALID_KEY,
    ensures
        with_entropy(fuzzer, selecting(key as int, 0, INVALID_KEY as int) + rest).key() == key,
{
    law_range_is_covered(key as int, 0, INVALID_KEY as int, rest);
}

/// Values of each length are generated for some entropy, the canonical invalid one included.
///
/// The entropy selects the length alone, the generator gives the bytes.
pub proof fn law_values_are_covered(fuzzer: FuzzerModel, length: usize, rest: Seq<bool>)
    requires
        length <= INVALID_LENGTH,
    ensures
        ({
            let selected = with_entropy(
                fuzzer,
                selecting(length as int, 0, INVALID_LENGTH as int) + rest,
            );
            &&& selected.range(0, INVALID_LENGTH as int) == length
            &&& selected.value() == generated_bytes(fuzzer.values, length as nat).1
            &&& selected.after_value().entropy == rest
        }),
{
    law_range_is_covered(length as int, 0, INVALID_LENGTH as int, rest);
}

/// Inserts of each key and of each length of a value, and removes of each key, are generated for
/// some entropy, the canonical invalid ones included.
pub proof fn law_updates_are_covered(
    fuzzer: FuzzerModel,
    key: usize,
    length: usize,
    rest: Seq<bool>,
)
    requires
        key <= INVALID_KEY,
        length <= INVALID_LENGTH,
    ensures
        with_entropy(
            fuzzer,
            selecting(0, 0, 1) + (selecting(key as int, 0, INVALID_KEY as int) + (selecting(
                length as int,
                0,
                INVALID_LENGTH as int,
            ) + rest)),
        ).update() == (UpdateModel::Insert {
            key,
            value: generated_bytes(fuzzer.values, length as nat).1,
        }),
        with_entropy(
            fuzzer,
            selecting(1, 0, 1) + (selecting(key as int, 0, INVALID_KEY as int) + rest),
        ).update() == (UpdateModel::Remove { key }),
{
    let sized = selecting(length as int, 0, INVALID_LENGTH as int) + rest;
    let keyed = selecting(key as int, 0, INVALID_KEY as int) + sized;
    law_range_is_covered(0, 0, 1, keyed);
    law_range_is_covered(key as int, 0, INVALID_KEY as int, sized);
    law_range_is_covered(length as int, 0, INVALID_LENGTH as int, rest);
    law_range_is_covered(1, 0, 1, selecting(key as int, 0, INVALID_KEY as int) + rest);
    law_range_is_covered(key as int, 0, INVALID_KEY as int, rest);
}

/// Counters with room for as many updates as an operation can have let any operation be generated.
pub proof fn law_room_suffices(fuzzer: FuzzerModel, limits: StoreLimits)
    requires
        limits.max_updates < usize::MAX,
        limits.total_capacity < usize::MAX,
        fuzzer.has_room((limits.max_updates + 1) as nat),
    ensures
        fuzzer.can_operate(limits),
{
    let chosen = fuzzer.after_range(0, 2);
    let counted = chosen.after_range(0, limits.max_updates + 1);
    lemma_entropy_range_bounds(chosen.entropy, 0, limits.max_updates + 1);
    lemma_inserts_are_drawn(counted, chosen.range(0, limits.max_updates + 1) as nat);
}

/// Transactions of each number of updates are generated for some entropy, up to the invalid one
/// that is one past the maximum.
pub proof fn law_transactions_are_covered(
    fuzzer: FuzzerModel,
    limits: StoreLimits,
    count: usize,
    rest: Seq<bool>,
)
    requires
        count <= limits.max_updates + 1,
    ensures
        with_entropy(
            fuzzer,
            selecting(0, 0, 2) + (selecting(count as int, 0, limits.max_updates + 1) + rest),
        ).operation(limits) matches OperationModel::Transaction { updates } && updates.len()
            == count,
{
    let tail = selecting(count as int, 0, limits.max_updates + 1) + rest;
    law_range_is_covered(0, 0, 2, tail);
    law_range_is_covered(count as int, 0, limits.max_updates + 1, rest);
}

/// Clear operations of each key are generated for some entropy, the canonical invalid one
/// included.
pub proof fn law_clears_are_covered(
    fuzzer: FuzzerModel,
    limits: StoreLimits,
    key: usize,
    rest: Seq<bool>,
)
    requires
        key <= INVALID_KEY,
    ensures
        with_entropy(
            fuzzer,
            selecting(1, 0, 2) + (selecting(key as int, 0, INVALID_KEY as int) + rest),
        ).operation(limits) == (OperationModel::Clear { min_key: key }),
{
    let tail = selecting(key as int, 0, INVALID_KEY as int) + rest;
    law_range_is_covered(1, 0, 2, tail);
    law_range_is_covered(key as int, 0, INVALID_KEY as int, rest);
}

/// Prepare operations of each length are generated for some entropy, up to the invalid one that is
/// one past the total capacity.
pub proof fn law_prepares_are_covered(
    fuzzer: FuzzerModel,
    limits: StoreLimits,
    length: usize,
    rest: Seq<bool>,
)
    requires
        length <= limits.total_capacity + 1,
    ensures
        with_entropy(
            fuzzer,
            selecting(2, 0, 2) + (selecting(length as int, 0, limits.total_capacity + 1) + rest),
        ).operation(limits) == (OperationModel::Prepare { length }),
{
    let tail = selecting(length as int, 0, limits.total_capacity + 1) + rest;
    law_range_is_covered(2, 0, 2, tail);
    law_range_is_covered(length as int, 0, limits.total_capacity + 1, rest);
}

/// The counters are written to the statistics once each, after the lifetime and the number of
/// compactions.
pub proof fn law_counters_are_written_once(
    fuzzer: FuzzerModel,
    virt_window: int,
    used: int,
    key: StatKey,
)
    requires
        fuzzer.valid(),
        fuzzer.stats is Some,
        key.is_counter(),
    ensures
        counter_keys().no_duplicates(),
        counter_keys().contains(key),
        fuzzer.finished(virt_window, used).stats.unwrap().len() == fuzzer.stats.unwrap().len() + 2
            + counter_keys().len(),
        fuzzer.finished(virt_window, used).stats.unwrap()[fuzzer.stats.unwrap().len() + 2
            + counter_keys().index_of(key)] == (key, fuzzer.counters[key] as usize),
{
    let keys = counter_keys();
    let i: int = match key {
        StatKey::PowerOnCount => 0,
        StatKey::TransactionCount => 1,
        StatKey::ClearCount => 2,
        StatKey::PrepareCount => 3,
        StatKey::InsertCount => 4,
        StatKey::RemoveCount => 5,
        _ => 6,
    };
    assert(keys[i] == key);
}

/// The recorded lifetime is the number of compactions times the virtual window, and less than
/// another window. It is all that the store has used, unless the storage was artificially aged.
pub proof fn law_lifetime(fuzzer: FuzzerModel, virt_window: int, used: int)
    requires
        0 < virt_window,
        fuzzer.init.cycles() * virt_window <= used,
    ensures
        0 <= fuzzer.lifetime(virt_window, used) <= used,
        !(fuzzer.init is Used) ==> fuzzer.lifetime(virt_window, used) == used,
        0 <= fuzzer.lifetime(virt_window, used) - fuzzer.lifetime(virt_window, used) / virt_window
            * virt_window < virt_window,
{
    let cycles: int = fuzzer.init.cycles() as int;
    let lifetime: int = fuzzer.lifetime(virt_window, used);
    assert(0 <= cycles * virt_window) by (nonlinear_arith)
        requires
            0 <= cycles,
            0 < virt_window,
    ;
    assert(cycles == 0 ==> cycles * virt_window == 0) by (nonlinear_arith);
    assert(0 <= lifetime - lifetime / virt_window * virt_window < virt_window)
        by (nonlinear_arith)
        requires
            0 < virt_window,
    ;
}

/// A run that is powered on or off goes on while there is entropy: an operation is applied if the
/// store is on, and it is powered on if it is off. Without entropy it finishes, which is recorded
/// with the value 0, or it stops in dirty mode.
pub proof fn law_step(fuzzer: FuzzerModel)
    ensures
        fuzzer.entropy.len() > 0 ==> {
            &&& fuzzer.step(Outcome::PoweredOn) == Step::Apply
            &&& fuzzer.step(Outcome::PoweredOff) == Step::PowerOn
            &&& fuzzer.after_step(Outcome::PoweredOn) == fuzzer
            &&& fuzzer.after_step(Outcome::PoweredOff) == fuzzer
        },
        fuzzer.entropy.len() == 0 && fuzzer.init == Init::Dirty ==> {
            &&& fuzzer.step(Outcome::PoweredOn) == Step::Stop
            &&& fuzzer.step(Outcome::PoweredOff) == Step::Stop
            &&& fuzzer.after_step(Outcome::PoweredOn) == fuzzer
            &&& fuzzer.after_step(Outcome::PoweredOff) == fuzzer
        },
        fuzzer.entropy.len() == 0 && fuzzer.init != Init::Dirty ==> {
            let finished = FuzzerModel {
                stats: match fuzzer.stats {
                    Some(stats) => Some(stats.push((StatKey::FinishedLifetime, 0usize))),
                    None => None,
                },
                ..fuzzer
            };
            &&& fuzzer.step(Outcome::PoweredOn) == Step::Finish
            &&& fuzzer.step(Outcome::PoweredOff) == Step::Finish
            &&& fuzzer.after_step(Outcome::PoweredOn) == finished
            &&& fuzzer.after_step(Outcome::PoweredOff) == finished
        },
{
}

/// A broken invariant consumes the entropy and stops the run in dirty mode. In another mode it is a
/// crash, except that a run without lifetime left finishes, which is recorded with the value 1.
pub proof fn law_failure(fuzzer: FuzzerModel)
    ensures
        fuzzer.init == Init::Dirty ==> {
            let stopped = FuzzerModel { entropy: Seq::empty(), ..fuzzer };
            &&& fuzzer.step(Outcome::PowerOnFailed) == Step::Stop
            &&& fuzzer.step(Outcome::LifetimeExhausted) == Step::Stop
            &&& fuzzer.step(Outcome::ApplyFailed) == Step::Stop
            &&& fuzzer.after_step(Outcome::PowerOnFailed) == stopped
            &&& fuzzer.after_step(Outcome::LifetimeExhausted) == stopped
            &&& fuzzer.after_step(Outcome::ApplyFailed) == stopped
        },
        fuzzer.init != Init::Dirty ==> {
            &&& fuzzer.step(Outcome::PowerOnFailed) == Step::Crash
            &&& fuzzer.step(Outcome::ApplyFailed) == Step::Crash
            &&& fuzzer.step(Outcome::LifetimeExhausted) == Step::Finish
            &&& fuzzer.after_step(Outcome::PowerOnFailed) == fuzzer
            &&& fuzzer.after_step(Outcome::ApplyFailed) == fuzzer
            &&& fuzzer.after_step(Outcome::LifetimeExhausted) == (FuzzerModel {
                stats: match fuzzer.stats {
                    Some(stats) => Some(stats.push((StatKey::FinishedLifetime, 1usize))),
                    None => None,
                },
                ..fuzzer
            })
        },
{
}

/// A finished run records the lifetime that it used, which leaves out the cycles that the storage
/// had used before, the number of whole virtual windows in it, and then each counter. Nothing else
/// changes, and nothing at all if statistics are not gathered.
pub proof fn law_finish(fuzzer: FuzzerModel, virt_window: int, used: int, lifetime: int)
    requires
        fuzzer.init matches Init::Used { cycle } ==> lifetime == used - cycle * virt_window,
        !(fuzzer.init is Used) ==> lifetime == used,
    ensures
        fuzzer.stats is None ==> fuzzer.finished(virt_window, used) == fuzzer,
        fuzzer.stats matches Some(stats) ==> fuzzer.finished(virt_window, used) == (FuzzerModel {
            stats: Some(
                stats + seq![
                    (StatKey::UsedLifetime, lifetime as usize),
                    (StatKey::NumCompactions, (lifetime / virt_window) as usize),
                    (StatKey::PowerOnCount, fuzzer.counters[StatKey::PowerOnCount] as usize),
                    (
                        StatKey::TransactionCount,
                        fuzzer.counters[StatKey::TransactionCount] as usize,
                    ),
                    (StatKey::ClearCount, fuzzer.counters[StatKey::ClearCount] as usize),
                    (StatKey::PrepareCount, fuzzer.counters[StatKey::PrepareCount] as usize),
                    (StatKey::InsertCount, fuzzer.counters[StatKey::InsertCount] as usize),
                    (StatKey::RemoveCount, fuzzer.counters[StatKey::RemoveCount] as usize),
                    (
                        StatKey::InterruptionCount,
                        fuzzer.counters[StatKey::InterruptionCount] as usize,
                    ),
                ],
            ),
            ..fuzzer
        }),
{
    assert(0int * virt_window == 0) by (nonlinear_arith);
    if let Some(stats) = fuzzer.stats {
        let after = fuzzer.finished(virt_window, used).stats.unwrap();
        assert(after =~= stats + seq![
            (StatKey::UsedLifetime, lifetime as usize),
            (StatKey::NumCompactions, (lifetime / virt_window) as usize),
            (StatKey::PowerOnCount, fuzzer.counters[StatKey::PowerOnCount] as usize),
            (StatKey::TransactionCount, fuzzer.counters[StatKey::TransactionCount] as usize),
            (StatKey::ClearCount, fuzzer.counters[StatKey::ClearCount] as usize),
            (StatKey::PrepareCount, fuzzer.counters[StatKey::PrepareCount] as usize),
            (StatKey::InsertCount, fuzzer.counters[StatKey::InsertCount] as usize),
            (StatKey::RemoveCount, fuzzer.counters[StatKey::RemoveCount] as usize),
            (StatKey::InterruptionCount, fuzzer.counters[StatKey::InterruptionCount] as usize),
        ]);
    }
}

/// The model of a delay map holds its entries in order, or the delay at which an invariant broke.
pub proof fn law_delay_map_model(modified_bits: Vec<usize>, delay: usize)
    ensures
        delay_map_model(Ok(modified_bits)) == Ok::<Seq<usize>, usize>(modified_bits@),
        delay_map_model(Err(delay)) == Err::<Seq<usize>, usize>(delay),
{
}

/// A fuzzing state is valid if there are counters for what is counted, when statistics are
/// gathered, and none otherwise.
pub proof fn law_valid(fuzzer: FuzzerModel)
    ensures
        fuzzer.valid() <==> (forall|key: StatKey| #[trigger]
            fuzzer.counters.contains_key(key) <==> fuzzer.stats is Some && (key
                == StatKey::PowerOnCount || key == StatKey::TransactionCount || key
                == StatKey::ClearCount || key == StatKey::PrepareCount || key
                == StatKey::InsertCount || key == StatKey::RemoveCount || key
                == StatKey::InterruptionCount)),
{
}

/// There is room in a counter if there is none of that key, or if its value and what is to be added
/// are within the numbers of the machine.
pub proof fn law_room(fuzzer: FuzzerModel, key: StatKey, count: nat)
    ensures
        fuzzer.has_room_for(key, count) <==> (fuzzer.counters.contains_key(key)
            ==> fuzzer.counters[key] + count <= usize::MAX),
        fuzzer.can_count(key) <==> (fuzzer.counters.contains_key(key) ==> fuzzer.counters[key]
            < usize::MAX),
        fuzzer.has_room(count) <==> (forall|other: StatKey| #[trigger]
            fuzzer.counters.contains_key(other) ==> fuzzer.counters[other] + count <= usize::MAX),
{
}

} // verus!
