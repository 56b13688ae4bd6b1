//! The fuzzing state, and what it generates.

use crate::bit_stack::BitStack;
use crate::entropy::{
    bits_of, entropy_after, entropy_after_range, entropy_bit, entropy_bytes, entropy_number,
    entropy_range, lemma_entropy_after_adds, lemma_entropy_range_bounds, Entropy,
};
use crate::generator::{fill_bytes, generated_bytes, generator_from_seed, seeded_generator};
use crate::init::Init;
use crate::stats::{counter_keys, zero_counters, Counters, StatKey, Stats};
use crate::store::{
    update_models, BufferOptions, InterruptionModel, OperationModel, Outcome, SetupModel, Step,
    StoreInterruption, StoreLimits, StoreOperation, StoreSetup, StoreUpdate, UpdateModel,
};
use rand_pcg::Pcg32;
use vstd::arithmetic::power2::pow2;
use vstd::prelude::*;

verus! {

/// The canonical invalid key.
pub const INVALID_KEY: usize = 4096;

/// The canonical invalid length of a value.
pub const INVALID_LENGTH: usize = 1024;

/// Fuzzing state.
pub struct Fuzzer<'a> {
    /// Remaining fuzzing entropy.
    entropy: Entropy<'a>,
    /// Unlimited pseudo entropy.
    ///
    /// This source is only used to generate the values of entries. This is a compromise to avoid
    /// consuming fuzzing entropy for low additional coverage.
    values: Pcg32,
    /// The fuzzing mode.
    init: Init,
    /// The statistics, if they are gathered.
    stats: Option<Stats>,
    /// Statistics counters (only used when gathering statistics).
    ///
    /// The counters are written to the statistics at the end of the fuzzing run, when their value
    /// is final.
    counters: Counters,
}

/// Model of [`Fuzzer`].
#[verifier::ext_equal]
pub struct FuzzerModel {
    /// Remaining bits of fuzzing entropy.
    pub entropy: Seq<bool>,
    /// The generator of the values of entries.
    pub values: Pcg32,
    /// The fuzzing mode.
    pub init: Init,
    /// The observations, if statistics are gathered.
    pub stats: Option<Seq<(StatKey, usize)>>,
    /// The counters, none unless statistics are gathered.
    pub counters: Map<StatKey, nat>,
}

impl FuzzerModel {
    /// There is a counter for each counter key when statistics are gathered, and none otherwise.
    pub open spec fn valid(self) -> bool {
        forall|key: StatKey| #[trigger]
            self.counters.contains_key(key) <==> self.stats is Some && key.is_counter()
    }

    /// Each counter can be incremented `count` times.
    pub open spec fn has_room(self, count: nat) -> bool {
        forall|key: StatKey| #[trigger]
            self.counters.contains_key(key) ==> self.counters[key] + count <= usize::MAX
    }

    /// The counter of `key`, if there is one, can be incremented `count` times.
    pub open spec fn has_room_for(self, key: StatKey, count: nat) -> bool {
        self.counters.contains_key(key) ==> self.counters[key] + count <= usize::MAX
    }

    /// The counter of `key`, if there is one, can be incremented.
    pub open spec fn can_count(self, key: StatKey) -> bool {
        self.has_room_for(key, 1)
    }

    /// Records an observation if statistics are gathered.
    pub open spec fn recorded(self, key: StatKey, value: usize) -> FuzzerModel {
        match self.stats {
            Some(stats) => FuzzerModel { stats: Some(stats.push((key, value))), ..self },
            None => self,
        }
    }

    /// Increments a counter if statistics are gathered.
    pub open spec fn incremented(self, key: StatKey) -> FuzzerModel {
        if self.stats is Some {
            FuzzerModel {
                counters: self.counters.insert(key, self.counters[key] + 1),
                ..self
            }
        } else {
            self
        }
    }

    /// Reads `count` bits of entropy.
    pub open spec fn after_bits(self, count: nat) -> FuzzerModel {
        FuzzerModel { entropy: entropy_after(self.entropy, count), ..self }
    }

    /// The number between `min` and `max` that the entropy selects next.
    pub open spec fn range(self, min: int, max: int) -> usize {
        entropy_range(self.entropy, min, max) as usize
    }

    /// Reads a number between `min` and `max`.
    pub open spec fn after_range(self, min: int, max: int) -> FuzzerModel {
        FuzzerModel { entropy: entropy_after_range(self.entropy, min, max), ..self }
    }

    /// The next key.
    pub open spec fn key(self) -> usize {
        self.range(0, INVALID_KEY as int)
    }

    /// The state after the next key.
    pub open spec fn after_key(self) -> FuzzerModel {
        self.after_range(0, INVALID_KEY as int)
    }

    /// The next value.
    pub open spec fn value(self) -> Seq<u8> {
        generated_bytes(self.values, self.range(0, INVALID_LENGTH as int) as nat).1
    }

    /// The state after the next value.
    pub open spec fn after_value(self) -> FuzzerModel {
        FuzzerModel {
            values: generated_bytes(
                self.values,
                self.range(0, INVALID_LENGTH as int) as nat,
            ).0,
            ..self.after_range(0, INVALID_LENGTH as int)
        }
    }

    /// The next update: an insert if a zero is read, a remove otherwise.
    pub open spec fn update(self) -> UpdateModel {
        let chosen = self.after_range(0, 1);
        if self.range(0, 1) == 0 {
            UpdateModel::Insert { key: chosen.key(), value: chosen.after_key().value() }
        } else {
            UpdateModel::Remove { key: chosen.key() }
        }
    }

    /// The state after the next update.
    pub open spec fn after_update(self) -> FuzzerModel {
        let chosen = self.after_range(0, 1);
        if self.range(0, 1) == 0 {
            chosen.after_key().after_value().incremented(StatKey::InsertCount)
        } else {
            chosen.after_key().incremented(StatKey::RemoveCount)
        }
    }

    /// The state after the next `count` updates.
    pub open spec fn after_updates(self, count: nat) -> FuzzerModel
        decreases count,
    {
        if count == 0 {
            self
        } else {
            self.after_updates((count - 1) as nat).after_update()
        }
    }

    /// The next `count` updates.
    pub open spec fn updates(self, count: nat) -> Seq<UpdateModel> {
        Seq::new(count, |i: int| self.after_updates(i as nat).update())
    }

    /// The counter of the next update.
    pub open spec fn update_counter(self) -> StatKey {
        if self.range(0, 1) == 0 {
            StatKey::InsertCount
        } else {
            StatKey::RemoveCount
        }
    }

    /// The next operation on a store with the given limits neither reads a number beyond those of
    /// the machine nor counts past them.
    pub open spec fn can_operate(self, limits: StoreLimits) -> bool {
        let chosen = self.after_range(0, 2);
        match self.range(0, 2) {
            0 => {
                let count = chosen.range(0, limits.max_updates + 1);
                let counted = chosen.after_range(0, limits.max_updates + 1);
                let inserts = drawn_inserts(counted.entropy, count as nat) as usize;
                let removes = (count - inserts) as usize;
                &&& limits.max_updates < usize::MAX
                &&& self.has_room_for(StatKey::InsertCount, inserts as nat)
                &&& self.has_room_for(StatKey::RemoveCount, removes as nat)
                &&& self.can_count(StatKey::TransactionCount)
            },
            1 => self.can_count(StatKey::ClearCount),
            _ => {
                &&& limits.total_capacity < usize::MAX
                &&& self.can_count(StatKey::PrepareCount)
            },
        }
    }

    /// The next operation on a store with the given limits.
    pub open spec fn operation(self, limits: StoreLimits) -> OperationModel {
        let chosen = self.after_range(0, 2);
        match self.range(0, 2) {
            0 => {
                let count = chosen.range(0, limits.max_updates + 1);
                let counted = chosen.after_range(0, limits.max_updates + 1);
                OperationModel::Transaction { updates: counted.updates(count as nat) }
            },
            1 => OperationModel::Clear { min_key: chosen.key() },
            _ => OperationModel::Prepare { length: chosen.range(0, limits.total_capacity + 1) },
        }
    }

    /// The state after the next operation on a store with the given limits.
    pub open spec fn after_operation(self, limits: StoreLimits) -> FuzzerModel {
        let chosen = self.after_range(0, 2);
        match self.range(0, 2) {
            0 => {
                let count = chosen.range(0, limits.max_updates + 1);
                let counted = chosen.after_range(0, limits.max_updates + 1);
                counted.after_updates(count as nat).incremented(StatKey::TransactionCount)
            },
            1 => chosen.after_key().incremented(StatKey::ClearCount),
            _ => chosen.after_range(0, limits.total_capacity + 1).incremented(
                StatKey::PrepareCount,
            ),
        }
    }

    /// The state of a fuzzing run that starts with the entropy `data`.
    ///
    /// The first 16 bytes of entropy seed the values of entries.
    pub open spec fn start(
        data: Seq<u8>,
        stats: Option<Seq<(StatKey, usize)>>,
    ) -> FuzzerModel {
        let bits = bits_of(data);
        FuzzerModel {
            entropy: entropy_after(bits, 128),
            values: seeded_generator(entropy_bytes(bits, 16)),
            init: Init::Clean,
            stats,
            counters: if stats is Some {
                zero_counters()
            } else {
                Map::empty()
            },
        }.recorded(StatKey::Entropy, data.len() as usize)
    }

    /// The options of the initial storage, unless it is dirty.
    pub open spec fn options(self) -> BufferOptions {
        BufferOptions {
            word_size: 4,
            page_size: pow2(self.range(5, 12) as nat) as usize,
            max_word_writes: 2,
            max_page_erases: self.after_range(5, 12).range(0, 50000),
            strict_write: true,
        }
    }

    /// The number of pages of the initial storage.
    pub open spec fn num_pages(self) -> usize {
        self.after_range(5, 12).after_range(0, 50000).range(3, 64)
    }

    /// The size of the initial storage.
    pub open spec fn storage_size(self) -> nat {
        (self.num_pages() * self.options().page_size) as nat
    }

    /// The state after the options and the number of pages of the initial storage.
    pub open spec fn after_geometry(self) -> FuzzerModel {
        self.after_range(5, 12).after_range(0, 50000).after_range(3, 64).recorded(
            StatKey::PageSize,
            self.options().page_size,
        ).recorded(StatKey::MaxPageErases, self.options().max_page_erases).recorded(
            StatKey::NumPages,
            self.num_pages(),
        )
    }

    /// The initial storage.
    ///
    /// A bit of entropy tells whether it is dirty. If it is, its first bytes are read from the
    /// entropy, and the others are erased. If it is not, a second bit tells whether it is used.
    pub open spec fn setup(self) -> SetupModel {
        let options = self.options();
        let chosen = self.after_geometry().after_bits(1);
        if entropy_bit(self.after_geometry().entropy, 0) {
            let length = chosen.range(0, self.storage_size() as int);
            let sized = chosen.after_range(0, self.storage_size() as int);
            SetupModel::Dirty {
                options: BufferOptions { strict_write: false, ..options },
                storage: entropy_bytes(sized.entropy, length as nat) + Seq::new(
                    (self.storage_size() - length) as nat,
                    |i: int| 0xffu8,
                ),
            }
        } else if entropy_bit(chosen.entropy, 0) {
            SetupModel::Used {
                options,
                storage: Seq::new(self.storage_size(), |i: int| 0xffu8),
                cycle: chosen.after_bits(1).range(0, options.max_page_erases as int),
            }
        } else {
            SetupModel::Clean { options, num_pages: self.num_pages() }
        }
    }

    /// The state after the initial storage.
    pub open spec fn after_setup(self) -> FuzzerModel {
        let options = self.options();
        let chosen = self.after_geometry().after_bits(1);
        if entropy_bit(self.after_geometry().entropy, 0) {
            let length = chosen.range(0, self.storage_size() as int);
            let sized = chosen.after_range(0, self.storage_size() as int);
            FuzzerModel { init: Init::Dirty, ..sized }.recorded(
                StatKey::DirtyLength,
                length,
            ).after_bits(8 * length as nat)
        } else if entropy_bit(chosen.entropy, 0) {
            let used = chosen.after_bits(1);
            let cycle = used.range(0, options.max_page_erases as int);
            FuzzerModel {
                init: Init::Used { cycle },
                ..used.after_range(0, options.max_page_erases as int)
            }.recorded(StatKey::InitCycles, cycle)
        } else {
            chosen.after_bits(1)
        }
    }

    /// The interruption of the storage operations that `delay_map` describes, or the delay at
    /// which they broke an invariant.
    ///
    /// In dirty mode there is no interruption. Otherwise the delay is read from the entropy, and
    /// then a bit for each bit that the storage operation after the delay modifies.
    pub open spec fn interruption(self, delay_map: Result<Seq<usize>, usize>) -> Result<
        InterruptionModel,
        usize,
    > {
        if self.init is Dirty {
            Ok(InterruptionModel::Never)
        } else {
            match delay_map {
                Ok(modified_bits) => {
                    let last = modified_bits.len() - 1;
                    let delay = self.range(0, last);
                    let delayed = self.after_range(0, last);
                    Ok(
                        InterruptionModel::Planned {
                            delay,
                            complete_bits: Seq::new(
                                modified_bits[delay as int] as nat,
                                |i: int| entropy_bit(delayed.entropy, i),
                            ),
                            interrupts: delay < last,
                        },
                    )
                },
                Err(delay) => Err(delay),
            }
        }
    }

    /// Whether the interruption hits a storage operation.
    pub open spec fn interrupts(self, delay_map: Result<Seq<usize>, usize>) -> bool {
        self.interruption(delay_map) matches Ok(InterruptionModel::Planned { interrupts, .. })
            && interrupts
    }

    /// The state after the interruption.
    pub open spec fn after_interruption(
        self,
        delay_map: Result<Seq<usize>, usize>,
    ) -> FuzzerModel {
        if self.init is Dirty {
            self
        } else {
            match delay_map {
                Ok(modified_bits) => {
                    let last = modified_bits.len() - 1;
                    let delay = self.range(0, last);
                    let read = self.after_range(0, last).after_bits(
                        modified_bits[delay as int] as nat,
                    );
                    if delay < last {
                        read.incremented(StatKey::InterruptionCount)
                    } else {
                        read
                    }
                },
                Err(_) => self,
            }
        }
    }

    /// The next step of the run.
    ///
    /// A broken invariant stops a run in dirty mode. In another mode it is a crash, unless the
    /// invariant is that there is lifetime left, which finishes the run. A run whose entropy is
    /// consumed finishes, or stops in dirty mode. Any other run goes on.
    pub open spec fn step(self, outcome: Outcome) -> Step {
        match outcome {
            Outcome::PowerOnFailed | Outcome::ApplyFailed => if self.init is Dirty {
                Step::Stop
            } else {
                Step::Crash
            },
            Outcome::LifetimeExhausted => if self.init is Dirty {
                Step::Stop
            } else {
                Step::Finish
            },
            Outcome::PoweredOff | Outcome::PoweredOn => if self.entropy.len() == 0 {
                if self.init is Dirty {
                    Step::Stop
                } else {
                    Step::Finish
                }
            } else if outcome is PoweredOn {
                Step::Apply
            } else {
                Step::PowerOn
            },
        }
    }

    /// The state at the next step of the run.
    ///
    /// Whether lifetime was left is recorded when the run finishes. A broken invariant in dirty
    /// mode consumes the entropy.
    pub open spec fn after_step(self, outcome: Outcome) -> FuzzerModel {
        let failed = !(outcome is PoweredOff || outcome is PoweredOn);
        if self.init is Dirty {
            if failed {
                FuzzerModel { entropy: Seq::empty(), ..self }
            } else {
                self
            }
        } else if self.step(outcome) is Finish {
            self.recorded(StatKey::FinishedLifetime, if failed { 1 } else { 0 })
        } else {
            self
        }
    }

    /// Writes the counters to the statistics if they are gathered.
    pub open spec fn counters_recorded(self) -> FuzzerModel {
        match self.stats {
            Some(stats) => FuzzerModel {
                stats: Some(
                    stats + Seq::new(
                        7,
                        |i: int| (counter_keys()[i], self.counters[counter_keys()[i]] as usize),
                    ),
                ),
                ..self
            },
            None => self,
        }
    }

    /// The lifetime that the run used of a store with the given virtual window, which has used the
    /// lifetime `used` since it was new.
    pub open spec fn lifetime(self, virt_window: int, used: int) -> int {
        used - self.init.cycles() * virt_window
    }

    /// The state at the end of the run.
    pub open spec fn finished(self, virt_window: int, used: int) -> FuzzerModel {
        self.recorded(StatKey::UsedLifetime, self.lifetime(virt_window, used) as usize).recorded(
            StatKey::NumCompactions,
            (self.lifetime(virt_window, used) / virt_window) as usize,
        ).counters_recorded()
    }
}

/// The model of a delay map.
pub open spec fn delay_map_model(delay_map: Result<Vec<usize>, usize>) -> Result<
    Seq<usize>,
    usize,
> {
    match delay_map {
        Ok(modified_bits) => Ok(modified_bits@),
        Err(delay) => Err(delay),
    }
}

/// At most one key and one length past the valid ones are generated for an update.
pub open spec fn update_within_bounds(update: UpdateModel) -> bool {
    match update {
        UpdateModel::Insert { key, value } => key <= INVALID_KEY && value.len() <= INVALID_LENGTH,
        UpdateModel::Remove { key } => key <= INVALID_KEY,
    }
}

/// At most one number of updates, one key, and one length past the valid ones are generated for an
/// operation.
pub open spec fn operation_within_bounds(operation: OperationModel, limits: StoreLimits) -> bool {
    match operation {
        OperationModel::Transaction { updates } => {
            &&& updates.len() <= limits.max_updates + 1
            &&& forall|i: int|
                0 <= i < updates.len() ==> update_within_bounds(#[trigger] updates[i])
        },
        OperationModel::Clear { min_key } => min_key <= INVALID_KEY,
        OperationModel::Prepare { length } => length <= limits.total_capacity + 1,
    }
}

/// The number of inserts among `updates`.
pub open spec fn insert_count(updates: Seq<UpdateModel>) -> nat
    decreases updates.len(),
{
    if updates.len() == 0 {
        0
    } else if updates.last() is Insert {
        insert_count(updates.drop_last()) + 1
    } else {
        insert_count(updates.drop_last())
    }
}

/// When statistics are gathered, generating updates adds the number of inserts to the counter of
/// inserts, the number of other updates to the counter of removes, and nothing to the other
/// counters. It records nothing, and it keeps the fuzzing mode.
pub proof fn lemma_updates_are_counted(fuzzer: FuzzerModel, count: nat)
    requires
        fuzzer.valid(),
    ensures
        fuzzer.after_updates(count).valid(),
        fuzzer.after_updates(count).stats == fuzzer.stats,
        fuzzer.after_updates(count).init == fuzzer.init,
        insert_count(fuzzer.updates(count)) <= count,
        fuzzer.stats is Some ==> forall|key: StatKey| #[trigger]
            fuzzer.after_updates(count).counters[key] == fuzzer.counters[key] + (match key {
                StatKey::InsertCount => insert_count(fuzzer.updates(count)) as int,
                StatKey::RemoveCount => count - insert_count(fuzzer.updates(count)),
                _ => 0,
            }),
    decreases count,
{
    if count > 0 {
        let previous = fuzzer.updates((count - 1) as nat);
        let all = fuzzer.updates(count);
        lemma_updates_are_counted(fuzzer, (count - 1) as nat);
        assert(all.drop_last() =~= previous);
    }
}

/// What remains of the entropy after an update.
pub open spec fn entropy_after_update(bits: Seq<bool>) -> Seq<bool> {
    let keyed = entropy_after_range(entropy_after_range(bits, 0, 1), 0, INVALID_KEY as int);
    if entropy_range(bits, 0, 1) == 0 {
        entropy_after_range(keyed, 0, INVALID_LENGTH as int)
    } else {
        keyed
    }
}

/// What remains of the entropy after `count` updates.
pub open spec fn entropy_after_updates(bits: Seq<bool>, count: nat) -> Seq<bool>
    decreases count,
{
    if count == 0 {
        bits
    } else {
        entropy_after_update(entropy_after_updates(bits, (count - 1) as nat))
    }
}

/// The number of inserts that the entropy selects among `count` updates.
pub open spec fn drawn_inserts(bits: Seq<bool>, count: nat) -> nat
    decreases count,
{
    if count == 0 {
        0
    } else {
        let before = drawn_inserts(bits, (count - 1) as nat);
        if entropy_range(entropy_after_updates(bits, (count - 1) as nat), 0, 1) == 0 {
            before + 1
        } else {
            before
        }
    }
}

/// The inserts among the generated updates are those that the entropy selects.
pub proof fn lemma_inserts_are_drawn(fuzzer: FuzzerModel, count: nat)
    ensures
        fuzzer.after_updates(count).entropy == entropy_after_updates(fuzzer.entropy, count),
        insert_count(fuzzer.updates(count)) == drawn_inserts(fuzzer.entropy, count),
        drawn_inserts(fuzzer.entropy, count) <= count,
    decreases count,
{
    if count > 0 {
        lemma_inserts_are_drawn(fuzzer, (count - 1) as nat);
        lemma_entropy_range_bounds(fuzzer.after_updates((count - 1) as nat).entropy, 0, 1);
        assert(fuzzer.updates(count).drop_last() =~= fuzzer.updates((count - 1) as nat));
    }
}

/// Neither the number of inserts nor that of other updates shrinks with more updates.
proof fn lemma_drawn_inserts_monotonic(bits: Seq<bool>, a: nat, b: nat)
    requires
        a <= b,
    ensures
        drawn_inserts(bits, a) <= drawn_inserts(bits, b),
        drawn_inserts(bits, b) - drawn_inserts(bits, a) <= b - a,
    decreases b,
{
    if a < b {
        lemma_drawn_inserts_monotonic(bits, a, (b - 1) as nat);
    }
}

/// Room for the updates of a transaction is room for each of them, and the updates change no room
/// for transactions.
proof fn lemma_room_for_updates(fuzzer: FuzzerModel, count: nat, total: nat)
    requires
        fuzzer.valid(),
        fuzzer.has_room_for(StatKey::InsertCount, drawn_inserts(fuzzer.entropy, total)),
        fuzzer.has_room_for(
            StatKey::RemoveCount,
            (total - drawn_inserts(fuzzer.entropy, total)) as nat,
        ),
        fuzzer.can_count(StatKey::TransactionCount),
        count <= total,
    ensures
        count < total ==> fuzzer.after_updates(count).can_count(
            fuzzer.after_updates(count).update_counter(),
        ),
        fuzzer.after_updates(count).can_count(StatKey::TransactionCount),
{
    lemma_updates_are_counted(fuzzer, count);
    lemma_inserts_are_drawn(fuzzer, count);
    lemma_inserts_are_drawn(fuzzer, total);
    let after = fuzzer.after_updates(count);
    lemma_entropy_range_bounds(after.entropy, 0, 1);
    if count < total {
        lemma_drawn_inserts_monotonic(fuzzer.entropy, count + 1, total);
    }
    if fuzzer.stats is Some {
        assert(fuzzer.counters.contains_key(StatKey::InsertCount));
        assert(fuzzer.counters.contains_key(StatKey::RemoveCount));
        assert(fuzzer.counters.contains_key(StatKey::TransactionCount));
        assert(after.counters[StatKey::InsertCount] == fuzzer.counters[StatKey::InsertCount]
            + drawn_inserts(fuzzer.entropy, count));
        assert(after.counters[StatKey::RemoveCount] == fuzzer.counters[StatKey::RemoveCount]
            + count - drawn_inserts(fuzzer.entropy, count));
        assert(after.counters[StatKey::TransactionCount]
            == fuzzer.counters[StatKey::TransactionCount]);
    }
}

/// The size of a page is a power of two from 32 to 4096.
proof fn lemma_page_size(exponent: usize)
    requires
        5 <= exponent <= 12,
    ensures
        1usize << exponent == pow2(exponent as nat),
        32 <= pow2(exponent as nat) <= 4096,
{
    vstd::arithmetic::power2::lemma2_to64();
    vstd::bits::lemma_usize_shl_is_mul(1, exponent);
}

impl<'a> View for Fuzzer<'a> {
    type V = FuzzerModel;

    closed spec fn view(&self) -> FuzzerModel {
        FuzzerModel {
            entropy: self.entropy@,
            values: self.values,
            init: self.init,
            stats: match self.stats {
                Some(stats) => Some(stats@),
                None => None,
            },
            counters: self.counters@,
        }
    }
}

impl<'a> Fuzzer<'a> {
    /// The entropy is well-formed, and so is the model.
    pub closed spec fn wf(&self) -> bool {
        &&& self.entropy.wf()
        &&& self@.valid()
    }

    /// The model of a well-formed fuzzing state is valid.
    pub proof fn lemma_wf_is_valid(&self)
        requires
            self.wf(),
        ensures
            self@.valid(),
    {
    }

    /// Creates an initial fuzzing state.
    pub fn new(data: &'a [u8], stats: Option<Stats>) -> (result: Fuzzer<'a>)
        ensures
            result.wf(),
            result@ == FuzzerModel::start(
                data@,
                match stats {
                    Some(stats) => Some(stats@),
                    None => None,
                },
            ),
    {
        let mut entropy = Entropy::new(data);
        let seed: Vec<u8> = entropy.read_slice(16);
        let values: Pcg32 = generator_from_seed(&seed);
        let mut fuzzer = Fuzzer {
            entropy,
            values,
            init: Init::Clean,
            stats,
            counters: Counters::none(),
        };
        fuzzer.init_counters();
        fuzzer.record(StatKey::Entropy, data.len());
        fuzzer
    }

    /// Initializes all counters if statistics are enabled.
    fn init_counters(&mut self)
        requires
            old(self).entropy.wf(),
            old(self)@.counters == Map::<StatKey, nat>::empty(),
        ensures
            final(self).wf(),
            final(self)@ == (FuzzerModel {
                counters: if old(self)@.stats is Some {
                    zero_counters()
                } else {
                    Map::empty()
                },
                ..old(self)@
            }),
    {
        if self.stats.is_some() {
            self.counters.reset();
        }
    }

    /// Initializes the fuzzing state and returns the initial storage.
    pub fn init(&mut self) -> (result: StoreSetup)
        requires
            old(self).wf(),
        ensures
            final(self).wf(),
            result@ == old(self)@.setup(),
            final(self)@ == old(self)@.after_setup(),
    {
        let ghost fuzzer = self@;
        let exponent: usize = self.read_range(5, 12);
        proof {
            lemma_page_size(exponent);
        }
        let mut options = BufferOptions {
            word_size: 4,
            page_size: 1usize << exponent,
            max_word_writes: 2,
            max_page_erases: self.read_range(0, 50000),
            strict_write: true,
        };
        let num_pages: usize = self.read_range(3, 64);
        self.record(StatKey::PageSize, options.page_size);
        self.record(StatKey::MaxPageErases, options.max_page_erases);
        self.record(StatKey::NumPages, num_pages);
        assert(options == fuzzer.options());
        assert(num_pages * options.page_size <= 64 * 4096) by (nonlinear_arith)
            requires
                num_pages <= 64,
                options.page_size <= 4096,
        ;
        let storage_size: usize = num_pages * options.page_size;
        if self.read_bit() {
            self.init = Init::Dirty;
            let mut storage: Vec<u8> = vec![0xff; storage_size];
            let length: usize = self.read_range(0, storage_size);
            self.record(StatKey::DirtyLength, length);
            let ghost sized = self@;
            let mut i: usize = 0;
            assert(entropy_after(sized.entropy, 0) =~= sized.entropy);
            while i < length
                invariant
                    self.wf(),
                    i <= length <= storage_size,
                    self@ == sized.after_bits(8 * i as nat),
                    storage@ =~= entropy_bytes(sized.entropy, i as nat) + Seq::new(
                        (storage_size - i) as nat,
                        |k: int| 0xffu8,
                    ),
                decreases length - i,
            {
                proof {
                    lemma_entropy_after_adds(sized.entropy, 8 * i as nat, 8);
                }
                let byte: u8 = self.read_byte();
                storage[i] = byte;
                i += 1;
            }
            options.strict_write = false;
            StoreSetup::Dirty { options, storage }
        } else if self.read_bit() {
            let cycle: usize = self.read_range(0, options.max_page_erases);
            self.init = Init::Used { cycle };
            self.record(StatKey::InitCycles, cycle);
            let storage: Vec<u8> = vec![0xff; storage_size];
            assert(storage@ =~= Seq::new(storage_size as nat, |i: int| 0xffu8));
            StoreSetup::Used { options, storage, cycle }
        } else {
            StoreSetup::Clean { options, num_pages }
        }
    }

    /// Generates an interruption.
    ///
    /// The `delay_map` describes the number of modified bits by the upcoming sequence of store
    /// operations. It is an error if that sequence breaks an invariant by itself, which is
    /// returned, except in dirty mode.
    pub fn interruption(&mut self, delay_map: Result<Vec<usize>, usize>) -> (result: Result<
        StoreInterruption,
        usize,
    >)
        requires
            old(self).wf(),
            !(old(self)@.init is Dirty) ==> (delay_map matches Ok(modified_bits)
                ==> modified_bits@.len() > 0),
            old(self)@.interrupts(delay_map_model(delay_map)) ==> old(self)@.can_count(
                StatKey::InterruptionCount,
            ),
        ensures
            final(self).wf(),
            match result {
                Ok(interruption) => interruption.wf() && old(self)@.interruption(
                    delay_map_model(delay_map),
                ) == Ok::<InterruptionModel, usize>(interruption@),
                Err(delay) => old(self)@.interruption(delay_map_model(delay_map)) == Err::<
                    InterruptionModel,
                    usize,
                >(delay),
            },
            final(self)@ == old(self)@.after_interruption(delay_map_model(delay_map)),
    {
        if self.init.is_dirty() {
            // We only test that the store can power on without crashing. If it would get
            // interrupted then it's like powering up with a different initial state, which would be
            // tested with another fuzzing input.
            return Ok(StoreInterruption::Never);
        }
        let modified_bits: Vec<usize> = match delay_map {
            Ok(modified_bits) => modified_bits,
            Err(delay) => {
                return Err(delay);
            },
        };
        let last: usize = modified_bits.len() - 1;
        let delay: usize = self.read_range(0, last);
        let count: usize = modified_bits[delay];
        let mut complete_bits = BitStack::default();
        let ghost delayed = self@;
        let mut i: usize = 0;
        assert(entropy_after(delayed.entropy, 0) =~= delayed.entropy);
        while i < count
            invariant
                self.wf(),
                complete_bits.wf(),
                i <= count,
                self@ == delayed.after_bits(i as nat),
                complete_bits@ =~= Seq::new(i as nat, |k: int| entropy_bit(delayed.entropy, k)),
            decreases count - i,
        {
            proof {
                lemma_entropy_after_adds(delayed.entropy, i as nat, 1);
            }
            let bit: bool = self.read_bit();
            complete_bits.push(bit);
            i += 1;
        }
        if delay < last {
            self.increment(StatKey::InterruptionCount);
        }
        Ok(StoreInterruption::Planned { delay, complete_bits, interrupts: delay < last })
    }

    /// Counts a power on of the store and generates its interruption.
    pub fn power_on(&mut self, delay_map: Result<Vec<usize>, usize>) -> (result: Result<
        StoreInterruption,
        usize,
    >)
        requires
            old(self).wf(),
            !(old(self)@.init is Dirty) ==> (delay_map matches Ok(modified_bits)
                ==> modified_bits@.len() > 0),
            old(self)@.can_count(StatKey::PowerOnCount),
            old(self)@.interrupts(delay_map_model(delay_map)) ==> old(self)@.can_count(
                StatKey::InterruptionCount,
            ),
        ensures
            final(self).wf(),
            ({
                let counted = old(self)@.incremented(StatKey::PowerOnCount);
                &&& match result {
                    Ok(interruption) => interruption.wf() && counted.interruption(
                        delay_map_model(delay_map),
                    ) == Ok::<InterruptionModel, usize>(interruption@),
                    Err(delay) => counted.interruption(delay_map_model(delay_map)) == Err::<
                        InterruptionModel,
                        usize,
                    >(delay),
                }
                &&& final(self)@ == counted.after_interruption(delay_map_model(delay_map))
            }),
    {
        self.increment(StatKey::PowerOnCount);
        self.interruption(delay_map)
    }

    /// Returns the fuzzing mode.
    pub fn mode(&self) -> (result: Init)
        requires
            self.wf(),
        ensures
            result == self@.init,
    {
        self.init
    }

    /// Returns whether the invariants of the store are to be checked before the next step.
    ///
    /// They are if the store is powered on, except in dirty mode.
    pub fn must_check(&self, outcome: Outcome) -> (result: bool)
        requires
            self.wf(),
        ensures
            result == (outcome is PoweredOn && !(self@.init is Dirty)),
    {
        match outcome {
            Outcome::PoweredOn => !self.init.is_dirty(),
            _ => false,
        }
    }

    /// Decides the next step of the run from what became of the last one.
    pub fn next_step(&mut self, outcome: Outcome) -> (result: Step)
        requires
            old(self).wf(),
        ensures
            final(self).wf(),
            result == old(self)@.step(outcome),
            final(self)@ == old(self)@.after_step(outcome),
    {
        let dirty: bool = self.init.is_dirty();
        match outcome {
            Outcome::PowerOnFailed | Outcome::ApplyFailed => {
                if dirty {
                    self.entropy.consume_all();
                    Step::Stop
                } else {
                    Step::Crash
                }
            },
            Outcome::LifetimeExhausted => {
                if dirty {
                    self.entropy.consume_all();
                    Step::Stop
                } else {
                    self.record(StatKey::FinishedLifetime, 1);
                    Step::Finish
                }
            },
            Outcome::PoweredOff | Outcome::PoweredOn => {
                if self.entropy.is_empty() {
                    if dirty {
                        Step::Stop
                    } else {
                        self.record(StatKey::FinishedLifetime, 0);
                        Step::Finish
                    }
                } else {
                    match outcome {
                        Outcome::PoweredOn => Step::Apply,
                        _ => Step::PowerOn,
                    }
                }
            },
        }
    }

    /// Records the lifetime that the run used, and the counters.
    ///
    /// The store has `num_pages` pages of `virt_page_size` virtual words, and has used the lifetime
    /// `used` since it was new.
    pub fn finish(&mut self, num_pages: usize, virt_page_size: usize, used: usize)
        requires
            old(self).wf(),
            0 < num_pages * virt_page_size <= usize::MAX,
            old(self)@.init.cycles() * (num_pages * virt_page_size) <= used,
        ensures
            final(self).wf(),
            final(self)@ == old(self)@.finished(num_pages * virt_page_size, used as int),
    {
        let virt_window: usize = num_pages * virt_page_size;
        let cycles: usize = self.init.used_cycles();
        assert(0 <= cycles * virt_window) by (nonlinear_arith)
            requires
                0 <= cycles,
                0 <= virt_window,
        ;
        let init_lifetime: usize = cycles * virt_window;
        let lifetime: usize = used - init_lifetime;
        self.record(StatKey::UsedLifetime, lifetime);
        self.record(StatKey::NumCompactions, lifetime / virt_window);
        self.record_counters();
    }

    /// Records all counters if statistics are enabled.
    fn record_counters(&mut self)
        requires
            old(self).wf(),
        ensures
            final(self).wf(),
            final(self)@ == old(self)@.counters_recorded(),
    {
        if self.stats.is_some() {
            self.record(StatKey::PowerOnCount, self.counter(StatKey::PowerOnCount));
            self.record(StatKey::TransactionCount, self.counter(StatKey::TransactionCount));
            self.record(StatKey::ClearCount, self.counter(StatKey::ClearCount));
            self.record(StatKey::PrepareCount, self.counter(StatKey::PrepareCount));
            self.record(StatKey::InsertCount, self.counter(StatKey::InsertCount));
            self.record(StatKey::RemoveCount, self.counter(StatKey::RemoveCount));
            self.record(StatKey::InterruptionCount, self.counter(StatKey::InterruptionCount));
        }
        assert(self@ =~= old(self)@.counters_recorded());
    }

    /// Returns the value of a counter.
    fn counter(&self, key: StatKey) -> (result: usize)
        requires
            self.wf(),
            self@.stats is Some,
            key.is_counter(),
        ensures
            self@.counters.contains_key(key),
            result == self@.counters[key],
    {
        assert(self@.counters.contains_key(key));
        self.counters.get(key)
    }

    /// Returns whether each counter can be incremented `count` times.
    pub fn has_room(&self, count: usize) -> (result: bool)
        requires
            self.wf(),
        ensures
            result == self@.has_room(count as nat),
            result <==> (forall|key: StatKey| #[trigger]
                self@.counters.contains_key(key) ==> self@.counters[key] + count <= usize::MAX),
    {
        if self.stats.is_none() {
            return true;
        }
        let limit: usize = usize::MAX - count;
        let power_on: usize = self.counter(StatKey::PowerOnCount);
        let transaction: usize = self.counter(StatKey::TransactionCount);
        let clear: usize = self.counter(StatKey::ClearCount);
        let prepare: usize = self.counter(StatKey::PrepareCount);
        let insert: usize = self.counter(StatKey::InsertCount);
        let remove: usize = self.counter(StatKey::RemoveCount);
        let interruption: usize = self.counter(StatKey::InterruptionCount);
        power_on <= limit && transaction <= limit && clear <= limit && prepare <= limit && insert
            <= limit && remove <= limit && interruption <= limit
    }

    /// Returns the statistics if they are gathered.
    pub fn into_stats(self) -> (result: Option<Stats>)
        requires
            self.wf(),
        ensures
            match result {
                Some(stats) => self@.stats == Some(stats@),
                None => self@.stats is None,
            },
    {
        self.stats
    }

    /// Records a statistics if enabled.
    pub fn record(&mut self, key: StatKey, value: usize)
        requires
            old(self).wf(),
        ensures
            final(self).wf(),
            final(self)@ == old(self)@.recorded(key, value),
    {
        if let Some(stats) = &mut self.stats {
            stats.add(key, value);
        }
    }

    /// Increments a counter if statistics are enabled.
    pub fn increment(&mut self, key: StatKey)
        requires
            old(self).wf(),
            old(self)@.stats is Some ==> key.is_counter() && old(self)@.can_count(key),
        ensures
            final(self).wf(),
            final(self)@ == old(self)@.incremented(key),
    {
        if self.stats.is_some() {
            self.counters.increment(key);
        }
    }

    /// Reads a number between `min` and `max` from the entropy.
    fn read_range(&mut self, min: usize, max: usize) -> (result: usize)
        requires
            old(self).wf(),
            min <= max,
        ensures
            final(self).wf(),
            min <= result <= max,
            result == old(self)@.range(min as int, max as int),
            final(self)@ == old(self)@.after_range(min as int, max as int),
    {
        self.entropy.read_range(min, max)
    }

    /// Reads a bit from the entropy.
    fn read_bit(&mut self) -> (result: bool)
        requires
            old(self).wf(),
        ensures
            final(self).wf(),
            result == entropy_bit(old(self)@.entropy, 0),
            final(self)@ == old(self)@.after_bits(1),
    {
        self.entropy.read_bit()
    }

    /// Reads a byte from the entropy.
    fn read_byte(&mut self) -> (result: u8)
        requires
            old(self).wf(),
        ensures
            final(self).wf(),
            result == entropy_number(old(self)@.entropy, 8),
            final(self)@ == old(self)@.after_bits(8),
    {
        self.entropy.read_byte()
    }

    /// Generates a possibly invalid key.
    pub fn key(&mut self) -> (result: usize)
        requires
            old(self).wf(),
        ensures
            final(self).wf(),
            result <= INVALID_KEY,
            result == old(self)@.key(),
            final(self)@ == old(self)@.after_key(),
    {
        self.read_range(0, INVALID_KEY)
    }

    /// Generates a possibly invalid value.
    pub fn value(&mut self) -> (result: Vec<u8>)
        requires
            old(self).wf(),
        ensures
            final(self).wf(),
            result@.len() == old(self)@.range(0, INVALID_LENGTH as int),
            result@.len() <= INVALID_LENGTH,
            result@ == old(self)@.value(),
            final(self)@ == old(self)@.after_value(),
    {
        let length: usize = self.read_range(0, INVALID_LENGTH);
        let mut value: Vec<u8> = vec![0; length];
        fill_bytes(&mut self.values, &mut value);
        value
    }

    /// Generates a possibly invalid update.
    pub fn update(&mut self) -> (result: StoreUpdate)
        requires
            old(self).wf(),
            old(self)@.can_count(old(self)@.update_counter()),
        ensures
            final(self).wf(),
            result@ == old(self)@.update(),
            update_within_bounds(result@),
            final(self)@ == old(self)@.after_update(),
    {
        match self.read_range(0, 1) {
            0 => {
                let key: usize = self.key();
                let value: Vec<u8> = self.value();
                self.increment(StatKey::InsertCount);
                StoreUpdate::Insert { key, value }
            },
            _ => {
                let key: usize = self.key();
                self.increment(StatKey::RemoveCount);
                StoreUpdate::Remove { key }
            },
        }
    }

    /// Generates a possibly invalid operation.
    pub fn operation(&mut self, limits: StoreLimits) -> (result: StoreOperation)
        requires
            old(self).wf(),
            old(self)@.can_operate(limits),
        ensures
            final(self).wf(),
            result@ == old(self)@.operation(limits),
            operation_within_bounds(result@, limits),
            final(self)@ == old(self)@.after_operation(limits),
    {
        match self.read_range(0, 2) {
            0 => {
                // We also generate an invalid count (one past the maximum value) to test the error
                // scenario. Since the test for the error scenario is monotonic, this is a good
                // compromise to keep entropy bounded.
                let count: usize = self.read_range(0, limits.max_updates + 1);
                let mut updates: Vec<StoreUpdate> = Vec::with_capacity(count);
                let mut i: usize = 0;
                let ghost counted = self@;
                proof {
                    lemma_inserts_are_drawn(counted, count as nat);
                }
                while i < count
                    invariant
                        self.wf(),
                        i <= count <= limits.max_updates + 1,
                        counted.valid(),
                        counted.has_room_for(
                            StatKey::InsertCount,
                            drawn_inserts(counted.entropy, count as nat),
                        ),
                        counted.has_room_for(
                            StatKey::RemoveCount,
                            (count - drawn_inserts(counted.entropy, count as nat)) as nat,
                        ),
                        counted.can_count(StatKey::TransactionCount),
                        self@ == counted.after_updates(i as nat),
                        update_models(updates@) =~= counted.updates(i as nat),
                        forall|k: int|
                            0 <= k < updates@.len() ==> update_within_bounds(
                                #[trigger] update_models(updates@)[k],
                            ),
                    decreases count - i,
                {
                    proof {
                        lemma_room_for_updates(counted, i as nat, count as nat);
                        assert(counted.updates((i + 1) as nat) =~= counted.updates(i as nat).push(
                            self@.update(),
                        ));
                    }
                    let update: StoreUpdate = self.update();
                    let ghost before = updates@;
                    updates.push(update);
                    assert(update_models(updates@) =~= update_models(before).push(update@));
                    i += 1;
                }
                proof {
                    lemma_room_for_updates(counted, count as nat, count as nat);
                }
                self.increment(StatKey::TransactionCount);
                StoreOperation::Transaction { updates }
            },
            1 => {
                let min_key: usize = self.key();
                self.increment(StatKey::ClearCount);
                StoreOperation::Clear { min_key }
            },
            _ => {
                // We also generate an invalid length (one past the total capacity) to test the
                // error scenario. See the explanation for transactions above for why it's enough.
                let length: usize = self.read_range(0, limits.total_capacity + 1);
                self.increment(StatKey::PrepareCount);
                StoreOperation::Prepare { length }
            },
        }
    }
}

} // verus!
