//! Statistics about fuzzing runs.

use std::collections::HashMap;
use vstd::prelude::*;

verus! {

broadcast use vstd::std_specs::hash::group_hash_axioms;

/// Keys of the statistics.
#[derive(Clone, Copy, Debug, PartialEq, Eq, Structural)]
pub enum StatKey {
    /// The number of bytes of entropy.
    Entropy,
    /// The size of a page.
    PageSize,
    /// The number of pages.
    NumPages,
    /// The maximum number of times a page can be erased.
    MaxPageErases,
    /// The number of bytes of the initial dirty storage that are not erased.
    DirtyLength,
    /// The number of erase cycles that the initial storage simulates.
    InitCycles,
    /// The lifetime used by the run.
    UsedLifetime,
    /// Whether the run finished because no lifetime was left.
    FinishedLifetime,
    /// The number of times the store was compacted as a whole.
    NumCompactions,
    /// The number of times the store was powered on.
    PowerOnCount,
    /// The number of transactions.
    TransactionCount,
    /// The number of clear operations.
    ClearCount,
    /// The number of prepare operations.
    PrepareCount,
    /// The number of inserts in transactions.
    InsertCount,
    /// The number of removes in transactions.
    RemoveCount,
    /// The number of interrupted operations.
    InterruptionCount,
}

impl StatKey {
    /// The number that stands for the key in a map.
    pub open spec fn code(self) -> u64 {
        match self {
            StatKey::Entropy => 0,
            StatKey::PageSize => 1,
            StatKey::NumPages => 2,
            StatKey::MaxPageErases => 3,
            StatKey::DirtyLength => 4,
            StatKey::InitCycles => 5,
            StatKey::UsedLifetime => 6,
            StatKey::FinishedLifetime => 7,
            StatKey::NumCompactions => 8,
            StatKey::PowerOnCount => 9,
            StatKey::TransactionCount => 10,
            StatKey::ClearCount => 11,
            StatKey::PrepareCount => 12,
            StatKey::InsertCount => 13,
            StatKey::RemoveCount => 14,
            StatKey::InterruptionCount => 15,
        }
    }

    /// Whether the key is that of a counter.
    pub open spec fn is_counter(self) -> bool {
        match self {
            StatKey::PowerOnCount
            | StatKey::TransactionCount
            | StatKey::ClearCount
            | StatKey::PrepareCount
            | StatKey::InsertCount
            | StatKey::RemoveCount
            | StatKey::InterruptionCount => true,
            _ => false,
        }
    }

    /// Returns the number that stands for the key in a map.
    fn to_code(self) -> (result: u64)
        ensures
            result == self.code(),
    {
        match self {
            StatKey::Entropy => 0,
            StatKey::PageSize => 1,
            StatKey::NumPages => 2,
            StatKey::MaxPageErases => 3,
            StatKey::DirtyLength => 4,
            StatKey::InitCycles => 5,
            StatKey::UsedLifetime => 6,
            StatKey::FinishedLifetime => 7,
            StatKey::NumCompactions => 8,
            StatKey::PowerOnCount => 9,
            StatKey::TransactionCount => 10,
            StatKey::ClearCount => 11,
            StatKey::PrepareCount => 12,
            StatKey::InsertCount => 13,
            StatKey::RemoveCount => 14,
            StatKey::InterruptionCount => 15,
        }
    }
}

/// The keys of the counters, in the order in which they are written to the statistics.
pub open spec fn counter_keys() -> Seq<StatKey> {
    seq![
        StatKey::PowerOnCount,
        StatKey::TransactionCount,
        StatKey::ClearCount,
        StatKey::PrepareCount,
        StatKey::InsertCount,
        StatKey::RemoveCount,
        StatKey::InterruptionCount,
    ]
}

/// Statistics gathered over fuzzing runs: the observations in the order in which they were added.
#[derive(Debug)]
pub struct Stats {
    /// Each observation is a value for a key.
    observations: Vec<(StatKey, usize)>,
}

impl View for Stats {
    type V = Seq<(StatKey, usize)>;

    closed spec fn view(&self) -> Seq<(StatKey, usize)> {
        self.observations@
    }
}

impl Stats {
    /// Creates statistics without observations.
    pub fn new() -> (result: Stats)
        ensures
            result@ == Seq::<(StatKey, usize)>::empty(),
    {
        Stats { observations: Vec::new() }
    }

    /// Adds an observation.
    pub fn add(&mut self, key: StatKey, value: usize)
        ensures
            final(self)@ == old(self)@.push((key, value)),
    {
        self.observations.push((key, value));
    }

    /// Returns the observations.
    pub fn observations(&self) -> (result: &[(StatKey, usize)])
        ensures
            result@ == self@,
    {
        self.observations.as_slice()
    }
}

/// Counters of a fuzzing run.
#[derive(Debug)]
pub struct Counters {
    /// The value of each counter, by the code of its key.
    values: HashMap<u64, usize>,
}

impl View for Counters {
    type V = Map<StatKey, nat>;

    closed spec fn view(&self) -> Map<StatKey, nat> {
        Map::new(
            |key: StatKey| self.values@.contains_key(key.code()),
            |key: StatKey| self.values@[key.code()] as nat,
        )
    }
}

/// All counters at zero.
pub open spec fn zero_counters() -> Map<StatKey, nat> {
    Map::new(|key: StatKey| key.is_counter(), |key: StatKey| 0nat)
}

impl Counters {
    /// Creates a set of no counters.
    pub fn none() -> (result: Counters)
        ensures
            result@ == Map::<StatKey, nat>::empty(),
    {
        let result = Counters { values: HashMap::new() };
        assert(result@ =~= Map::<StatKey, nat>::empty());
        result
    }

    /// Sets a counter.
    fn set(&mut self, key: StatKey, value: usize)
        ensures
            final(self)@ == old(self)@.insert(key, value as nat),
    {
        self.values.insert(key.to_code(), value);
        assert(self@ =~= old(self)@.insert(key, value as nat));
    }

    /// Initializes all counters.
    pub fn reset(&mut self)
        requires
            old(self)@ == Map::<StatKey, nat>::empty(),
        ensures
            final(self)@ == zero_counters(),
    {
        self.set(StatKey::PowerOnCount, 0);
        self.set(StatKey::TransactionCount, 0);
        self.set(StatKey::ClearCount, 0);
        self.set(StatKey::PrepareCount, 0);
        self.set(StatKey::InsertCount, 0);
        self.set(StatKey::RemoveCount, 0);
        self.set(StatKey::InterruptionCount, 0);
        assert(self@ =~= zero_counters());
    }

    /// Returns the value of a counter.
    pub fn get(&self, key: StatKey) -> (result: usize)
        requires
            self@.contains_key(key),
        ensures
            result == self@[key],
    {
        match self.values.get(&key.to_code()) {
            Some(value) => *value,
            None => 0,
        }
    }

    /// Increments a counter.
    pub fn increment(&mut self, key: StatKey)
        requires
            old(self)@.contains_key(key),
            old(self)@[key] < usize::MAX,
        ensures
            final(self)@ == old(self)@.insert(key, old(self)@[key] + 1),
    {
        let value: usize = self.get(key);
        self.set(key, value + 1);
    }
}

} // verus!
