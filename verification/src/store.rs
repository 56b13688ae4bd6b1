//! What is asked of the store, as plain values.
//!
//! Each type that holds vectors comes with a model, which holds sequences instead.

use crate::bit_stack::BitStack;
use vstd::prelude::*;

verus! {

/// Options of a simulated flash storage.
#[derive(Clone, Copy, Debug, PartialEq, Eq, Structural)]
pub struct BufferOptions {
    /// Size of a word in bytes.
    pub word_size: usize,
    /// Size of a page in bytes.
    pub page_size: usize,
    /// How many times a word can be written between page erasures.
    pub max_word_writes: usize,
    /// How many times a page can be erased.
    pub max_page_erases: usize,
    /// Whether writes that the flash would not perform are refused.
    pub strict_write: bool,
}

/// The storage from which fuzzing starts.
#[derive(Debug)]
pub enum StoreSetup {
    /// A storage with arbitrary content.
    Dirty {
        /// The options of the storage.
        options: BufferOptions,
        /// The content of the storage.
        storage: Vec<u8>,
    },
    /// An erased storage, aged by a number of erase cycles.
    Used {
        /// The options of the storage.
        options: BufferOptions,
        /// The content of the storage before it is aged.
        storage: Vec<u8>,
        /// The number of erase cycles.
        cycle: usize,
    },
    /// A fresh storage.
    Clean {
        /// The options of the storage.
        options: BufferOptions,
        /// The number of pages.
        num_pages: usize,
    },
}

/// Model of [`StoreSetup`].
pub enum SetupModel {
    /// A storage with arbitrary content.
    Dirty { options: BufferOptions, storage: Seq<u8> },
    /// An erased storage, aged by a number of erase cycles.
    Used { options: BufferOptions, storage: Seq<u8>, cycle: usize },
    /// A fresh storage.
    Clean { options: BufferOptions, num_pages: usize },
}

impl View for StoreSetup {
    type V = SetupModel;

    open spec fn view(&self) -> SetupModel {
        match *self {
            StoreSetup::Dirty { options, storage } => SetupModel::Dirty {
                options,
                storage: storage@,
            },
            StoreSetup::Used { options, storage, cycle } => SetupModel::Used {
                options,
                storage: storage@,
                cycle,
            },
            StoreSetup::Clean { options, num_pages } => SetupModel::Clean { options, num_pages },
        }
    }
}

/// The limits of a store beyond which an operation is invalid.
#[derive(Clone, Copy, Debug, PartialEq, Eq, Structural)]
pub struct StoreLimits {
    /// The maximum number of updates in a transaction.
    pub max_updates: usize,
    /// The total capacity of the store.
    pub total_capacity: usize,
}

/// An update of a transaction.
#[derive(Debug)]
pub enum StoreUpdate {
    /// Inserts or replaces an entry.
    Insert {
        /// The key of the entry.
        key: usize,
        /// The value of the entry.
        value: Vec<u8>,
    },
    /// Removes an entry.
    Remove {
        /// The key of the entry.
        key: usize,
    },
}

/// Model of [`StoreUpdate`].
pub enum UpdateModel {
    /// Inserts or replaces an entry.
    Insert { key: usize, value: Seq<u8> },
    /// Removes an entry.
    Remove { key: usize },
}

impl View for StoreUpdate {
    type V = UpdateModel;

    open spec fn view(&self) -> UpdateModel {
        match *self {
            StoreUpdate::Insert { key, value } => UpdateModel::Insert { key, value: value@ },
            StoreUpdate::Remove { key } => UpdateModel::Remove { key },
        }
    }
}

/// The models of `updates`.
pub open spec fn update_models(updates: Seq<StoreUpdate>) -> Seq<UpdateModel> {
    Seq::new(updates.len(), |i: int| updates[i]@)
}

/// An operation on a store.
#[derive(Debug)]
pub enum StoreOperation {
    /// Applies updates as a whole.
    Transaction {
        /// The updates.
        updates: Vec<StoreUpdate>,
    },
    /// Removes the entries from a key on.
    Clear {
        /// The smallest key to remove.
        min_key: usize,
    },
    /// Compacts the store until it has immediate capacity.
    Prepare {
        /// The capacity.
        length: usize,
    },
}

/// Model of [`StoreOperation`].
pub enum OperationModel {
    /// Applies updates as a whole.
    Transaction { updates: Seq<UpdateModel> },
    /// Removes the entries from a key on.
    Clear { min_key: usize },
    /// Compacts the store until it has immediate capacity.
    Prepare { length: usize },
}

impl View for StoreOperation {
    type V = OperationModel;

    open spec fn view(&self) -> OperationModel {
        match *self {
            StoreOperation::Transaction { updates } => OperationModel::Transaction {
                updates: update_models(updates@),
            },
            StoreOperation::Clear { min_key } => OperationModel::Clear { min_key },
            StoreOperation::Prepare { length } => OperationModel::Prepare { length },
        }
    }
}

/// How a sequence of storage operations gets interrupted.
#[derive(Debug)]
pub enum StoreInterruption {
    /// No storage operation gets interrupted.
    Never,
    /// An interruption is planned.
    Planned {
        /// The number of storage operations that are performed before.
        delay: usize,
        /// For each bit that the interrupted storage operation modifies, whether it is modified
        /// nevertheless. The last bit is for the first modified one.
        complete_bits: BitStack,
        /// Whether there is a storage operation left to interrupt after the delay.
        interrupts: bool,
    },
}

/// Model of [`StoreInterruption`].
pub enum InterruptionModel {
    /// No storage operation gets interrupted.
    Never,
    /// An interruption is planned.
    Planned { delay: usize, complete_bits: Seq<bool>, interrupts: bool },
}

impl View for StoreInterruption {
    type V = InterruptionModel;

    open spec fn view(&self) -> InterruptionModel {
        match *self {
            StoreInterruption::Never => InterruptionModel::Never,
            StoreInterruption::Planned {
                delay,
                complete_bits,
                interrupts,
            } => InterruptionModel::Planned { delay, complete_bits: complete_bits@, interrupts },
        }
    }
}

impl StoreInterruption {
    /// The bits of the interruption are well-formed.
    pub open spec fn wf(&self) -> bool {
        match *self {
            StoreInterruption::Never => true,
            StoreInterruption::Planned { complete_bits, .. } => complete_bits.wf(),
        }
    }
}

/// What became of the last step of a fuzzing run.
#[derive(Clone, Copy, Debug, PartialEq, Eq, Structural)]
pub enum Outcome {
    /// The store is powered off.
    PoweredOff,
    /// The store is powered on.
    PoweredOn,
    /// Powering on broke an invariant.
    PowerOnFailed,
    /// Applying an operation broke the invariant that there is lifetime left.
    LifetimeExhausted,
    /// Applying an operation broke another invariant.
    ApplyFailed,
}

/// The next step of a fuzzing run.
#[derive(Clone, Copy, Debug, PartialEq, Eq, Structural)]
pub enum Step {
    /// Power on the store, with possible interruption.
    PowerOn,
    /// Generate and apply an operation, with possible interruption.
    Apply,
    /// Power on the store without interruption if it is off, and finish with its lifetime.
    Finish,
    /// End the run without looking at the store.
    Stop,
    /// Report the broken invariant and terminate.
    Crash,
}

/// The model of an initial storage holds its options, its number of pages and its cycles as they
/// are, and its bytes in order.
pub proof fn law_setup_model(
    options: BufferOptions,
    storage: Vec<u8>,
    cycle: usize,
    num_pages: usize,
)
    ensures
        (StoreSetup::Dirty { options, storage })@ == (SetupModel::Dirty {
            options,
            storage: storage@,
        }),
        (StoreSetup::Used { options, storage, cycle })@ == (SetupModel::Used {
            options,
            storage: storage@,
            cycle,
        }),
        (StoreSetup::Clean { options, num_pages })@ == (SetupModel::Clean { options, num_pages }),
{
}

/// The model of an update holds its key as it is, and the bytes of its value in order.
pub proof fn law_update_model(key: usize, value: Vec<u8>)
    ensures
        (StoreUpdate::Insert { key, value })@ == (UpdateModel::Insert { key, value: value@ }),
        (StoreUpdate::Remove { key })@ == (UpdateModel::Remove { key }),
{
}

/// The model of an operation holds the models of its updates in order, and its key and its length
/// as they are.
pub proof fn law_operation_model(updates: Vec<StoreUpdate>, min_key: usize, length: usize)
    ensures
        (StoreOperation::Transaction { updates })@ matches OperationModel::Transaction {
            updates: models,
        } && models.len() == updates@.len() && forall|i: int|
            0 <= i < models.len() ==> #[trigger] models[i] == updates@[i]@,
        (StoreOperation::Clear { min_key })@ == (OperationModel::Clear { min_key }),
        (StoreOperation::Prepare { length })@ == (OperationModel::Prepare { length }),
{
}

/// The model of an interruption holds its delay as it is, its bits from the bottom of the stack to
/// the top, and whether it hits a storage operation.
pub proof fn law_interruption_model(delay: usize, complete_bits: BitStack, interrupts: bool)
    ensures
        StoreInterruption::Never@ == InterruptionModel::Never,
        (StoreInterruption::Planned { delay, complete_bits, interrupts })@ == (
        InterruptionModel::Planned { delay, complete_bits: complete_bits@, interrupts }),
{
}

} // verus!
