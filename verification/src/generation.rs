//! What is generated from what is read.
//!
//! Each law takes what is read from the entropy as it stands in `reading`, and says what is
//! generated from it and which state that leaves.

use crate::entropy::{bits_of, entropy_after, entropy_bytes};
use crate::fuzzer::{
    drawn_inserts, lemma_inserts_are_drawn, lemma_updates_are_counted, FuzzerModel,
};
use crate::generator::{generated_bytes, seeded_generator};
use crate::init::Init;
use crate::reading::{
    law_bits_of_bytes, law_bytes, law_reads, lemma_byte_digits_determine, reads,
};
use crate::stats::StatKey;
use crate::store::{
    BufferOptions, InterruptionModel, OperationModel, SetupModel, StoreLimits, UpdateModel,
};
use rand_pcg::Pcg32;
use vstd::arithmetic::power2::{lemma2_to64, pow2};
use vstd::prelude::*;

verus! {

/// A new run takes the first 16 bytes of the data themselves as the seed of the generator of
/// values, padded with zeros if there are fewer, and the bits of the other bytes as entropy. It
/// starts in clean mode. When statistics are gathered, the size of the data is recorded, and the
/// counters are zero.
pub proof fn law_start(data: Seq<u8>, stats: Option<Seq<(StatKey, usize)>>)
    requires
        data.len() <= usize::MAX,
    ensures
        FuzzerModel::start(data, stats).values == seeded_generator(
            Seq::new(
                16,
                |i: int|
                    if i < data.len() {
                        data[i]
                    } else {
                        0u8
                    },
            ),
        ),
        data.len() >= 16 ==> FuzzerModel::start(data, stats).values == seeded_generator(
            data.take(16),
        ),
        FuzzerModel::start(data, stats).entropy.len() == (if data.len() >= 16 {
            8 * (data.len() - 16)
        } else {
            0
        }),
        forall|i: int|
            0 <= i < 8 * (data.len() - 16) ==> #[trigger] FuzzerModel::start(
                data,
                stats,
            ).entropy[i] == ((data[16 + i / 8] as nat / pow2((i % 8) as nat)) % 2 == 1),
        FuzzerModel::start(data, stats).init == Init::Clean,
        FuzzerModel::start(data, stats).stats == (match stats {
            Some(stats) => Some(stats.push((StatKey::Entropy, data.len() as usize))),
            None => None,
        }),
        forall|key: StatKey| #[trigger]
            FuzzerModel::start(data, stats).counters.contains_key(key) <==> stats is Some && (key
                == StatKey::PowerOnCount || key == StatKey::TransactionCount || key
                == StatKey::ClearCount || key == StatKey::PrepareCount || key
                == StatKey::InsertCount || key == StatKey::RemoveCount || key
                == StatKey::InterruptionCount),
        forall|key: StatKey|
            FuzzerModel::start(data, stats).counters.contains_key(key)
                ==> #[trigger] FuzzerModel::start(data, stats).counters[key] == 0,
{
    let start = FuzzerModel::start(data, stats);
    let bits = bits_of(data);
    let read = entropy_bytes(bits, 16);
    let seed = Seq::new(
        16,
        |i: int|
            if i < data.len() {
                data[i]
            } else {
                0u8
            },
    );
    assert forall|i: int| 0 <= i < 16 implies read[i] == seed[i] by {
        assert forall|j: nat| j < 8 implies ((read[i] as nat / #[trigger] pow2(j)) % 2 == 1) == ((
        seed[i] as nat / pow2(j)) % 2 == 1) by {
            law_bytes(bits, 16, i, j);
            if i < data.len() {
                law_bits_of_bytes(data, 8 * i + j);
                assert((8 * i + j) / 8 == i && (8 * i + j) % 8 == j);
            } else {
                vstd::arithmetic::power2::lemma_pow2_pos(j);
                vstd::arithmetic::div_mod::lemma_basic_div(0, pow2(j) as int);
            }
        }
        lemma_byte_digits_determine(read[i], seed[i]);
    }
    assert(read =~= seed);
    if data.len() >= 16 {
        assert(seed =~= data.take(16));
    }
    assert forall|i: int| 0 <= i < 8 * (data.len() - 16) implies #[trigger] start.entropy[i] == ((
    data[16 + i / 8] as nat / pow2((i % 8) as nat)) % 2 == 1) by {
        law_bits_of_bytes(data, 128 + i);
        assert((128 + i) / 8 == 16 + i / 8 && (128 + i) % 8 == i % 8);
    }
}

/// An observation is added at the end of the statistics, if they are gathered.
pub proof fn law_record(fuzzer: FuzzerModel, key: StatKey, value: usize)
    ensures
        fuzzer.recorded(key, value) == (FuzzerModel {
            stats: match fuzzer.stats {
                Some(stats) => Some(stats.push((key, value))),
                None => None,
            },
            ..fuzzer
        }),
{
}

/// The counter is increased by one, if statistics are gathered, and nothing else changes.
pub proof fn law_increment(fuzzer: FuzzerModel, key: StatKey)
    ensures
        fuzzer.stats is Some ==> fuzzer.incremented(key) == (FuzzerModel {
            counters: fuzzer.counters.insert(key, fuzzer.counters[key] + 1),
            ..fuzzer
        }),
        fuzzer.stats is None ==> fuzzer.incremented(key) == fuzzer,
{
}

/// A key is a number read between 0 and 4096.
pub proof fn law_key(fuzzer: FuzzerModel, key: usize, rest: Seq<bool>)
    requires
        reads(fuzzer.entropy, 0, 4096, key as int, rest),
    ensures
        fuzzer.key() == key,
        fuzzer.after_key() == (FuzzerModel { entropy: rest, ..fuzzer }),
{
    law_reads(fuzzer.entropy, 0, 4096, key as int, rest);
}

/// The length of a value is a number read between 0 and 1024, and its content is what the generator
/// gives for that length.
pub proof fn law_value(fuzzer: FuzzerModel, length: usize, rest: Seq<bool>)
    requires
        reads(fuzzer.entropy, 0, 1024, length as int, rest),
    ensures
        fuzzer.value() == generated_bytes(fuzzer.values, length as nat).1,
        fuzzer.after_value() == (FuzzerModel {
            entropy: rest,
            values: generated_bytes(fuzzer.values, length as nat).0,
            ..fuzzer
        }),
{
    law_reads(fuzzer.entropy, 0, 1024, length as int, rest);
}

/// What is read for an update.
pub struct UpdateDraw {
    /// Whether the update is an insert.
    pub insert: bool,
    /// The key.
    pub key: usize,
    /// The length of the value of an insert.
    pub length: usize,
    /// The entropy before the key.
    pub chosen: Seq<bool>,
    /// The entropy after the key.
    pub keyed: Seq<bool>,
}

/// Whether reading an update from `bits` gives `draw` and leaves `rest`: a zero, a key and the
/// length of a value for an insert, and a one and a key for a remove.
pub open spec fn reads_update(bits: Seq<bool>, draw: UpdateDraw, rest: Seq<bool>) -> bool {
    &&& draw.insert ==> reads(bits, 0, 1, 0, draw.chosen)
    &&& !draw.insert ==> reads(bits, 0, 1, 1, draw.chosen)
    &&& reads(draw.chosen, 0, 4096, draw.key as int, draw.keyed)
    &&& draw.insert ==> reads(draw.keyed, 0, 1024, draw.length as int, rest)
    &&& !draw.insert ==> rest == draw.keyed
}

/// An insert is a zero, a key, and a value. A remove is a one and a key. Each is counted if
/// statistics are gathered.
pub proof fn law_update(
    fuzzer: FuzzerModel,
    insert: bool,
    key: usize,
    length: usize,
    chosen: Seq<bool>,
    keyed: Seq<bool>,
    rest: Seq<bool>,
)
    requires
        insert ==> reads(fuzzer.entropy, 0, 1, 0, chosen),
        !insert ==> reads(fuzzer.entropy, 0, 1, 1, chosen),
        reads(chosen, 0, 4096, key as int, keyed),
        insert ==> reads(keyed, 0, 1024, length as int, rest),
        !insert ==> rest == keyed,
    ensures
        insert ==> fuzzer.update() == (UpdateModel::Insert {
            key,
            value: generated_bytes(fuzzer.values, length as nat).1,
        }),
        !insert ==> fuzzer.update() == (UpdateModel::Remove { key }),
        fuzzer.after_update() == (FuzzerModel {
            entropy: rest,
            values: if insert {
                generated_bytes(fuzzer.values, length as nat).0
            } else {
                fuzzer.values
            },
            counters: if fuzzer.stats is None {
                fuzzer.counters
            } else if insert {
                fuzzer.counters.insert(
                    StatKey::InsertCount,
                    fuzzer.counters[StatKey::InsertCount] + 1,
                )
            } else {
                fuzzer.counters.insert(
                    StatKey::RemoveCount,
                    fuzzer.counters[StatKey::RemoveCount] + 1,
                )
            },
            ..fuzzer
        }),
        fuzzer.update_counter() == (if insert {
            StatKey::InsertCount
        } else {
            StatKey::RemoveCount
        }),
        reads_update(fuzzer.entropy, UpdateDraw { insert, key, length, chosen, keyed }, rest),
{
    law_reads(fuzzer.entropy, 0, 1, 0, chosen);
    law_reads(fuzzer.entropy, 0, 1, 1, chosen);
    law_reads(chosen, 0, 4096, key as int, keyed);
    law_reads(keyed, 0, 1024, length as int, rest);
}

/// The state before update `i` of a transaction, and the number of inserts before it.
proof fn lemma_draws(
    fuzzer: FuzzerModel,
    draws: Seq<UpdateDraw>,
    streams: Seq<Seq<bool>>,
    generators: Seq<Pcg32>,
    i: int,
)
    requires
        0 <= i <= draws.len(),
        streams.len() == draws.len() + 1,
        generators.len() == draws.len() + 1,
        streams[0] == fuzzer.entropy,
        generators[0] == fuzzer.values,
        forall|k: int|
            0 <= k < draws.len() ==> #[trigger] reads_update(streams[k], draws[k], streams[k + 1]),
        forall|k: int|
            0 <= k < draws.len() ==> generators[k + 1] == (if (#[trigger] draws[k]).insert {
                generated_bytes(generators[k], draws[k].length as nat).0
            } else {
                generators[k]
            }),
    ensures
        fuzzer.after_updates(i as nat).entropy == streams[i],
        fuzzer.after_updates(i as nat).values == generators[i],
        drawn_inserts(fuzzer.entropy, i as nat) == draws.take(i).filter(
            |draw: UpdateDraw| draw.insert,
        ).len(),
    decreases i,
{
    let inserts = |draw: UpdateDraw| draw.insert;
    reveal(Seq::filter);
    if i > 0 {
        lemma_draws(fuzzer, draws, streams, generators, i - 1);
        let before = fuzzer.after_updates((i - 1) as nat);
        let draw = draws[i - 1];
        lemma_inserts_are_drawn(fuzzer, (i - 1) as nat);
        assert(reads_update(streams[i - 1], draws[i - 1], streams[i - 1 + 1]));
        law_update(
            before,
            draw.insert,
            draw.key,
            draw.length,
            draw.chosen,
            draw.keyed,
            streams[i],
        );
        law_reads(before.entropy, 0, 1, 0, draw.chosen);
        law_reads(before.entropy, 0, 1, 1, draw.chosen);
        assert(draws.take(i).drop_last() =~= draws.take(i - 1));
        assert(draws.take(i).last() == draw);
    } else {
        assert(draws.take(0).filter(inserts).len() == 0);
    }
}

/// A transaction is a zero, the number of its updates, which is at most one past the maximum, and
/// the updates one after the other. Update `i` is the insert or the remove that is read in its
/// place, with the key that is read, and with the next bytes of the generator as value. The
/// transaction and each of its updates are counted if statistics are gathered. It can be generated
/// if and only if the counters can count it.
pub proof fn law_transaction(
    fuzzer: FuzzerModel,
    limits: StoreLimits,
    count: usize,
    chosen: Seq<bool>,
    draws: Seq<UpdateDraw>,
    streams: Seq<Seq<bool>>,
    generators: Seq<Pcg32>,
)
    requires
        fuzzer.valid(),
        reads(fuzzer.entropy, 0, 2, 0, chosen),
        reads(chosen, 0, limits.max_updates + 1, count as int, streams[0]),
        generators[0] == fuzzer.values,
        draws.len() == count,
        streams.len() == count + 1,
        generators.len() == count + 1,
        forall|i: int|
            0 <= i < count ==> #[trigger] reads_update(streams[i], draws[i], streams[i + 1]),
        forall|i: int|
            0 <= i < count ==> generators[i + 1] == (if (#[trigger] draws[i]).insert {
                generated_bytes(generators[i], draws[i].length as nat).0
            } else {
                generators[i]
            }),
    ensures
        count <= limits.max_updates + 1,
        fuzzer.operation(limits) matches OperationModel::Transaction { updates } && {
            &&& updates.len() == count
            &&& forall|i: int|
                0 <= i < count ==> #[trigger] updates[i] == (if draws[i].insert {
                    UpdateModel::Insert {
                        key: draws[i].key,
                        value: generated_bytes(generators[i], draws[i].length as nat).1,
                    }
                } else {
                    UpdateModel::Remove { key: draws[i].key }
                })
        },
        fuzzer.after_operation(limits).entropy == streams[count as int],
        fuzzer.after_operation(limits).values == generators[count as int],
        fuzzer.after_operation(limits).init == fuzzer.init,
        fuzzer.after_operation(limits).stats == fuzzer.stats,
        fuzzer.stats is None ==> fuzzer.after_operation(limits).counters == fuzzer.counters,
        fuzzer.stats is Some ==> forall|key: StatKey|
            {
                let inserts = draws.filter(|draw: UpdateDraw| draw.insert).len();
                &&& fuzzer.after_operation(limits).counters.contains_key(key)
                    == fuzzer.counters.contains_key(key)
                &&& fuzzer.counters.contains_key(key) ==> #[trigger] fuzzer.after_operation(
                    limits,
                ).counters[key] == fuzzer.counters[key] + (if key == StatKey::TransactionCount {
                    1
                } else if key == StatKey::InsertCount {
                    inserts as int
                } else if key == StatKey::RemoveCount {
                    count - inserts
                } else {
                    0
                })
            },
        fuzzer.can_operate(limits) <==> limits.max_updates < usize::MAX && (fuzzer.stats is Some
            ==> {
            let inserts = draws.filter(|draw: UpdateDraw| draw.insert).len();
            &&& fuzzer.counters[StatKey::TransactionCount] < usize::MAX
            &&& fuzzer.counters[StatKey::InsertCount] + inserts <= usize::MAX
            &&& fuzzer.counters[StatKey::RemoveCount] + count - inserts <= usize::MAX
        }),
{
    let counted = FuzzerModel { entropy: streams[0], ..fuzzer };
    let all = draws.len() as int;
    law_reads(fuzzer.entropy, 0, 2, 0, chosen);
    law_reads(chosen, 0, limits.max_updates + 1, count as int, streams[0]);
    lemma_updates_are_counted(counted, count as nat);
    lemma_inserts_are_drawn(counted, count as nat);
    assert(draws.take(all) =~= draws);
    lemma_draws(counted, draws, streams, generators, all);
    assert forall|i: int| 0 <= i < count implies #[trigger] counted.updates(count as nat)[i] == (
    if draws[i].insert {
        UpdateModel::Insert {
            key: draws[i].key,
            value: generated_bytes(generators[i], draws[i].length as nat).1,
        }
    } else {
        UpdateModel::Remove { key: draws[i].key }
    }) by {
        lemma_draws(counted, draws, streams, generators, i);
        assert(reads_update(streams[i], draws[i], streams[i + 1]));
        law_update(
            counted.after_updates(i as nat),
            draws[i].insert,
            draws[i].key,
            draws[i].length,
            draws[i].chosen,
            draws[i].keyed,
            streams[i + 1],
        );
    }
    if fuzzer.stats is Some {
        assert(fuzzer.counters.contains_key(StatKey::InsertCount));
        assert(fuzzer.counters.contains_key(StatKey::RemoveCount));
        assert(fuzzer.counters.contains_key(StatKey::TransactionCount));
    } else {
        assert(fuzzer.counters =~= Map::<StatKey, nat>::empty());
        assert(counted.after_updates(count as nat).counters =~= Map::<StatKey, nat>::empty());
    }
}

/// A clear is a one and a key, and is counted if statistics are gathered.
pub proof fn law_clear(
    fuzzer: FuzzerModel,
    limits: StoreLimits,
    min_key: usize,
    chosen: Seq<bool>,
    rest: Seq<bool>,
)
    requires
        fuzzer.valid(),
        reads(fuzzer.entropy, 0, 2, 1, chosen),
        reads(chosen, 0, 4096, min_key as int, rest),
    ensures
        fuzzer.operation(limits) == (OperationModel::Clear { min_key }),
        fuzzer.after_operation(limits) == (FuzzerModel {
            entropy: rest,
            counters: if fuzzer.stats is None {
                fuzzer.counters
            } else {
                fuzzer.counters.insert(
                    StatKey::ClearCount,
                    fuzzer.counters[StatKey::ClearCount] + 1,
                )
            },
            ..fuzzer
        }),
        fuzzer.can_operate(limits) <==> (fuzzer.stats is Some
            ==> fuzzer.counters[StatKey::ClearCount] < usize::MAX),
{
    law_reads(fuzzer.entropy, 0, 2, 1, chosen);
    law_reads(chosen, 0, 4096, min_key as int, rest);
}

/// A prepare is a two and a length, which is at most one past the total capacity. It is counted if
/// statistics are gathered.
pub proof fn law_prepare(
    fuzzer: FuzzerModel,
    limits: StoreLimits,
    length: usize,
    chosen: Seq<bool>,
    rest: Seq<bool>,
)
    requires
        fuzzer.valid(),
        reads(fuzzer.entropy, 0, 2, 2, chosen),
        reads(chosen, 0, limits.total_capacity + 1, length as int, rest),
    ensures
        fuzzer.operation(limits) == (OperationModel::Prepare { length }),
        fuzzer.after_operation(limits) == (FuzzerModel {
            entropy: rest,
            counters: if fuzzer.stats is None {
                fuzzer.counters
            } else {
                fuzzer.counters.insert(
                    StatKey::PrepareCount,
                    fuzzer.counters[StatKey::PrepareCount] + 1,
                )
            },
            ..fuzzer
        }),
        fuzzer.can_operate(limits) <==> limits.total_capacity < usize::MAX && (fuzzer.stats is Some
            ==> fuzzer.counters[StatKey::PrepareCount] < usize::MAX),
{
    law_reads(fuzzer.entropy, 0, 2, 2, chosen);
    law_reads(chosen, 0, limits.total_capacity + 1, length as int, rest);
}

/// The delay of an interruption is the number read between 0 and the last index of the delay map,
/// and the complete bits are the bits that follow, in order, as many as the entry of the map says.
/// It is counted, if statistics are gathered, unless the delay is the last index.
pub proof fn law_interruption(
    fuzzer: FuzzerModel,
    modified_bits: Seq<usize>,
    delay: usize,
    delayed: Seq<bool>,
)
    requires
        !(fuzzer.init is Dirty),
        0 < modified_bits.len(),
        reads(fuzzer.entropy, 0, modified_bits.len() - 1, delay as int, delayed),
    ensures
        delay < modified_bits.len(),
        fuzzer.interruption(Ok(modified_bits)) matches Ok(
            InterruptionModel::Planned { delay: planned, complete_bits, interrupts },
        ) && {
            &&& planned == delay
            &&& complete_bits.len() == modified_bits[delay as int]
            &&& forall|i: int|
                0 <= i < complete_bits.len() ==> #[trigger] complete_bits[i] == (i < delayed.len()
                    && delayed[i])
            &&& interrupts == (delay + 1 < modified_bits.len())
        },
        fuzzer.interrupts(Ok(modified_bits)) == (delay + 1 < modified_bits.len()),
        fuzzer.after_interruption(Ok(modified_bits)) == (FuzzerModel {
            entropy: if modified_bits[delay as int] <= delayed.len() {
                delayed.skip(modified_bits[delay as int] as int)
            } else {
                Seq::empty()
            },
            counters: if fuzzer.stats is Some && delay + 1 < modified_bits.len() {
                fuzzer.counters.insert(
                    StatKey::InterruptionCount,
                    fuzzer.counters[StatKey::InterruptionCount] + 1,
                )
            } else {
                fuzzer.counters
            },
            ..fuzzer
        }),
{
    law_reads(fuzzer.entropy, 0, modified_bits.len() - 1, delay as int, delayed);
}

/// In dirty mode nothing is interrupted, and a sequence of storage operations that breaks an
/// invariant is ignored. In another mode the delay at which it does is given back. Neither reads
/// entropy nor counts.
pub proof fn law_no_interruption(
    fuzzer: FuzzerModel,
    delay_map: Result<Seq<usize>, usize>,
    delay: usize,
)
    ensures
        fuzzer.init is Dirty ==> {
            &&& fuzzer.interruption(delay_map) == Ok::<InterruptionModel, usize>(
                InterruptionModel::Never,
            )
            &&& fuzzer.after_interruption(delay_map) == fuzzer
            &&& !fuzzer.interrupts(delay_map)
        },
        !(fuzzer.init is Dirty) ==> {
            &&& fuzzer.interruption(Err(delay)) == Err::<InterruptionModel, usize>(delay)
            &&& fuzzer.after_interruption(Err(delay)) == fuzzer
            &&& !fuzzer.interrupts(Err(delay))
        },
{
}

/// The geometry of the initial storage is read first: the exponent of the page size between 5 and
/// 12, the number of erase cycles between 0 and 50000, and the number of pages between 3 and 64.
pub proof fn law_geometry(
    fuzzer: FuzzerModel,
    exponent: nat,
    erases: usize,
    num_pages: usize,
    sized: Seq<bool>,
    aged: Seq<bool>,
    paged: Seq<bool>,
)
    requires
        reads(fuzzer.entropy, 5, 12, exponent as int, sized),
        reads(sized, 0, 50000, erases as int, aged),
        reads(aged, 3, 64, num_pages as int, paged),
    ensures
        5 <= exponent <= 12,
        32 <= pow2(exponent) <= 4096,
        3 <= num_pages <= 64,
        erases <= 50000,
        0 < num_pages * pow2(exponent) <= 64 * 4096,
        fuzzer.options() == (BufferOptions {
            word_size: 4,
            page_size: pow2(exponent) as usize,
            max_word_writes: 2,
            max_page_erases: erases,
            strict_write: true,
        }),
        fuzzer.num_pages() == num_pages,
        fuzzer.storage_size() == num_pages * pow2(exponent),
        fuzzer.after_geometry() == (FuzzerModel {
            entropy: paged,
            stats: match fuzzer.stats {
                Some(stats) => Some(
                    stats.push((StatKey::PageSize, pow2(exponent) as usize)).push(
                        (StatKey::MaxPageErases, erases),
                    ).push((StatKey::NumPages, num_pages)),
                ),
                None => None,
            },
            ..fuzzer
        }),
{
    lemma2_to64();
    law_reads(fuzzer.entropy, 5, 12, exponent as int, sized);
    law_reads(sized, 0, 50000, erases as int, aged);
    law_reads(aged, 3, 64, num_pages as int, paged);
    let page_size: nat = pow2(exponent);
    assert(0 < num_pages * page_size <= 64 * 4096) by (nonlinear_arith)
        requires
            0 < num_pages <= 64,
            0 < page_size <= 4096,
    ;
}

/// A set bit after the geometry makes the initial storage dirty. The number of dirty bytes is read
/// between 0 and the size of the storage, and then the bytes: bit `j` of byte `i` is the bit
/// `8 * i + j` of what follows. The other bytes are erased. Writes are not strict.
pub proof fn law_dirty_setup(
    fuzzer: FuzzerModel,
    exponent: nat,
    erases: usize,
    num_pages: usize,
    length: usize,
    sized: Seq<bool>,
    aged: Seq<bool>,
    paged: Seq<bool>,
    content: Seq<bool>,
)
    requires
        reads(fuzzer.entropy, 5, 12, exponent as int, sized),
        reads(sized, 0, 50000, erases as int, aged),
        reads(aged, 3, 64, num_pages as int, paged),
        paged.len() > 0 && paged[0],
        reads(paged.skip(1), 0, num_pages * pow2(exponent), length as int, content),
    ensures
        length <= num_pages * pow2(exponent),
        fuzzer.setup() matches SetupModel::Dirty { options, storage } && {
            &&& options == BufferOptions {
                word_size: 4,
                page_size: pow2(exponent) as usize,
                max_word_writes: 2,
                max_page_erases: erases,
                strict_write: false,
            }
            &&& storage.len() == num_pages * pow2(exponent)
            &&& forall|i: int, j: nat|
                #![trigger storage[i], pow2(j)]
                0 <= i < length && j < 8 ==> ((storage[i] as nat / pow2(j)) % 2 == 1) == (8 * i + j
                    < content.len() && content[8 * i + j])
            &&& forall|i: int| length <= i < storage.len() ==> #[trigger] storage[i] == 0xff
        },
        fuzzer.after_setup() == (FuzzerModel {
            entropy: if 8 * length <= content.len() {
                content.skip(8 * length as int)
            } else {
                Seq::empty()
            },
            init: Init::Dirty,
            stats: match fuzzer.stats {
                Some(stats) => Some(
                    stats.push((StatKey::PageSize, pow2(exponent) as usize)).push(
                        (StatKey::MaxPageErases, erases),
                    ).push((StatKey::NumPages, num_pages)).push((StatKey::DirtyLength, length)),
                ),
                None => None,
            },
            ..fuzzer
        }),
{
    law_geometry(fuzzer, exponent, erases, num_pages, sized, aged, paged);
    law_reads(paged.skip(1), 0, num_pages * pow2(exponent), length as int, content);
    let dirty = entropy_bytes(content, length as nat);
    assert forall|i: int, j: nat|
        #![trigger dirty[i], pow2(j)]
        0 <= i < length && j < 8 implies ((dirty[i] as nat / pow2(j)) % 2 == 1) == (8 * i + j
        < content.len() && content[8 * i + j]) by {
        law_bytes(content, length as nat, i, j);
    }
    let storage = fuzzer.setup()->Dirty_storage;
    assert forall|i: int| 0 <= i < length implies #[trigger] storage[i] == dirty[i] by {}
}

/// Each content is that of the initial storage for some entropy: the one whose bits follow the
/// length of the content.
pub proof fn law_dirty_contents_are_covered(
    fuzzer: FuzzerModel,
    exponent: nat,
    erases: usize,
    num_pages: usize,
    contents: Seq<u8>,
    sized: Seq<bool>,
    aged: Seq<bool>,
    paged: Seq<bool>,
    content: Seq<bool>,
)
    requires
        reads(fuzzer.entropy, 5, 12, exponent as int, sized),
        reads(sized, 0, 50000, erases as int, aged),
        reads(aged, 3, 64, num_pages as int, paged),
        paged.len() > 0 && paged[0],
        contents.len() == num_pages * pow2(exponent),
        reads(paged.skip(1), 0, contents.len() as int, contents.len() as int, content),
        content.len() >= 8 * contents.len(),
        forall|pos: int|
            0 <= pos < 8 * contents.len() ==> #[trigger] content[pos] == ((contents[pos / 8] as nat
                / pow2((pos % 8) as nat)) % 2 == 1),
    ensures
        fuzzer.setup() matches SetupModel::Dirty { storage, .. } && storage == contents,
{
    law_geometry(fuzzer, exponent, erases, num_pages, sized, aged, paged);
    law_dirty_setup(
        fuzzer,
        exponent,
        erases,
        num_pages,
        contents.len() as usize,
        sized,
        aged,
        paged,
        content,
    );
    let storage = fuzzer.setup()->Dirty_storage;
    assert forall|i: int| 0 <= i < contents.len() implies storage[i] == contents[i] by {
        assert forall|j: nat| j < 8 implies ((storage[i] as nat / #[trigger] pow2(j)) % 2 == 1) == (
        (contents[i] as nat / pow2(j)) % 2 == 1) by {
            let pos: int = 8 * i + j;
            assert(pos / 8 == i && pos % 8 == j);
            assert(content[pos] == ((contents[pos / 8] as nat / pow2((pos % 8) as nat)) % 2 == 1));
        }
        lemma_byte_digits_determine(storage[i], contents[i]);
    }
    assert(storage =~= contents);
}

/// A clear bit and a set bit after the geometry make the initial storage a used one. The number of
/// used cycles is read between 0 and the number of erase cycles. The storage is erased.
pub proof fn law_used_setup(
    fuzzer: FuzzerModel,
    exponent: nat,
    erases: usize,
    num_pages: usize,
    cycle: usize,
    sized: Seq<bool>,
    aged: Seq<bool>,
    paged: Seq<bool>,
    rest: Seq<bool>,
)
    requires
        reads(fuzzer.entropy, 5, 12, exponent as int, sized),
        reads(sized, 0, 50000, erases as int, aged),
        reads(aged, 3, 64, num_pages as int, paged),
        paged.len() > 1 && !paged[0] && paged[1],
        reads(paged.skip(2), 0, erases as int, cycle as int, rest),
    ensures
        cycle <= erases,
        fuzzer.setup() matches SetupModel::Used { options, storage, cycle: used } && {
            &&& options == BufferOptions {
                word_size: 4,
                page_size: pow2(exponent) as usize,
                max_word_writes: 2,
                max_page_erases: erases,
                strict_write: true,
            }
            &&& storage.len() == num_pages * pow2(exponent)
            &&& forall|i: int| 0 <= i < storage.len() ==> #[trigger] storage[i] == 0xff
            &&& used == cycle
        },
        fuzzer.after_setup() == (FuzzerModel {
            entropy: rest,
            init: Init::Used { cycle },
            stats: match fuzzer.stats {
                Some(stats) => Some(
                    stats.push((StatKey::PageSize, pow2(exponent) as usize)).push(
                        (StatKey::MaxPageErases, erases),
                    ).push((StatKey::NumPages, num_pages)).push((StatKey::InitCycles, cycle)),
                ),
                None => None,
            },
            ..fuzzer
        }),
{
    law_geometry(fuzzer, exponent, erases, num_pages, sized, aged, paged);
    assert(paged.skip(1).skip(1) =~= paged.skip(2));
    law_reads(paged.skip(2), 0, erases as int, cycle as int, rest);
}

/// Two bits after the geometry that are not set make the initial storage a clean one. Bits past the
/// end of the entropy are not set.
pub proof fn law_clean_setup(
    fuzzer: FuzzerModel,
    exponent: nat,
    erases: usize,
    num_pages: usize,
    sized: Seq<bool>,
    aged: Seq<bool>,
    paged: Seq<bool>,
)
    requires
        reads(fuzzer.entropy, 5, 12, exponent as int, sized),
        reads(sized, 0, 50000, erases as int, aged),
        reads(aged, 3, 64, num_pages as int, paged),
        !(paged.len() > 0 && paged[0]),
        !(paged.len() > 1 && paged[1]),
    ensures
        fuzzer.setup() == (SetupModel::Clean {
            options: BufferOptions {
                word_size: 4,
                page_size: pow2(exponent) as usize,
                max_word_writes: 2,
                max_page_erases: erases,
                strict_write: true,
            },
            num_pages,
        }),
        fuzzer.after_setup() == (FuzzerModel {
            entropy: if paged.len() >= 2 {
                paged.skip(2)
            } else {
                Seq::empty()
            },
            stats: match fuzzer.stats {
                Some(stats) => Some(
                    stats.push((StatKey::PageSize, pow2(exponent) as usize)).push(
                        (StatKey::MaxPageErases, erases),
                    ).push((StatKey::NumPages, num_pages)),
                ),
                None => None,
            },
            ..fuzzer
        }),
{
    law_geometry(fuzzer, exponent, erases, num_pages, sized, aged, paged);
    let rest = entropy_after(entropy_after(paged, 1), 1);
    assert(rest =~= if paged.len() >= 2 {
        paged.skip(2)
    } else {
        Seq::empty()
    });
}

} // verus!
