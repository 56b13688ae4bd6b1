# fuzz_store

Generation of store manipulations from fuzzing entropy, verified with Verus.

A fuzzing run turns a byte slice into a sequence of manipulations of a persistent store: the initial
storage, the operations, and the interruptions of storage operations. The library in `src/` generates
the manipulations and decides how the run goes on. The crate in `app/` performs them on a store.

- `entropy`: the bits of the byte slice, and the numbers read from them
- `generator`: the pseudo-random generator of the values of entries
- `bit_stack`, `bits`, `decimal`: a compact stack of bits, and its text
- `corruption`: what an interrupted storage operation leaves
- `init`, `store`: the fuzzing mode, and the manipulations as plain values
- `stats`: observations and counters
- `fuzzer`: the fuzzing state
- `laws`: what holds of fuzzing runs as a whole

The contracts of the fuzzing state speak of `FuzzerModel`, which holds the remaining entropy as a
sequence of bits. The generator is that of the `rand_pcg` crate. Its results are named, not defined.
