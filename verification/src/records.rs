//! Fixed-size test records for the file-copy exercise.
use vstd::prelude::*;

verus! {

/// Bytes in one record.
pub const RECORD_SIZE: usize = 10;

/// Records cycle through byte values modulo this prime.
pub const RECORD_MODULUS: usize = 251;

/// The `i`-th byte of record number `index`.
pub open spec fn record_byte(index: int, i: int) -> u8 {
    ((index + i) % (RECORD_MODULUS as int)) as u8
}

/// Builds record number `index`: byte `i` is `(index + i) % 251`.
pub fn make_record(index: usize) -> (record: [u8; RECORD_SIZE])
    requires
        index + RECORD_SIZE - 1 <= usize::MAX,
    ensures
        forall|i: int| 0 <= i < RECORD_SIZE ==> #[trigger] record[i] == record_byte(index as int, i),
{
    let mut record = [0u8; RECORD_SIZE];
    let mut i: usize = 0;
    while i < RECORD_SIZE
        invariant
            i <= RECORD_SIZE,
            index + RECORD_SIZE - 1 <= usize::MAX,
            forall|j: int| 0 <= j < i ==> #[trigger] record[j] == record_byte(index as int, j),
        decreases RECORD_SIZE - i,
    {
        record[i] = ((index + i) % RECORD_MODULUS) as u8;
        i = i + 1;
    }
    record
}

/// Within a record each byte is one more than the one before, modulo 251;
/// record `index + 1` is record `index` shifted by one byte; and records 251
/// apart are equal.
pub proof fn lemma_record_structure(index: int, i: int)
    requires
        0 <= index,
        0 <= i,
    ensures
        record_byte(index, i + 1) == (record_byte(index, i) + 1) % (RECORD_MODULUS as int),
        record_byte(index + 1, i) == record_byte(index, i + 1),
        record_byte(index + RECORD_MODULUS as int, i) == record_byte(index, i),
        record_byte(index, i) < RECORD_MODULUS,
{
    let m = RECORD_MODULUS as int;
    assert((index + i + 1) % m == ((index + i) % m + 1) % m) by {
        vstd::arithmetic::div_mod::lemma_add_mod_noop(index + i, 1, m);
    }
    assert((index + m + i) % m == (index + i) % m) by {
        vstd::arithmetic::div_mod::lemma_mod_add_multiples_vanish(index + i, m);
    }
}

} // verus!
