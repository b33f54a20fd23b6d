//! Group keys for hash aggregation.
//!
//! A group key is a deterministic, order-independent encoding of the values
//! of the grouping columns for one row: two rows with equal grouping values
//! encode to identical keys, two rows that differ anywhere encode to
//! different keys. Two strategies exist, picked at executor-build time from
//! the grouping column types: a fixed-width packed word for exactly two
//! 32-bit columns, and a serialized value sequence for every other shape.

use vstd::prelude::*;
use crate::chunk::{in_i32_range, DataChunk};
use crate::semantics::row_select;

verus! {

/// Which key strategy an executor uses.
#[derive(Clone, Copy, Debug, PartialEq, Eq, Structural)]
pub enum KeyKind {
    /// Two 32-bit values packed into one 64-bit word.
    Packed,
    /// The grouping values themselves, in grouping order.
    Serialized,
}

/// One group key, under one of the two strategies.
pub enum HashKey {
    Packed(u64),
    Serialized(Vec<i64>),
}

/// The strategy a key was built under.
pub open spec fn key_kind_of(k: HashKey) -> KeyKind {
    match k {
        HashKey::Packed(_) => KeyKind::Packed,
        HashKey::Serialized(_) => KeyKind::Serialized,
    }
}

/// The high half of a packed word, as the signed value it encodes.
pub open spec fn unpack_hi(w: u64) -> i64 {
    ((w >> 32) as u32) as i32 as i64
}

/// The low half of a packed word, as the signed value it encodes.
pub open spec fn unpack_lo(w: u64) -> i64 {
    (w as u32) as i32 as i64
}

/// Two 32-bit-ranged values packed into one word.
pub open spec fn pack2(a: i64, b: i64) -> u64 {
    (((a as i32 as u32) as u64) << 32) | ((b as i32 as u32) as u64)
}

/// The grouping values a key encodes.
pub open spec fn key_decode(k: HashKey) -> Seq<i64> {
    match k {
        HashKey::Packed(w) => seq![unpack_hi(w), unpack_lo(w)],
        HashKey::Serialized(v) => v@,
    }
}

/// Packing two 32-bit-ranged values loses nothing: both unpack unchanged.
pub proof fn lemma_pack2_roundtrip(a: i64, b: i64)
    requires
        in_i32_range(a),
        in_i32_range(b),
    ensures
        unpack_hi(pack2(a, b)) == a,
        unpack_lo(pack2(a, b)) == b,
{
    assert(((((a as i32 as u32) as u64) << 32 | ((b as i32 as u32) as u64)) >> 32) as u32 == a
        as i32 as u32) by (bit_vector);
    assert(((((a as i32 as u32) as u64) << 32 | ((b as i32 as u32) as u64))) as u32 == b as i32
        as u32) by (bit_vector);
    assert(a as i32 as u32 as i32 == a as i32) by (bit_vector);
    assert(b as i32 as u32 as i32 == b as i32) by (bit_vector);
    assert(a as i32 == a);
    assert(b as i32 == b);
}

/// A packed word is determined by the two values it unpacks to.
pub proof fn lemma_packed_injective(x: u64, y: u64)
    requires
        unpack_hi(x) == unpack_hi(y),
        unpack_lo(x) == unpack_lo(y),
    ensures
        x == y,
{
    assert((x >> 32) as u32 as i32 == (y >> 32) as u32 as i32 && x as u32 as i32 == y as u32
        as i32 ==> x == y) by (bit_vector);
}

impl HashKey {
    /// Build the key of one row from the configured grouping columns.
    ///
    /// The packed strategy may only be chosen for exactly two columns whose
    /// cells lie in the 32-bit range, which the executor guarantees by
    /// picking it for two `Int32` columns of a well-formed batch.
    pub fn build(
        kind: KeyKind,
        chunk: &DataChunk,
        row_id: usize,
        group_cols: &Vec<usize>,
    ) -> (r: HashKey)
        requires
            chunk.wf(),
            row_id < chunk.cardinality,
            forall|i: int| 0 <= i < group_cols@.len() ==> #[trigger] group_cols@[i]
                < chunk.columns@.len(),
            kind == KeyKind::Packed ==> group_cols@.len() == 2 && in_i32_range(
                chunk.spec_rows()[row_id as int][group_cols@[0] as int],
            ) && in_i32_range(chunk.spec_rows()[row_id as int][group_cols@[1] as int]),
        ensures
            key_kind_of(r) == kind,
            key_decode(r) == row_select(chunk.spec_rows()[row_id as int], group_cols@),
    {
        let ghost row = chunk.spec_rows()[row_id as int];
        match kind {
            KeyKind::Packed => {
                let a = chunk.value_at(row_id, group_cols[0]);
                let b = chunk.value_at(row_id, group_cols[1]);
                let w: u64 = (((a as i32 as u32) as u64) << 32u64) | ((b as i32 as u32) as u64);
                proof {
                    assert(w == pack2(a, b));
                    lemma_pack2_roundtrip(a, b);
                    assert(key_decode(HashKey::Packed(w)) =~= row_select(row, group_cols@));
                }
                HashKey::Packed(w)
            },
            KeyKind::Serialized => {
                let n = group_cols.len();
                let mut values: Vec<i64> = Vec::new();
                let mut i: usize = 0;
                while i < n
                    invariant
                        n == group_cols@.len(),
                        i <= n,
                        chunk.wf(),
                        row_id < chunk.cardinality,
                        forall|k: int| 0 <= k < n ==> #[trigger] group_cols@[k]
                            < chunk.columns@.len(),
                        row == chunk.spec_rows()[row_id as int],
                        values@.len() == i,
                        forall|k: int| 0 <= k < i ==> #[trigger] values@[k] == row[group_cols@[
                            k
                        ] as int],
                    decreases n - i,
                {
                    values.push(chunk.value_at(row_id, group_cols[i]));
                    i += 1;
                }
                proof {
                    assert(values@ =~= row_select(row, group_cols@));
                }
                HashKey::Serialized(values)
            },
        }
    }

    /// Whether two keys of one strategy encode the same grouping values.
    pub fn key_eq(&self, other: &HashKey) -> (r: bool)
        requires
            key_kind_of(*self) == key_kind_of(*other),
        ensures
            r == (key_decode(*self) == key_decode(*other)),
    {
        match (self, other) {
            (HashKey::Packed(x), HashKey::Packed(y)) => {
                proof {
                    if key_decode(*self) == key_decode(*other) {
                        assert(unpack_hi(*x) == key_decode(*self)[0]);
                        assert(unpack_lo(*x) == key_decode(*self)[1]);
                        lemma_packed_injective(*x, *y);
                    }
                    if *x == *y {
                        assert(key_decode(*self) =~= key_decode(*other));
                    }
                }
                x == y
            },
            (HashKey::Serialized(v), HashKey::Serialized(w)) => {
                let n = v.len();
                if w.len() != n {
                    proof {
                        assert(key_decode(*self) != key_decode(*other));
                    }
                    return false;
                }
                let mut i: usize = 0;
                while i < n
                    invariant
                        n == v@.len(),
                        n == w@.len(),
                        i <= n,
                        key_decode(*self) == v@,
                        key_decode(*other) == w@,
                        forall|k: int| 0 <= k < i ==> #[trigger] v@[k] == w@[k],
                    decreases n - i,
                {
                    if v[i] != w[i] {
                        proof {
                            assert(v@[i as int] != w@[i as int]);
                        }
                        return false;
                    }
                    i += 1;
                }
                proof {
                    assert(v@ =~= w@);
                }
                true
            },
            _ => {
                proof {
                    assert(false);
                }
                false
            },
        }
    }

    /// The number of grouping values this key encodes.
    pub fn width(&self) -> (r: usize)
        ensures
            r == key_decode(*self).len(),
    {
        match self {
            HashKey::Packed(_) => 2,
            HashKey::Serialized(v) => v.len(),
        }
    }

    /// Decode one grouping value back out of the key.
    pub fn decode_cell(&self, j: usize) -> (r: i64)
        requires
            j < key_decode(*self).len(),
        ensures
            r == key_decode(*self)[j as int],
    {
        match self {
            HashKey::Packed(w) => {
                if j == 0 {
                    ((*w >> 32u64) as u32) as i32 as i64
                } else {
                    (*w as u32) as i32 as i64
                }
            },
            HashKey::Serialized(v) => v[j],
        }
    }
}

} // verus!
