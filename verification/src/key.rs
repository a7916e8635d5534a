//! Keys, key ranges, LSNs and the identifiers of tenants and timelines.
use crate::be_bytes::{be32, get_u32, lemma_be32_u32_at, lemma_u32_at_be32, put_u32, u32_at};
use vstd::prelude::*;

verus! {

/// Number of bytes that a key takes in a file.
pub const KEY_SIZE: usize = 18;

/// A key of the store. Keys are ordered by their fields, the first field
/// first, which is the order of the eighteen bytes that hold a key in a
/// file.
#[derive(Debug, Clone, Copy, PartialEq, Eq, Structural)]
pub struct Key {
    pub field1: u8,
    pub field2: u32,
    pub field3: u32,
    pub field4: u32,
    pub field5: u8,
    pub field6: u32,
}

/// A logical sequence number: a point in the write history.
#[derive(Debug, Clone, Copy, PartialEq, Eq, Structural)]
pub struct Lsn(pub u64);

/// Identifier of a tenant: sixteen bytes, held as one number.
#[derive(Debug, Clone, Copy, PartialEq, Eq, Structural)]
pub struct TenantId(pub u128);

/// Identifier of a timeline: sixteen bytes, held as one number.
#[derive(Debug, Clone, Copy, PartialEq, Eq, Structural)]
pub struct TimelineId(pub u128);

impl Key {
    /// The key as a number, by which keys are ordered: the fields as the
    /// digits of one number, the first field the most significant.
    pub open spec fn value(self) -> int {
        ((((self.field1 as int * 0x1_0000_0000 + self.field2 as int) * 0x1_0000_0000
            + self.field3 as int) * 0x1_0000_0000 + self.field4 as int) * 0x100
            + self.field5 as int) * 0x1_0000_0000 + self.field6 as int
    }

    /// The eighteen bytes of the key as a file holds them.
    pub open spec fn bytes(self) -> Seq<u8> {
        seq![self.field1] + be32(self.field2) + be32(self.field3) + be32(self.field4)
            + seq![self.field5] + be32(self.field6)
    }

    /// The key that the eighteen bytes of `s` from `at` on spell.
    pub open spec fn at(s: Seq<u8>, at: int) -> Key {
        Key {
            field1: s[at],
            field2: u32_at(s, at + 1),
            field3: u32_at(s, at + 5),
            field4: u32_at(s, at + 9),
            field5: s[at + 13],
            field6: u32_at(s, at + 14),
        }
    }

    /// Whether `self` is ordered before `other`.
    pub fn lt(&self, other: &Key) -> (r: bool)
        ensures
            r == (self.value() < other.value()),
    {
        if self.field1 != other.field1 {
            self.field1 < other.field1
        } else if self.field2 != other.field2 {
            self.field2 < other.field2
        } else if self.field3 != other.field3 {
            self.field3 < other.field3
        } else if self.field4 != other.field4 {
            self.field4 < other.field4
        } else if self.field5 != other.field5 {
            self.field5 < other.field5
        } else {
            self.field6 < other.field6
        }
    }

    /// Whether `self` is `other` or ordered before it.
    pub fn le(&self, other: &Key) -> (r: bool)
        ensures
            r == (self.value() <= other.value()),
    {
        !other.lt(self)
    }

    /// Appends the eighteen bytes of the key.
    pub fn write_to(&self, buf: &mut Vec<u8>)
        ensures
            final(buf)@ == old(buf)@ + self.bytes(),
    {
        buf.push(self.field1);
        put_u32(buf, self.field2);
        put_u32(buf, self.field3);
        put_u32(buf, self.field4);
        buf.push(self.field5);
        put_u32(buf, self.field6);
        assert(buf@ =~= old(buf)@ + self.bytes());
    }

    /// Reads the key that stands at `at`.
    pub fn read_from(buf: &[u8], at: usize) -> (k: Key)
        requires
            at + KEY_SIZE <= buf.len(),
        ensures
            k == Key::at(buf@, at as int),
    {
        Key {
            field1: buf[at],
            field2: get_u32(buf, at + 1),
            field3: get_u32(buf, at + 5),
            field4: get_u32(buf, at + 9),
            field5: buf[at + 13],
            field6: get_u32(buf, at + 14),
        }
    }

    /// Two keys with the same number are the same key.
    pub proof fn lemma_value_injective(a: Key, b: Key)
        requires
            a.value() == b.value(),
        ensures
            a == b,
    {
    }

    /// A key is read back from its bytes, wherever they stand.
    pub proof fn lemma_at_bytes(s: Seq<u8>, at: int, k: Key)
        requires
            0 <= at,
            at + KEY_SIZE <= s.len(),
            s.subrange(at, at + KEY_SIZE) == k.bytes(),
        ensures
            Key::at(s, at) == k,
    {
        let w = s.subrange(at, at + 18);
        assert(w.len() == 18);
        assert(s[at] == w[0]);
        assert(s[at + 13] == w[13]);
        assert(s.subrange(at + 1, at + 5) =~= be32(k.field2)) by {
            assert forall|i: int| 0 <= i < 4 implies s[at + 1 + i] == be32(k.field2)[i] by {
                assert(s[at + 1 + i] == w[1 + i]);
            }
        }
        assert(s.subrange(at + 5, at + 9) =~= be32(k.field3)) by {
            assert forall|i: int| 0 <= i < 4 implies s[at + 5 + i] == be32(k.field3)[i] by {
                assert(s[at + 5 + i] == w[5 + i]);
            }
        }
        assert(s.subrange(at + 9, at + 13) =~= be32(k.field4)) by {
            assert forall|i: int| 0 <= i < 4 implies s[at + 9 + i] == be32(k.field4)[i] by {
                assert(s[at + 9 + i] == w[9 + i]);
            }
        }
        assert(s.subrange(at + 14, at + 18) =~= be32(k.field6)) by {
            assert forall|i: int| 0 <= i < 4 implies s[at + 14 + i] == be32(k.field6)[i] by {
                assert(s[at + 14 + i] == w[14 + i]);
            }
        }
        lemma_u32_at_be32(s, at + 1, k.field2);
        lemma_u32_at_be32(s, at + 5, k.field3);
        lemma_u32_at_be32(s, at + 9, k.field4);
        lemma_u32_at_be32(s, at + 14, k.field6);
    }

    /// The bytes of the key that eighteen bytes spell are those bytes.
    pub proof fn lemma_bytes_at(s: Seq<u8>, at: int)
        requires
            0 <= at,
            at + KEY_SIZE <= s.len(),
        ensures
            Key::at(s, at).bytes() == s.subrange(at, at + KEY_SIZE),
    {
        lemma_be32_u32_at(s, at + 1);
        lemma_be32_u32_at(s, at + 5);
        lemma_be32_u32_at(s, at + 9);
        lemma_be32_u32_at(s, at + 14);
        let k = Key::at(s, at);
        let w = s.subrange(at, at + 18);
        assert forall|i: int| 0 <= i < 18 implies k.bytes()[i] == w[i] by {
            if 1 <= i < 5 {
                assert(s.subrange(at + 1, at + 5)[i - 1] == s[at + i]);
            } else if 5 <= i < 9 {
                assert(s.subrange(at + 5, at + 9)[i - 5] == s[at + i]);
            } else if 9 <= i < 13 {
                assert(s.subrange(at + 9, at + 13)[i - 9] == s[at + i]);
            } else if 14 <= i {
                assert(s.subrange(at + 14, at + 18)[i - 14] == s[at + i]);
            }
        }
        assert(k.bytes() =~= w);
    }
}

/// Whether `a` comes before `b` from place `k` on, in the order of byte
/// strings: `a` has the smaller byte at `k`, or the same byte and comes
/// before `b` from the next place on.
pub open spec fn bytes_before_from(a: Seq<u8>, b: Seq<u8>, k: int) -> bool
    decreases a.len() - k,
{
    if k < 0 || k >= a.len() || k >= b.len() {
        false
    } else {
        a[k] < b[k] || (a[k] == b[k] && bytes_before_from(a, b, k + 1))
    }
}

/// Whether `a` comes before `b` in the order of byte strings of one length.
pub open spec fn bytes_before(a: Seq<u8>, b: Seq<u8>) -> bool {
    bytes_before_from(a, b, 0)
}

/// Two numbers are ordered as their four bytes are, the most significant
/// byte first.
proof fn lemma_u32_order(x: u32, y: u32)
    by (bit_vector)
    ensures
        x < y <==> (x / 0x100_0000 < y / 0x100_0000 || (x / 0x100_0000 == y / 0x100_0000 && (x
            / 0x1_0000 % 0x100 < y / 0x1_0000 % 0x100 || (x / 0x1_0000 % 0x100 == y / 0x1_0000
            % 0x100 && (x / 0x100 % 0x100 < y / 0x100 % 0x100 || (x / 0x100 % 0x100 == y / 0x100
            % 0x100 && x % 0x100 < y % 0x100)))))),
        x == y <==> (x / 0x100_0000 == y / 0x100_0000 && x / 0x1_0000 % 0x100 == y / 0x1_0000
            % 0x100 && x / 0x100 % 0x100 == y / 0x100 % 0x100 && x % 0x100 == y % 0x100),
        x / 0x100_0000 <= 0xff,
{
}

/// Four places of two byte strings that hold two numbers order the strings
/// as the numbers are ordered, and leave the order to the following places
/// where the numbers are the same.
proof fn lemma_word_places(a: Seq<u8>, b: Seq<u8>, k: int, x: u32, y: u32)
    requires
        0 <= k,
        k + 4 <= a.len(),
        k + 4 <= b.len(),
        a[k] == be32(x)[0] && a[k + 1] == be32(x)[1] && a[k + 2] == be32(x)[2] && a[k + 3]
            == be32(x)[3],
        b[k] == be32(y)[0] && b[k + 1] == be32(y)[1] && b[k + 2] == be32(y)[2] && b[k + 3]
            == be32(y)[3],
    ensures
        bytes_before_from(a, b, k) <==> (x < y || (x == y && bytes_before_from(a, b, k + 4))),
{
    lemma_u32_order(x, y);
    reveal_with_fuel(bytes_before_from, 5);
}

/// One place of two byte strings orders them as its two bytes are ordered,
/// and leaves the order to the following places where the bytes are the same.
proof fn lemma_byte_place(a: Seq<u8>, b: Seq<u8>, k: int)
    requires
        0 <= k < a.len(),
        k < b.len(),
    ensures
        bytes_before_from(a, b, k) <==> (a[k] < b[k] || (a[k] == b[k] && bytes_before_from(
            a,
            b,
            k + 1,
        ))),
{
}

impl Key {
    /// Keys are ordered as the bytes are that hold them in a file.
    pub proof fn lemma_order_is_bytewise(a: Key, b: Key)
        ensures
            a.value() < b.value() <==> bytes_before(a.bytes(), b.bytes()),
    {
        let x = a.bytes();
        let y = b.bytes();
        assert(x.len() == 18 && y.len() == 18);
        assert(x[0] == a.field1 && y[0] == b.field1);
        assert(x[13] == a.field5 && y[13] == b.field5);
        lemma_byte_place(x, y, 0);
        assert(x[1] == be32(a.field2)[0] && x[2] == be32(a.field2)[1] && x[3] == be32(
            a.field2,
        )[2] && x[4] == be32(a.field2)[3]);
        assert(y[1] == be32(b.field2)[0] && y[2] == be32(b.field2)[1] && y[3] == be32(
            b.field2,
        )[2] && y[4] == be32(b.field2)[3]);
        lemma_word_places(x, y, 1, a.field2, b.field2);
        assert(x[5] == be32(a.field3)[0] && x[6] == be32(a.field3)[1] && x[7] == be32(
            a.field3,
        )[2] && x[8] == be32(a.field3)[3]);
        assert(y[5] == be32(b.field3)[0] && y[6] == be32(b.field3)[1] && y[7] == be32(
            b.field3,
        )[2] && y[8] == be32(b.field3)[3]);
        lemma_word_places(x, y, 5, a.field3, b.field3);
        assert(x[9] == be32(a.field4)[0] && x[10] == be32(a.field4)[1] && x[11] == be32(
            a.field4,
        )[2] && x[12] == be32(a.field4)[3]);
        assert(y[9] == be32(b.field4)[0] && y[10] == be32(b.field4)[1] && y[11] == be32(
            b.field4,
        )[2] && y[12] == be32(b.field4)[3]);
        lemma_word_places(x, y, 9, a.field4, b.field4);
        lemma_byte_place(x, y, 13);
        assert(x[14] == be32(a.field6)[0] && x[15] == be32(a.field6)[1] && x[16] == be32(
            a.field6,
        )[2] && x[17] == be32(a.field6)[3]);
        assert(y[14] == be32(b.field6)[0] && y[15] == be32(b.field6)[1] && y[16] == be32(
            b.field6,
        )[2] && y[17] == be32(b.field6)[3]);
        lemma_word_places(x, y, 14, a.field6, b.field6);
        assert(!bytes_before_from(x, y, 18));
    }
}

/// A half-open range of keys: from `start` up to `end`, which lies outside.
#[derive(Debug, Clone, Copy, PartialEq, Eq, Structural)]
pub struct KeyRange {
    pub start: Key,
    pub end: Key,
}

/// A half-open range of LSNs: from `start` up to `end`, which lies outside.
#[derive(Debug, Clone, Copy, PartialEq, Eq, Structural)]
pub struct LsnRange {
    pub start: Lsn,
    pub end: Lsn,
}

impl KeyRange {
    /// Whether `key` lies in the range.
    pub open spec fn spec_contains(self, key: Key) -> bool {
        self.start.value() <= key.value() < self.end.value()
    }

    /// Whether `key` lies in the range: at or after its start and before
    /// its end.
    pub fn contains(&self, key: &Key) -> (r: bool)
        ensures
            r == self.spec_contains(*key),
    {
        self.start.le(key) && key.lt(&self.end)
    }
}

} // verus!
