//! Reading a counter out of the bytes a bucket stores.
use vstd::prelude::*;

verus! {

/// The largest count a bucket holds.
pub const COUNT_MAX: u64 = 0xffff_ffff;

pub open spec fn is_digit(b: u8) -> bool {
    48 <= b <= 57
}

pub open spec fn all_digits(s: Seq<u8>) -> bool {
    forall|i: int| 0 <= i < s.len() ==> is_digit(#[trigger] s[i])
}

/// The number that a string of decimal digits denotes.
pub open spec fn digits_value(s: Seq<u8>) -> nat
    decreases s.len(),
{
    if s.len() == 0 {
        0
    } else {
        digits_value(s.drop_last()) * 10 + (s.last() - 48) as nat
    }
}

/// The digits of a stored count: what follows an optional leading `+`.
pub open spec fn unsigned_digits(b: Seq<u8>) -> Seq<u8> {
    if b.len() > 0 && b[0] == 43 {
        b.drop_first()
    } else {
        b
    }
}

/// The count that the bytes `b` hold: the value of an optional `+` and one
/// or more decimal digits, when it fits in 32 bits; zero for anything else.
pub open spec fn bucket_value(b: Seq<u8>) -> nat {
    let d = unsigned_digits(b);
    if d.len() > 0 && all_digits(d) && digits_value(d) <= COUNT_MAX {
        digits_value(d)
    } else {
        0
    }
}

proof fn lemma_value_grows(s: Seq<u8>, i: int)
    requires
        0 <= i <= s.len(),
        all_digits(s),
    ensures
        digits_value(s.take(i)) <= digits_value(s),
    decreases s.len() - i,
{
    if i < s.len() {
        lemma_value_grows(s, i + 1);
        assert(s.take(i + 1).drop_last() =~= s.take(i));
    } else {
        assert(s.take(i) =~= s);
    }
}

/// Decodes a stored count; malformed content counts as zero.
pub fn decode_count(b: &[u8]) -> (r: u32)
    ensures
        r == bucket_value(b@),
{
    let start: usize = if b.len() > 0 && b[0] == 43 { 1 } else { 0 };
    let ghost d = unsigned_digits(b@);
    assert(d =~= b@.subrange(start as int, b@.len() as int));
    if start == b.len() {
        return 0;
    }
    let mut acc: u64 = 0;
    let mut i: usize = start;
    while i < b.len()
        invariant
            start <= i <= b.len(),
            d == b@.subrange(start as int, b@.len() as int),
            d == unsigned_digits(b@),
            all_digits(d.take(i - start)),
            acc == digits_value(d.take(i - start)),
            acc <= COUNT_MAX,
        decreases b.len() - i,
    {
        let c = b[i];
        if c < 48 || c > 57 {
            assert(d[i - start] == c);
            assert(!all_digits(d));
            return 0;
        }
        assert(d.take(i + 1 - start).drop_last() =~= d.take(i - start));
        acc = acc * 10 + (c - 48) as u64;
        assert(all_digits(d.take(i + 1 - start)));
        i = i + 1;
        if acc > COUNT_MAX {
            proof {
                if all_digits(d) {
                    lemma_value_grows(d, i - start);
                }
            }
            return 0;
        }
    }
    assert(d.take(i - start) =~= d);
    acc as u32
}

} // verus!
