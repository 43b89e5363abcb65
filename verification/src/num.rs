//! Decimal text: rendering an integer as base-10 bytes, and exact base-10
//! signed parsing of a text into an `i64`.

use vstd::prelude::*;

verus! {

/// `b` is an ASCII decimal digit.
pub open spec fn is_digit(b: u8) -> bool {
    48 <= b && b <= 57
}

/// Every byte of `s` is an ASCII decimal digit.
pub open spec fn all_digits(s: Seq<u8>) -> bool {
    forall|i: int| 0 <= i < s.len() ==> is_digit(#[trigger] s[i])
}

/// The value of a digit string, most significant digit first.
pub open spec fn digits_val(s: Seq<u8>) -> int
    decreases s.len(),
{
    if s.len() == 0 {
        0
    } else {
        digits_val(s.subrange(0, s.len() - 1)) * 10 + (s[s.len() - 1] - 48)
    }
}

/// `s` is the text of a base-10 signed integer: an optional leading minus
/// sign followed by at least one digit.
pub open spec fn is_int_text(s: Seq<u8>) -> bool {
    if s.len() > 0 && s[0] == 45 {
        s.len() >= 2 && all_digits(s.subrange(1, s.len() as int))
    } else {
        s.len() >= 1 && all_digits(s)
    }
}

/// The integer a signed decimal text denotes.
pub open spec fn int_text_val(s: Seq<u8>) -> int {
    if s.len() > 0 && s[0] == 45 {
        -digits_val(s.subrange(1, s.len() as int))
    } else {
        digits_val(s)
    }
}

/// `v` is representable as an `i64`.
pub open spec fn fits_i64(v: int) -> bool {
    i64::MIN <= v && v <= i64::MAX
}

/// The canonical decimal rendering of a nonnegative integer.
pub open spec fn dec_u(m: nat) -> Seq<u8>
    decreases m,
{
    if m < 10 {
        seq![(48 + m) as u8]
    } else {
        dec_u(m / 10).push((48 + m % 10) as u8)
    }
}

/// The canonical decimal rendering of an integer: a minus sign before the
/// magnitude when it is negative.
pub open spec fn dec_i(n: int) -> Seq<u8> {
    if n < 0 {
        seq![45u8] + dec_u((-n) as nat)
    } else {
        dec_u(n as nat)
    }
}

/// Renders a nonnegative machine integer in decimal.
pub fn u64_to_dec(m: u64) -> (r: Vec<u8>)
    ensures
        r@ == dec_u(m as nat),
    decreases m,
{
    if m < 10 {
        let mut v: Vec<u8> = Vec::new();
        v.push(48 + (m as u8));
        proof {
            assert(v@ =~= dec_u(m as nat));
        }
        v
    } else {
        let mut v = u64_to_dec(m / 10);
        v.push(48 + ((m % 10) as u8));
        proof {
            assert(v@ =~= dec_u(m as nat));
        }
        v
    }
}

/// Renders a signed machine integer in decimal.
pub fn i64_to_dec(n: i64) -> (r: Vec<u8>)
    ensures
        r@ == dec_i(n as int),
{
    if n >= 0 {
        u64_to_dec(n as u64)
    } else {
        let m: u64 = (-(n as i128)) as u64;
        let mut v: Vec<u8> = Vec::new();
        v.push(45);
        let mut d = u64_to_dec(m);
        v.append(&mut d);
        proof {
            assert(v@ =~= dec_i(n as int));
        }
        v
    }
}

/// A digit string denotes a nonnegative value.
proof fn lemma_digits_val_nonneg(s: Seq<u8>)
    requires
        all_digits(s),
    ensures
        digits_val(s) >= 0,
    decreases s.len(),
{
    if s.len() > 0 {
        lemma_digits_val_nonneg(s.subrange(0, s.len() - 1));
    }
}

/// Extending a digit string can only raise its value.
proof fn lemma_digits_val_prefix_le(s: Seq<u8>, k: int)
    requires
        all_digits(s),
        0 <= k <= s.len(),
    ensures
        digits_val(s.subrange(0, k)) <= digits_val(s),
    decreases s.len() - k,
{
    if k < s.len() {
        lemma_digits_val_prefix_le(s, k + 1);
        lemma_digits_val_nonneg(s.subrange(0, k));
        assert(s.subrange(0, k + 1).subrange(0, k) =~= s.subrange(0, k));
        assert(s.subrange(0, k) =~= s.subrange(0, s.len() as int).subrange(0, k));
    } else {
        assert(s.subrange(0, k) =~= s);
    }
}

/// Parses a base-10 signed integer. Returns the denoted value exactly when
/// the text is well formed and the value fits an `i64`; returns nothing
/// otherwise (a malformed text, or one whose value overflows).
pub fn parse_i64(text: &Vec<u8>) -> (r: Option<i64>)
    ensures
        match r {
            Some(v) => is_int_text(text@) && fits_i64(int_text_val(text@)) && v as int
                == int_text_val(text@),
            None => !(is_int_text(text@) && fits_i64(int_text_val(text@))),
        },
{
    let len = text.len();
    if len == 0 {
        return None;
    }
    let neg = text[0] == 45;
    let start: usize = if neg {
        1
    } else {
        0
    };
    if start >= len {
        return None;
    }
    let limit: u64 = if neg {
        9223372036854775808
    } else {
        9223372036854775807
    };
    let mut mag: u64 = 0;
    let mut i = start;
    while i < len
        invariant
            start <= i <= len,
            len == text@.len(),
            start < len,
            neg == (text@[0] == 45),
            start == (if neg { 1int } else { 0int }),
            limit == (if neg { 9223372036854775808u64 } else { 9223372036854775807u64 }),
            all_digits(text@.subrange(start as int, i as int)),
            mag as int == digits_val(text@.subrange(start as int, i as int)),
            mag <= limit,
        decreases len - i,
    {
        let b = text[i];
        if b < 48 || b > 57 {
            proof {
                let ghost full = if neg {
                    text@.subrange(1, len as int)
                } else {
                    text@
                };
                assert(!is_digit(full[i - start as int]));
            }
            return None;
        }
        let d = (b - 48) as u64;
        if mag > (limit - d) / 10 {
            proof {
                vstd::arithmetic::div_mod::lemma_fundamental_div_mod((limit - d) as int, 10);
                assert(mag as int * 10 + d > limit);
                let digits = text@.subrange(start as int, len as int);
                let pre = text@.subrange(start as int, i as int);
                let ext = text@.subrange(start as int, i + 1);
                assert(ext.subrange(0, ext.len() - 1) =~= pre);
                assert(digits_val(ext) == mag as int * 10 + d);
                if is_int_text(text@) {
                    if neg {
                        assert(digits =~= text@.subrange(1, len as int));
                    } else {
                        assert(digits =~= text@);
                    }
                    assert(all_digits(digits));
                    assert(ext =~= digits.subrange(0, i + 1 - start));
                    lemma_digits_val_prefix_le(digits, i + 1 - start);
                    assert(digits_val(digits) > limit);
                    assert(!fits_i64(int_text_val(text@)));
                }
            }
            return None;
        }
        proof {
            vstd::arithmetic::div_mod::lemma_fundamental_div_mod((limit - d) as int, 10);
            let pre = text@.subrange(start as int, i as int);
            let ext = text@.subrange(start as int, i + 1);
            assert(ext.subrange(0, ext.len() - 1) =~= pre);
            assert(digits_val(ext) == mag as int * 10 + d);
        }
        mag = mag * 10 + d;
        i = i + 1;
    }
    proof {
        let digits = text@.subrange(start as int, len as int);
        assert(text@.subrange(start as int, i as int) =~= digits);
        if neg {
            assert(digits =~= text@.subrange(1, len as int));
        } else {
            assert(digits =~= text@);
        }
        assert(is_int_text(text@));
    }
    if neg {
        if mag == 9223372036854775808 {
            Some(i64::MIN)
        } else {
            Some(-(mag as i64))
        }
    } else {
        Some(mag as i64)
    }
}

} // verus!
