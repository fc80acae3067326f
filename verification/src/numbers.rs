//! Reading a signed 32-bit integer out of its decimal notation, as an
//! `exit` argument is written: an optional sign, then one or more digits,
//! and nothing else.

use vstd::prelude::*;

verus! {

/// Whether `c` is a decimal digit; 48 and 57 are the code points of `0`
/// and `9`.
pub open spec fn is_digit(c: char) -> bool {
    48 <= c as int <= 57
}

/// The value of a digit character.
pub open spec fn digit_val(c: char) -> int {
    c as int - 48
}

/// The value of a string of decimal digits, most significant first.
pub open spec fn dec_val(s: Seq<char>) -> int
    decreases s.len(),
{
    if s.len() == 0 {
        0
    } else {
        dec_val(s.drop_last()) * 10 + digit_val(s.last())
    }
}

pub open spec fn all_digits(s: Seq<char>) -> bool {
    forall|i: int| 0 <= i < s.len() ==> is_digit(#[trigger] s[i])
}

/// The digits of a decimal integer notation: everything after a leading
/// `+` or `-`, or the whole string when there is no sign.
pub open spec fn int_body(s: Seq<char>) -> Seq<char> {
    if s.len() > 0 && (s[0] == '+' || s[0] == '-') {
        s.drop_first()
    } else {
        s
    }
}

pub open spec fn int_sign(s: Seq<char>) -> int {
    if s.len() > 0 && s[0] == '-' {
        -1
    } else {
        1
    }
}

/// Whether `s` is the decimal notation of a value an `i32` can hold.
pub open spec fn is_i32_string(s: Seq<char>) -> bool {
    let b = int_body(s);
    b.len() > 0 && all_digits(b) && -0x8000_0000 <= int_sign(s) * dec_val(b) <= 0x7fff_ffff
}

/// The value written by a decimal notation.
pub open spec fn i32_value(s: Seq<char>) -> int {
    int_sign(s) * dec_val(int_body(s))
}

pub proof fn lemma_dec_val_nonneg(s: Seq<char>)
    requires
        all_digits(s),
    ensures
        dec_val(s) >= 0,
    decreases s.len(),
{
    if s.len() > 0 {
        assert(all_digits(s.drop_last()));
        lemma_dec_val_nonneg(s.drop_last());
    }
}

/// A digit string is worth at least any of its prefixes.
pub proof fn lemma_dec_val_prefix(s: Seq<char>, k: int)
    requires
        all_digits(s),
        0 <= k <= s.len(),
    ensures
        dec_val(s) >= dec_val(s.take(k)),
    decreases s.len() - k,
{
    if k < s.len() {
        let t = s.take(k + 1);
        assert(all_digits(t));
        assert(t.drop_last() =~= s.take(k));
        lemma_dec_val_nonneg(t.drop_last());
        assert(dec_val(t) == dec_val(s.take(k)) * 10 + digit_val(t.last()));
        lemma_dec_val_prefix(s, k + 1);
    } else {
        assert(s.take(k) =~= s);
    }
}

/// When some prefix of the digits is already over the limit, the whole
/// digit string is too.
proof fn lemma_dec_val_over(body: Seq<char>, k: int, limit: int)
    requires
        0 <= k <= body.len(),
        all_digits(body.take(k)),
        dec_val(body.take(k)) > limit,
    ensures
        all_digits(body) ==> dec_val(body) > limit,
{
    if all_digits(body) {
        lemma_dec_val_prefix(body, k);
    }
}

/// Reads an `i32` from its decimal notation; `None` when `s` is not the
/// notation of a value in range.
pub fn parse_i32(s: &str) -> (r: Option<i32>)
    ensures
        r is Some <==> is_i32_string(s@),
        r matches Some(v) ==> v == i32_value(s@),
{
    let n = s.unicode_len();
    let mut start: usize = 0;
    let mut negative: bool = false;
    if n > 0 {
        let c0 = s.get_char(0);
        if c0 == '+' {
            start = 1;
        } else if c0 == '-' {
            start = 1;
            negative = true;
        }
    }
    proof {
        assert(int_body(s@) =~= s@.skip(start as int));
        assert(negative == (int_sign(s@) == -1));
    }
    let ghost body = s@.skip(start as int);
    if start >= n {
        proof {
            assert(body.len() == 0);
        }
        return None;
    }
    let limit: u64 = if negative {
        0x8000_0000
    } else {
        0x7fff_ffff
    };
    let mut acc: u64 = 0;
    let mut i: usize = start;
    proof {
        assert(body.take(0) =~= Seq::<char>::empty());
    }
    while i < n
        invariant
            start <= i <= n,
            start < n,
            n == s@.len(),
            body == s@.skip(start as int),
            int_body(s@) == body,
            negative == (int_sign(s@) == -1),
            limit == if negative {
                0x8000_0000u64
            } else {
                0x7fff_ffffu64
            },
            all_digits(body.take(i - start)),
            acc == dec_val(body.take(i - start)),
            acc <= limit,
        decreases n - i,
    {
        let c = s.get_char(i);
        let cu: u32 = c as u32;
        if cu < 48 || cu > 57 {
            proof {
                assert(body[i - start] == s@[i as int]);
                assert(!is_digit(body[i - start]));
            }
            return None;
        }
        let d: u64 = (cu - 48) as u64;
        let next: u64 = acc * 10 + d;
        proof {
            assert(body.take(i - start + 1).drop_last() =~= body.take(i - start));
            assert(body.take(i - start + 1).last() == s@[i as int]);
            assert(all_digits(body.take(i - start + 1)));
            assert(next == dec_val(body.take(i - start + 1)));
        }
        if next > limit {
            proof {
                lemma_dec_val_over(body, i - start + 1, limit as int);
            }
            return None;
        }
        acc = next;
        i += 1;
    }
    proof {
        assert(body.take(n - start) =~= body);
    }
    let v: i32 = if negative {
        if acc == 0x8000_0000 {
            i32::MIN
        } else {
            -(acc as i32)
        }
    } else {
        acc as i32
    };
    proof {
        assert(v == i32_value(s@));
        assert(is_i32_string(s@));
    }
    Some(v)
}

} // verus!
