//! Decimal text: the credential lifetime travels as decimal text (its wire
//! form), so the crate reads and writes such text with verified conversions.

use vstd::prelude::*;

verus! {

/// Whether `c` is a decimal digit.
pub open spec fn is_digit(c: char) -> bool {
    48 <= (c as u32) && (c as u32) <= 57
}

/// Numeric value of a digit character.
pub open spec fn digit_val(c: char) -> int {
    (c as u32) - 48
}

/// Whether every character of `s` is a decimal digit.
pub open spec fn all_digits(s: Seq<char>) -> bool {
    forall|i: int| 0 <= i < s.len() ==> is_digit(#[trigger] s[i])
}

/// Value of a digit string read in base ten.
pub open spec fn digits_val(s: Seq<char>) -> int
    decreases s.len(),
{
    if s.len() == 0 {
        0
    } else {
        digits_val(s.drop_last()) * 10 + digit_val(s.last())
    }
}

/// The value a decimal text denotes: an optional leading minus sign followed
/// by at least one digit. Text whose magnitude exceeds `i64::MAX` is rejected.
pub open spec fn parse_i64_spec(s: Seq<char>) -> Option<i64> {
    if s.len() > 0 && s[0] == '-' {
        let m = s.drop_first();
        if m.len() > 0 && all_digits(m) && digits_val(m) <= i64::MAX {
            Some((-digits_val(m)) as i64)
        } else {
            None
        }
    } else {
        if s.len() > 0 && all_digits(s) && digits_val(s) <= i64::MAX {
            Some(digits_val(s) as i64)
        } else {
            None
        }
    }
}

/// A digit string's value is never negative.
proof fn lemma_digits_val_nonneg(s: Seq<char>)
    requires
        all_digits(s),
    ensures
        digits_val(s) >= 0,
    decreases s.len(),
{
    if s.len() > 0 {
        assert(all_digits(s.drop_last()));
        lemma_digits_val_nonneg(s.drop_last());
    }
}

/// Reading one more digit never shrinks the value.
proof fn lemma_digits_val_step(s: Seq<char>, i: int)
    requires
        all_digits(s),
        0 <= i < s.len(),
    ensures
        digits_val(s.take(i + 1)) >= digits_val(s.take(i)),
        digits_val(s.take(i + 1)) == digits_val(s.take(i)) * 10 + digit_val(s[i]),
{
    assert(s.take(i + 1).drop_last() =~= s.take(i));
    assert(all_digits(s.take(i)));
    lemma_digits_val_nonneg(s.take(i));
}

/// The whole digit string is worth at least any of its prefixes.
proof fn lemma_digits_val_take_le(s: Seq<char>, i: int)
    requires
        all_digits(s),
        0 <= i <= s.len(),
    ensures
        digits_val(s) >= digits_val(s.take(i)),
    decreases s.len() - i,
{
    if i == s.len() {
        assert(s.take(i) =~= s);
    } else {
        lemma_digits_val_step(s, i);
        lemma_digits_val_take_le(s, i + 1);
    }
}

/// Reads a decimal integer: an optional leading minus sign followed by at
/// least one digit, valuing at most `i64::MAX` in magnitude. Returns `None`
/// on any other text.
pub fn parse_i64(s: &str) -> (r: Option<i64>)
    ensures
        r == parse_i64_spec(s@),
{
    let n = s.unicode_len();
    let neg = n > 0 && s.get_char(0) == '-';
    let start: usize = if neg {
        1
    } else {
        0
    };
    let ghost m = if neg {
        s@.drop_first()
    } else {
        s@
    };
    if n == start {
        return None;
    }
    let mut acc: i64 = 0;
    let mut i: usize = start;
    while i < n
        invariant
            start <= i <= n,
            n == s@.len(),
            start == (if neg { 1int } else { 0int }),
            neg ==> s@[0] == '-',
            !neg ==> s@.len() == 0 || s@[0] != '-',
            m == (if neg { s@.drop_first() } else { s@ }),
            m.len() == n - start,
            all_digits(m.take(i - start)),
            0 <= acc,
            acc == digits_val(m.take(i - start)),
        decreases n - i,
    {
        let ghost j = i - start;
        let c = s.get_char(i);
        proof {
            assert(m[j] == c);
        }
        let cu = c as u32;
        if !(48 <= cu && cu <= 57) {
            proof {
                assert(!is_digit(m[j]));
                assert(!all_digits(m));
            }
            return None;
        }
        let d: i64 = (cu - 48) as i64;
        proof {
            assert(m.take(j + 1).drop_last() =~= m.take(j));
            assert(m.take(j + 1).last() == c);
            assert(all_digits(m.take(j + 1))) by {
                assert forall|k: int| 0 <= k < j + 1 implies is_digit(#[trigger] m.take(j + 1)[k]) by {
                    if k < j {
                        assert(m.take(j + 1)[k] == m.take(j)[k]);
                        assert(is_digit(m.take(j)[k]));
                    } else {
                        assert(m.take(j + 1)[k] == c);
                    }
                }
            }
            assert(digits_val(m.take(j + 1)) == acc * 10 + d);
        }
        let step = match acc.checked_mul(10) {
            Some(x) => x.checked_add(d),
            None => None,
        };
        match step {
            Some(x) => {
                acc = x;
            },
            None => {
                proof {
                    assert(digits_val(m.take(j + 1)) > i64::MAX);
                    if all_digits(m) {
                        lemma_digits_val_take_le(m, j + 1);
                    }
                }
                return None;
            },
        }
        i = i + 1;
    }
    proof {
        assert(m.take(n - start) =~= m);
    }
    if neg {
        Some(-acc)
    } else {
        Some(acc)
    }
}

/// The decimal digits of `n`, most significant first.
pub open spec fn dec_digits(n: nat) -> Seq<char>
    decreases n,
{
    if n < 10 {
        seq![digit_char(n as int)]
    } else {
        dec_digits(n / 10) + seq![digit_char(n as int % 10)]
    }
}

/// The digit character for a value below ten.
pub open spec fn digit_char(d: int) -> char {
    (48 + d) as char
}

/// Relies on `String`'s `FromIterator`: collecting characters yields the
/// string of exactly those characters.
#[verifier::external_body]
pub(crate) fn chars_to_string(v: Vec<char>) -> (r: String)
    ensures
        r@ == v@,
{
    v.into_iter().collect()
}

/// Writes `n` in decimal, most significant digit first.
pub fn u64_to_string(n: u64) -> (r: String)
    ensures
        r@ == dec_digits(n as nat),
{
    let mut rev: Vec<char> = Vec::new();
    let mut k: u64 = n;
    proof {
        assert(dec_digits(n as nat) =~= dec_digits(k as nat) + rev@.reverse());
    }
    loop
        invariant_except_break
            dec_digits(n as nat) =~= dec_digits(k as nat) + rev@.reverse(),
        ensures
            dec_digits(n as nat) == rev@.reverse(),
        decreases k,
    {
        let d: u8 = (k % 10) as u8;
        let c: char = (48 + d) as char;
        let ghost old_rev = rev@;
        rev.push(c);
        proof {
            assert(c == digit_char(k as int % 10));
            assert(rev@.reverse() =~= seq![c] + old_rev.reverse());
        }
        if k < 10 {
            proof {
                assert(dec_digits(k as nat) == seq![digit_char(k as int)]);
                assert(dec_digits(n as nat) =~= rev@.reverse());
            }
            break;
        }
        proof {
            assert(dec_digits(k as nat) == dec_digits(k as nat / 10) + seq![
                digit_char(k as int % 10),
            ]);
            assert(dec_digits(n as nat) =~= dec_digits((k / 10) as nat) + rev@.reverse());
        }
        k = k / 10;
    }
    proof {
        assert(dec_digits(n as nat) =~= rev@.reverse());
    }
    let mut out: Vec<char> = Vec::new();
    let mut i: usize = rev.len();
    while i > 0
        invariant
            i <= rev@.len(),
            out@ == rev@.subrange(i as int, rev@.len() as int).reverse(),
        decreases i,
    {
        i = i - 1;
        proof {
            assert(rev@.subrange(i as int, rev@.len() as int).reverse() =~= out@ + seq![rev@[i as int]]);
        }
        out.push(rev[i]);
    }
    proof {
        assert(out@ =~= rev@.reverse());
    }
    chars_to_string(out)
}

} // verus!
