//! Character and decimal-text helpers shared by the lexer, the parser and
//! the stack renderer.

use vstd::prelude::*;
use vstd::string::StrSliceExecFns;

verus! {

/// Relies on `String`'s `FromIterator<char>` impl of std: collecting chars
/// yields the string of exactly those chars in order.
#[verifier::external_body]
pub fn chars_to_string(v: &Vec<char>) -> (s: String)
    ensures
        s@ == v@,
{
    v.iter().collect()
}

/// Collect the chars of a string slice into a vector, in order.
pub fn str_to_chars(s: &str) -> (v: Vec<char>)
    ensures
        v@ == s@,
{
    let len = s.unicode_len();
    let mut v: Vec<char> = Vec::new();
    let mut i: usize = 0;
    while i < len
        invariant
            i <= len,
            len == s@.len(),
            v@.len() == i as int,
            forall|j: int| 0 <= j < i ==> v@[j] == s@[j],
        decreases len - i,
    {
        v.push(s.get_char(i));
        i += 1;
    }
    proof {
        assert(v@ =~= s@);
    }
    v
}

/// Decimal digit characters.
pub open spec fn is_digit_char(c: char) -> bool {
    48 <= c as u32 <= 57
}

/// The numeric value of one decimal digit character.
pub open spec fn digit_val(c: char) -> nat {
    if is_digit_char(c) {
        (c as u32 - 48) as nat
    } else {
        0
    }
}

/// The digit character for one value below ten.
pub open spec fn digit_char(d: nat) -> char {
    ((48 + d) as u8) as char
}

/// Every char of the sequence is a decimal digit.
pub open spec fn all_digits(s: Seq<char>) -> bool {
    forall|i: int| 0 <= i < s.len() ==> is_digit_char(s[i])
}

/// The value of a run of decimal digit characters, most significant first.
pub open spec fn dec_val(s: Seq<char>) -> nat
    decreases s.len(),
{
    if s.len() == 0 {
        0
    } else {
        dec_val(s.drop_last()) * 10 + digit_val(s.last())
    }
}

/// The canonical decimal digit run of a natural number (no leading zeros).
pub open spec fn nat_dec_seq(n: nat) -> Seq<char>
    decreases n,
{
    if n < 10 {
        seq![digit_char(n)]
    } else {
        nat_dec_seq(n / 10).push(digit_char(n % 10))
    }
}

/// The canonical decimal text of an integer: a minus sign before the digit
/// run when negative.
pub open spec fn int_dec_seq(i: int) -> Seq<char> {
    if i < 0 {
        seq!['-'] + nat_dec_seq((-i) as nat)
    } else {
        nat_dec_seq(i as nat)
    }
}

/// Reading back the canonical digit run of `n` gives `n` again, and the run
/// consists of digits, starting with a nonzero one unless it is just `0`.
pub proof fn lemma_nat_dec_seq(n: nat)
    ensures
        nat_dec_seq(n).len() >= 1,
        all_digits(nat_dec_seq(n)),
        dec_val(nat_dec_seq(n)) == n,
        nat_dec_seq(n)[0] != '0' || n < 10,
    decreases n,
{
    if n < 10 {
        assert(dec_val(seq![digit_char(n)].drop_last()) == 0);
    } else {
        lemma_nat_dec_seq(n / 10);
        let s = nat_dec_seq(n / 10);
        assert(s.push(digit_char(n % 10)).drop_last() =~= s);
        assert(s.push(digit_char(n % 10)).last() == digit_char(n % 10));
        assert(dec_val(nat_dec_seq(n)) == (n / 10) * 10 + n % 10);
        assert((n / 10) * 10 + n % 10 == n) by (nonlinear_arith);
        assert(n / 10 >= 1);
        assert(nat_dec_seq(n)[0] == s[0]);
    }
}

/// Growing a digit run on the right never shrinks its value.
pub proof fn lemma_dec_val_prefix(s: Seq<char>, k: int)
    requires
        0 <= k < s.len(),
    ensures
        dec_val(s.subrange(0, k)) <= dec_val(s.subrange(0, k + 1)),
        dec_val(s.subrange(0, k + 1)) == dec_val(s.subrange(0, k)) * 10 + digit_val(s[k]),
{
    assert(s.subrange(0, k + 1).drop_last() =~= s.subrange(0, k));
    assert(s.subrange(0, k + 1).last() == s[k]);
    assert(dec_val(s.subrange(0, k)) * 10 >= dec_val(s.subrange(0, k)));
}

/// A digit run is worth at least any of its prefixes.
pub proof fn lemma_dec_val_monotone(s: Seq<char>, k: int)
    requires
        0 <= k <= s.len(),
    ensures
        dec_val(s.subrange(0, k)) <= dec_val(s),
    decreases s.len() - k,
{
    if k == s.len() {
        assert(s.subrange(0, k) =~= s);
    } else {
        lemma_dec_val_prefix(s, k);
        lemma_dec_val_monotone(s, k + 1);
    }
}

/// Read a nonempty all-digit string as an `i64`; `None` exactly when the
/// string is empty, holds a non-digit, or its value does not fit.
pub fn dec_to_i64(s: &str) -> (r: Option<i64>)
    ensures
        match r {
            Some(v) => {
                &&& s@.len() > 0
                &&& all_digits(s@)
                &&& dec_val(s@) <= i64::MAX
                &&& v == dec_val(s@)
            },
            None => s@.len() == 0 || !all_digits(s@) || dec_val(s@) > i64::MAX,
        },
{
    let len = s.unicode_len();
    if len == 0 {
        return None;
    }
    let mut acc: u64 = 0;
    let mut i: usize = 0;
    while i < len
        invariant
            i <= len,
            len == s@.len(),
            acc == dec_val(s@.subrange(0, i as int)),
            acc <= i64::MAX,
            forall|j: int| 0 <= j < i ==> is_digit_char(s@[j]),
        decreases len - i,
    {
        let c = s.get_char(i);
        let cv = c as u32;
        if cv < 48 || cv > 57 {
            return None;
        }
        let d = (cv - 48) as u64;
        proof {
            lemma_dec_val_prefix(s@, i as int);
        }
        let next = match acc.checked_mul(10) {
            Some(m) => m.checked_add(d),
            None => None,
        };
        match next {
            Some(v) => {
                if v > 0x7fff_ffff_ffff_ffff_u64 {
                    proof {
                        lemma_dec_val_monotone(s@, i + 1);
                    }
                    return None;
                }
                acc = v;
            },
            None => {
                proof {
                    lemma_dec_val_monotone(s@, i + 1);
                }
                return None;
            },
        }
        i += 1;
    }
    proof {
        assert(s@.subrange(0, len as int) =~= s@);
    }
    Some(acc as i64)
}

/// Render an `i64` as its canonical decimal text.
pub fn i64_to_string(n: i64) -> (r: String)
    ensures
        r@ == int_dec_seq(n as int),
{
    let neg = n < 0;
    // The magnitude, computed so that `i64::MIN` stays in range.
    let mut m: u64 = if n < 0 {
        (-(n + 1)) as u64 + 1
    } else {
        n as u64
    };
    let ghost mag = m;
    proof {
        assert(mag as int == if n < 0 { -(n as int) } else { n as int });
    }
    let mut rev: Vec<char> = Vec::new();
    if m == 0 {
        rev.push('0');
        proof {
            assert(digit_char(0) == '0');
            assert(nat_dec_seq(mag as nat) =~= rev@.reverse());
        }
    } else {
        while m > 0
            invariant
                rev@.len() == 0 ==> m == mag,
                rev@.len() > 0 && m > 0 ==> nat_dec_seq(mag as nat) =~= nat_dec_seq(m as nat)
                    + rev@.reverse(),
                rev@.len() > 0 && m == 0 ==> nat_dec_seq(mag as nat) =~= rev@.reverse(),
            decreases m,
        {
            let ghost m0 = m as nat;
            let ghost rev0 = rev@;
            let d = (m % 10) as u8;
            let c = (48 + d) as char;
            rev.push(c);
            m = m / 10;
            proof {
                assert(m as nat == m0 / 10);
                assert(c == digit_char(m0 % 10));
                assert(rev@.reverse() =~= seq![c] + rev0.reverse());
                if m0 < 10 {
                    assert(nat_dec_seq(m0) =~= seq![c]);
                } else {
                    assert(nat_dec_seq(m0) == nat_dec_seq(m0 / 10).push(digit_char(m0 % 10)));
                    assert(nat_dec_seq(m0) =~= nat_dec_seq(m0 / 10) + seq![c]);
                }
                if rev0.len() == 0 {
                    if m0 >= 10 {
                        assert(nat_dec_seq(mag as nat) =~= nat_dec_seq(m as nat) + rev@.reverse());
                    } else {
                        assert(nat_dec_seq(mag as nat) =~= rev@.reverse());
                    }
                } else {
                    if m0 >= 10 {
                        assert(nat_dec_seq(m0) + rev0.reverse() =~= nat_dec_seq(m0 / 10) + (seq![c]
                            + rev0.reverse()));
                        assert(nat_dec_seq(mag as nat) =~= nat_dec_seq(m as nat) + rev@.reverse());
                    } else {
                        assert(nat_dec_seq(m0) + rev0.reverse() =~= seq![c] + rev0.reverse());
                        assert(nat_dec_seq(mag as nat) =~= rev@.reverse());
                    }
                }
            }
        }
    }
    let mut out: Vec<char> = Vec::new();
    if neg {
        out.push('-');
    }
    let ghost lead: int = if neg { 1int } else { 0int };
    let mut i: usize = rev.len();
    while i > 0
        invariant
            i <= rev.len(),
            out@.len() == lead + (rev@.len() - i),
            neg ==> out@.len() >= 1 && out@[0] == '-',
            lead == if neg { 1int } else { 0int },
            forall|k: int| lead <= k < out@.len() ==> #[trigger] out@[k] == rev@[rev@.len() - 1
                - (k - lead)],
        decreases i,
    {
        i -= 1;
        out.push(rev[i]);
    }
    proof {
        assert(nat_dec_seq(mag as nat) =~= rev@.reverse());
        assert(out@ =~= int_dec_seq(n as int));
    }
    chars_to_string(&out)
}

} // verus!
