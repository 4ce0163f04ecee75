//! Decimal and dotted-quad rendering with exact contracts: each function's
//! output is pinned to a spec-level character sequence, so log lines and
//! command-line arguments built from these are themselves exactly specified.

use vstd::prelude::*;

verus! {

use vstd::string::StringExecFns;

/// The character for one decimal digit.
pub open spec fn digit_char(d: int) -> char {
    if d == 0 {
        '0'
    } else if d == 1 {
        '1'
    } else if d == 2 {
        '2'
    } else if d == 3 {
        '3'
    } else if d == 4 {
        '4'
    } else if d == 5 {
        '5'
    } else if d == 6 {
        '6'
    } else if d == 7 {
        '7'
    } else if d == 8 {
        '8'
    } else {
        '9'
    }
}

/// Decimal rendering of a number, most significant digit first, no leading
/// zeroes (a lone zero for 0).
pub open spec fn dec_chars(n: nat) -> Seq<char>
    decreases n,
{
    if n < 10 {
        seq![digit_char(n as int)]
    } else {
        dec_chars(n / 10).push(digit_char((n % 10) as int))
    }
}

fn digit_str(d: u64) -> (s: &'static str)
    requires
        d < 10,
    ensures
        s@ == seq![digit_char(d as int)],
{
    if d == 0 {
        let s = "0";
        proof {
            reveal_strlit("0");
            assert(s@ =~= seq![digit_char(0)]);
        }
        s
    } else if d == 1 {
        let s = "1";
        proof {
            reveal_strlit("1");
            assert(s@ =~= seq![digit_char(1)]);
        }
        s
    } else if d == 2 {
        let s = "2";
        proof {
            reveal_strlit("2");
            assert(s@ =~= seq![digit_char(2)]);
        }
        s
    } else if d == 3 {
        let s = "3";
        proof {
            reveal_strlit("3");
            assert(s@ =~= seq![digit_char(3)]);
        }
        s
    } else if d == 4 {
        let s = "4";
        proof {
            reveal_strlit("4");
            assert(s@ =~= seq![digit_char(4)]);
        }
        s
    } else if d == 5 {
        let s = "5";
        proof {
            reveal_strlit("5");
            assert(s@ =~= seq![digit_char(5)]);
        }
        s
    } else if d == 6 {
        let s = "6";
        proof {
            reveal_strlit("6");
            assert(s@ =~= seq![digit_char(6)]);
        }
        s
    } else if d == 7 {
        let s = "7";
        proof {
            reveal_strlit("7");
            assert(s@ =~= seq![digit_char(7)]);
        }
        s
    } else if d == 8 {
        let s = "8";
        proof {
            reveal_strlit("8");
            assert(s@ =~= seq![digit_char(8)]);
        }
        s
    } else {
        let s = "9";
        proof {
            reveal_strlit("9");
            assert(s@ =~= seq![digit_char(9)]);
        }
        s
    }
}

/// Render `n` in decimal.
pub fn u64_to_dec(n: u64) -> (s: String)
    ensures
        s@ == dec_chars(n as nat),
    decreases n,
{
    if n < 10 {
        let s: String = digit_str(n).to_owned();
        s
    } else {
        let mut s = u64_to_dec(n / 10);
        s.append(digit_str(n % 10));
        s
    }
}

/// Append `suffix` to `s`.
pub fn append_str(s: &mut String, suffix: &str)
    ensures
        final(s)@ == old(s)@ + suffix@,
{
    s.append(suffix);
}

/// The dotted-quad rendering of four octets.
pub open spec fn ip_chars(o0: u8, o1: u8, o2: u8, o3: u8) -> Seq<char> {
    dec_chars(o0 as nat) + seq!['.'] + dec_chars(o1 as nat) + seq!['.'] + dec_chars(o2 as nat)
        + seq!['.'] + dec_chars(o3 as nat)
}

/// Render four octets as a dotted quad.
pub fn ip_to_dec(o0: u8, o1: u8, o2: u8, o3: u8) -> (s: String)
    ensures
        s@ == ip_chars(o0, o1, o2, o3),
{
    let mut s = u64_to_dec(o0 as u64);
    let dot = ".";
    proof {
        reveal_strlit(".");
        assert(dot@ =~= seq!['.']);
    }
    append_str(&mut s, dot);
    let p1 = u64_to_dec(o1 as u64);
    append_str(&mut s, p1.as_str());
    append_str(&mut s, dot);
    let p2 = u64_to_dec(o2 as u64);
    append_str(&mut s, p2.as_str());
    append_str(&mut s, dot);
    let p3 = u64_to_dec(o3 as u64);
    append_str(&mut s, p3.as_str());
    proof {
        assert(s@ =~= ip_chars(o0, o1, o2, o3));
    }
    s
}

/// The numeric value of one decimal digit character.
pub open spec fn digit_val(c: char) -> int {
    c as int - 48
}

/// Is every character a decimal digit?
pub open spec fn all_digits(s: Seq<char>) -> bool {
    forall|j: int| 0 <= j < s.len() ==> '0' <= #[trigger] s[j] <= '9'
}

/// The number a digit string spells, most significant digit first.
pub open spec fn digits_value(s: Seq<char>) -> int
    decreases s.len(),
{
    if s.len() == 0 {
        0
    } else {
        digits_value(s.drop_last()) * 10 + digit_val(s.last())
    }
}

/// A rendered number is all digits, and at least one of them.
pub proof fn lemma_dec_chars_digits(n: nat)
    ensures
        all_digits(dec_chars(n)),
        dec_chars(n).len() >= 1,
    decreases n,
{
    if n < 10 {
        assert('0' <= digit_char(n as int) <= '9');
    } else {
        lemma_dec_chars_digits(n / 10);
        let s = dec_chars(n);
        assert('0' <= digit_char((n % 10) as int) <= '9');
        assert forall|j: int| 0 <= j < s.len() implies '0' <= #[trigger] s[j] <= '9' by {
            if j < s.len() - 1 {
                assert(s[j] == dec_chars(n / 10)[j]);
            }
        }
    }
}

/// Reading the rendered digits back gives the number.
pub proof fn lemma_digits_value_dec(n: nat)
    ensures
        digits_value(dec_chars(n)) == n,
    decreases n,
{
    if n < 10 {
        assert(dec_chars(n) == seq![digit_char(n as int)]);
        assert(dec_chars(n).drop_last() =~= Seq::<char>::empty());
        assert(dec_chars(n).last() == digit_char(n as int));
        assert(digits_value(Seq::<char>::empty()) == 0);
        assert(digits_value(dec_chars(n)) == digits_value(dec_chars(n).drop_last()) * 10
            + digit_val(dec_chars(n).last()));
        assert(digit_val(digit_char(n as int)) == n);
    } else {
        lemma_digits_value_dec(n / 10);
        let s = dec_chars(n);
        assert(s.drop_last() =~= dec_chars(n / 10));
        assert(s.last() == digit_char((n % 10) as int));
        assert(digit_val(digit_char((n % 10) as int)) == n % 10);
        assert(digits_value(s) == digits_value(s.drop_last()) * 10 + digit_val(s.last()));
        assert(digits_value(s) == (n / 10) * 10 + (n % 10));
        assert(n == (n / 10) * 10 + (n % 10)) by (nonlinear_arith);
    }
}

/// A digit string's value is never negative.
pub proof fn lemma_digits_value_nonneg(s: Seq<char>)
    requires
        all_digits(s),
    ensures
        digits_value(s) >= 0,
    decreases s.len(),
{
    if s.len() > 0 {
        assert(forall|j: int|
            0 <= j < s.drop_last().len() ==> '0' <= #[trigger] s.drop_last()[j] <= '9');
        lemma_digits_value_nonneg(s.drop_last());
    }
}

/// A prefix of a digit string never spells more than the whole.
pub proof fn lemma_digits_prefix_le(s: Seq<char>, k: int)
    requires
        all_digits(s),
        0 <= k <= s.len(),
    ensures
        digits_value(s.subrange(0, k)) <= digits_value(s),
    decreases s.len() - k,
{
    if k < s.len() {
        assert(s.subrange(0, k + 1).drop_last() =~= s.subrange(0, k));
        assert(s.subrange(0, k + 1).last() == s[k]);
        assert(forall|j: int|
            0 <= j < s.subrange(0, k).len() ==> '0' <= #[trigger] s.subrange(0, k)[j] <= '9');
        lemma_digits_value_nonneg(s.subrange(0, k));
        assert(digits_value(s.subrange(0, k + 1)) == digits_value(s.subrange(0, k)) * 10
            + digit_val(s[k]));
        lemma_digits_prefix_le(s, k + 1);
    } else {
        assert(s.subrange(0, k) =~= s);
    }
}

} // verus!
