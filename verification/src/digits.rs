//! Decimal digit strings: the mathematical model of the decimal notation
//! used in remote object names, the executable renderer for snapshot ids and
//! log sequence numbers, and the executable parser that recovers a value
//! from a digit run.

use vstd::prelude::*;

verus! {

use vstd::arithmetic::div_mod::lemma_fundamental_div_mod;

/// An ASCII decimal digit.
pub open spec fn is_ascii_digit(c: char) -> bool {
    48 <= c as u32 && c as u32 <= 57
}

/// The numeric value of an ASCII decimal digit.
pub open spec fn digit_val(c: char) -> nat {
    (c as u32 - 48) as nat
}

/// The ASCII character for a single decimal digit.
pub open spec fn digit_char(d: nat) -> char {
    if d == 0 {
        '0'
    } else if d == 1 {
        '1'
    } else if d == 2 {
        '2'
    } else if d == 3 {
        '3'
    } else if d == 4 {
        '4'
    } else if d == 5 {
        '5'
    } else if d == 6 {
        '6'
    } else if d == 7 {
        '7'
    } else if d == 8 {
        '8'
    } else {
        '9'
    }
}

/// Every character of `s` is an ASCII decimal digit.
pub open spec fn all_digits(s: Seq<char>) -> bool {
    forall|i: int| 0 <= i < s.len() ==> is_ascii_digit(#[trigger] s[i])
}

/// The canonical decimal notation of `n`: no sign, no leading zero
/// (except for `n == 0` itself).
pub open spec fn dec_digits(n: nat) -> Seq<char>
    decreases n,
{
    if n < 10 {
        seq![digit_char(n)]
    } else {
        dec_digits(n / 10).push(digit_char(n % 10))
    }
}

/// The value denoted by a string of decimal digits, most significant first.
pub open spec fn digits_val(s: Seq<char>) -> nat
    decreases s.len(),
{
    if s.len() == 0 {
        0
    } else {
        digits_val(s.drop_last()) * 10 + digit_val(s.last())
    }
}

/// The value a digit run parses to, if it is non-empty, all digits, and
/// fits in `u128`; decimal notation with leading zeros is accepted.
pub open spec fn parse_digits_spec(s: Seq<char>) -> Option<u128> {
    if s.len() > 0 && all_digits(s) && digits_val(s) <= u128::MAX {
        Some(digits_val(s) as u128)
    } else {
        None
    }
}

proof fn lemma_digit_char_val(d: nat)
    requires
        d < 10,
    ensures
        is_ascii_digit(digit_char(d)),
        digit_val(digit_char(d)) == d,
{
}

/// Rendering a value and reading the digits back returns the value:
/// `dec_digits(n)` is a non-empty, all-digit string denoting `n`.
pub proof fn lemma_dec_digits(n: nat)
    ensures
        dec_digits(n).len() >= 1,
        all_digits(dec_digits(n)),
        digits_val(dec_digits(n)) == n,
    decreases n,
{
    if n < 10 {
        lemma_digit_char_val(n);
        assert(dec_digits(n) =~= seq![digit_char(n)]);
        assert(dec_digits(n).drop_last() =~= Seq::<char>::empty());
        assert(digits_val(Seq::<char>::empty()) == 0);
        assert(dec_digits(n).last() == digit_char(n));
        assert(digits_val(dec_digits(n)) == digits_val(Seq::<char>::empty()) * 10 + digit_val(
            digit_char(n),
        ));
    } else {
        lemma_dec_digits(n / 10);
        lemma_digit_char_val(n % 10);
        let s = dec_digits(n / 10).push(digit_char(n % 10));
        assert(s.drop_last() =~= dec_digits(n / 10));
        assert(s.last() == digit_char(n % 10));
        assert forall|i: int| 0 <= i < s.len() implies is_ascii_digit(#[trigger] s[i]) by {
            if i < s.len() - 1 {
                assert(s[i] == dec_digits(n / 10)[i]);
            } else {
                assert(s[i] == digit_char(n % 10));
            }
        }
        assert(digits_val(s) == digits_val(dec_digits(n / 10)) * 10 + digit_val(
            digit_char(n % 10),
        ));
        lemma_fundamental_div_mod(n as int, 10);
        assert(digits_val(s) == (n / 10) * 10 + n % 10);
    }
}

/// A prefix of a digit string never denotes more than the whole string.
pub proof fn lemma_digits_val_prefix_le(s: Seq<char>, k: int)
    requires
        0 <= k <= s.len(),
    ensures
        digits_val(s.take(k)) <= digits_val(s),
    decreases s.len() - k,
{
    if k == s.len() {
        assert(s.take(k) =~= s);
    } else {
        lemma_digits_val_prefix_le(s, k + 1);
        let t = s.take(k + 1);
        assert(t.drop_last() =~= s.take(k));
        assert(digits_val(s.take(k)) <= digits_val(s.take(k)) * 10 + digit_val(t.last()));
    }
}

/// The length of the longest prefix of `s` made of ASCII decimal digits.
pub open spec fn digit_run_len(s: Seq<char>) -> nat
    decreases s.len(),
{
    if s.len() == 0 || !is_ascii_digit(s[0]) {
        0
    } else {
        1 + digit_run_len(s.drop_first())
    }
}

/// `digit_run_len` is the unique boundary `k` with all of `s[..k]` digits
/// and `s[k]`, if it exists, not a digit.
pub proof fn lemma_digit_run_len_is(s: Seq<char>, k: int)
    requires
        0 <= k <= s.len(),
        forall|i: int| 0 <= i < k ==> is_ascii_digit(#[trigger] s[i]),
        k == s.len() || !is_ascii_digit(s[k]),
    ensures
        digit_run_len(s) == k,
    decreases s.len(),
{
    if k == 0 {
    } else {
        lemma_digit_run_len_is(s.drop_first(), k - 1);
    }
}

/// Executable digit test agreeing with the spec-level one.
pub fn is_digit_char(c: char) -> (b: bool)
    ensures
        b == is_ascii_digit(c),
{
    let u = c as u32;
    48 <= u && u <= 57
}

/// One decimal digit as a string slice.
fn digit_str(d: u128) -> (s: &'static str)
    requires
        d < 10,
    ensures
        s@ =~= seq![digit_char(d as nat)],
{
    proof {
        reveal_strlit("0");
        reveal_strlit("1");
        reveal_strlit("2");
        reveal_strlit("3");
        reveal_strlit("4");
        reveal_strlit("5");
        reveal_strlit("6");
        reveal_strlit("7");
        reveal_strlit("8");
        reveal_strlit("9");
    }
    if d == 0 {
        "0"
    } else if d == 1 {
        "1"
    } else if d == 2 {
        "2"
    } else if d == 3 {
        "3"
    } else if d == 4 {
        "4"
    } else if d == 5 {
        "5"
    } else if d == 6 {
        "6"
    } else if d == 7 {
        "7"
    } else if d == 8 {
        "8"
    } else {
        "9"
    }
}

/// Render `n` in canonical decimal notation.
pub fn u128_to_dec_string(n: u128) -> (s: String)
    ensures
        s@ == dec_digits(n as nat),
    decreases n,
{
    if n < 10 {
        let s = String::from_str(digit_str(n));
        s
    } else {
        let mut s = u128_to_dec_string(n / 10);
        s.append(digit_str(n % 10));
        proof {
            assert(s@ =~= dec_digits((n / 10) as nat).push(digit_char((n % 10) as nat)));
        }
        s
    }
}

/// Scan forward from `from` over ASCII digits; the result is the end of
/// the digit run beginning at `from`.
pub fn digit_run_end(s: &str, from: usize) -> (r: usize)
    requires
        from <= s@.len(),
    ensures
        from <= r <= s@.len(),
        r - from == digit_run_len(s@.skip(from as int)),
{
    let len = s.unicode_len();
    let mut i = from;
    loop
        invariant_except_break
            from <= i <= len,
            len == s@.len(),
            forall|j: int| from <= j < i ==> is_ascii_digit(#[trigger] s@[j]),
        ensures
            from <= i <= len,
            len == s@.len(),
            forall|j: int| from <= j < i ==> is_ascii_digit(#[trigger] s@[j]),
            i == len || !is_ascii_digit(s@[i as int]),
        decreases len - i,
    {
        if i == len {
            break;
        }
        if !is_digit_char(s.get_char(i)) {
            break;
        }
        i = i + 1;
    }
    proof {
        let tail = s@.skip(from as int);
        assert forall|j: int| 0 <= j < i - from implies is_ascii_digit(#[trigger] tail[j]) by {
            assert(tail[j] == s@[from + j]);
        }
        if i < len {
            assert(tail[i - from] == s@[i as int]);
        }
        lemma_digit_run_len_is(tail, i - from);
    }
    i
}

/// Parse the characters of `s` in `[from, to)` as a decimal number.
/// Returns exactly what `parse_digits_spec` denotes on that range.
pub fn parse_digits_range(s: &str, from: usize, to: usize) -> (r: Option<u128>)
    requires
        from <= to <= s@.len(),
    ensures
        r == parse_digits_spec(s@.subrange(from as int, to as int)),
{
    let ghost range = s@.subrange(from as int, to as int);
    if from == to {
        return None;
    }
    let mut value: u128 = 0;
    let mut i: usize = from;
    while i < to
        invariant
            from <= i <= to <= s@.len(),
            range == s@.subrange(from as int, to as int),
            to > from,
            all_digits(range.take(i - from)),
            value == digits_val(range.take(i - from)),
        decreases to - i,
    {
        let c = s.get_char(i);
        proof {
            assert(range[i - from] == c);
        }
        if !is_digit_char(c) {
            proof {
                assert(!all_digits(range));
            }
            return None;
        }
        let d = (c as u32 - 48) as u128;
        let next = match value.checked_mul(10) {
            Some(v) => v.checked_add(d),
            None => None,
        };
        proof {
            assert(range.take(i - from + 1).drop_last() =~= range.take(i - from));
            assert(range.take(i - from + 1).last() == c);
            assert(digits_val(range.take(i - from + 1)) == value * 10 + digit_val(c));
        }
        match next {
            Some(v) => {
                value = v;
            },
            None => {
                proof {
                    lemma_digits_val_prefix_le(range, i - from + 1);
                }
                return None;
            },
        }
        i = i + 1;
    }
    proof {
        assert(range.take(to - from) =~= range);
    }
    Some(value)
}

} // verus!
