//! Decimal text: parsing integer tokens and rendering integers, both related
//! to a single spec-level digit-string valuation.

use vstd::prelude::*;

verus! {

pub open spec fn is_digit(c: char) -> bool {
    48 <= c as u32 <= 57
}

pub open spec fn digit_val(c: char) -> int {
    c as u32 - 48
}

pub open spec fn all_digits(s: Seq<char>) -> bool {
    forall|i: int| 0 <= i < s.len() ==> is_digit(#[trigger] s[i])
}

/// Value of a digit string, most significant digit first.
pub open spec fn digits_val(s: Seq<char>) -> int
    decreases s.len(),
{
    if s.len() == 0 {
        0
    } else {
        digits_val(s.drop_last()) * 10 + digit_val(s.last())
    }
}

pub proof fn lemma_digits_val_nonneg(s: Seq<char>)
    requires
        all_digits(s),
    ensures
        digits_val(s) >= 0,
    decreases s.len(),
{
    if s.len() > 0 {
        assert(forall|i: int| 0 <= i < s.drop_last().len() ==> is_digit(#[trigger] s.drop_last()[i]));
        lemma_digits_val_nonneg(s.drop_last());
    }
}

/// Appending one digit multiplies the value by ten and adds the digit.
pub proof fn lemma_digits_val_step(s: Seq<char>, i: int)
    requires
        0 <= i < s.len(),
    ensures
        digits_val(s.take(i + 1)) == digits_val(s.take(i)) * 10 + digit_val(s[i]),
{
    assert(s.take(i + 1).drop_last() =~= s.take(i));
    assert(s.take(i + 1).last() == s[i]);
}

/// A digit string is worth at least any of its prefixes.
pub proof fn lemma_digits_val_prefix_le(s: Seq<char>, i: int)
    requires
        all_digits(s),
        0 <= i <= s.len(),
    ensures
        digits_val(s.take(i)) <= digits_val(s),
    decreases s.len() - i,
{
    if i == s.len() {
        assert(s.take(i) =~= s);
    } else {
        assert(forall|j: int| 0 <= j < s.take(i).len() ==> is_digit(#[trigger] s.take(i)[j]));
        lemma_digits_val_nonneg(s.take(i));
        lemma_digits_val_step(s, i);
        lemma_digits_val_prefix_le(s, i + 1);
    }
}

/// The digit run of an unsigned decimal token: an optional leading `+` is
/// skipped, as Rust's unsigned integer parsing accepts it.
pub open spec fn unsigned_body(s: Seq<char>) -> Seq<char> {
    if s.len() > 0 && s[0] == '+' {
        s.skip(1)
    } else {
        s
    }
}

/// What `str::parse::<u32>` accepts and returns: an optional `+`, then one or
/// more digits, whose value fits in the type.
pub open spec fn parse_u32(s: Seq<char>) -> Option<u32> {
    let t = unsigned_body(s);
    if t.len() > 0 && all_digits(t) && digits_val(t) <= u32::MAX {
        Some(digits_val(t) as u32)
    } else {
        None
    }
}

/// The digit run of a signed decimal token (after `+` or `-`).
pub open spec fn signed_body(s: Seq<char>) -> Seq<char> {
    if s.len() > 0 && (s[0] == '+' || s[0] == '-') {
        s.skip(1)
    } else {
        s
    }
}

/// What `str::parse::<i64>` accepts and returns.
pub open spec fn parse_i64(s: Seq<char>) -> Option<i64> {
    let neg = s.len() > 0 && s[0] == '-';
    let t = signed_body(s);
    if t.len() > 0 && all_digits(t) {
        let v = digits_val(t);
        if neg && v <= 0x8000_0000_0000_0000 {
            Some((-v) as i64)
        } else if !neg && v <= i64::MAX {
            Some(v as i64)
        } else {
            None
        }
    } else {
        None
    }
}

fn char_is_digit(c: char) -> (r: bool)
    ensures
        r == is_digit(c),
{
    let v = c as u32;
    48 <= v && v <= 57
}

/// Accumulate the digits `s[from..to]`, or report that one of them is not a
/// digit or that the value exceeds `max`.
fn digits_value_up_to(s: &Vec<char>, from: usize, to: usize, max: u64) -> (r: Option<u64>)
    requires
        from <= to <= s@.len(),
        max <= 0x8000_0000_0000_0000,
    ensures
        match r {
            Some(v) => all_digits(s@.subrange(from as int, to as int)) && v == digits_val(
                s@.subrange(from as int, to as int),
            ) && v <= max,
            None => !(all_digits(s@.subrange(from as int, to as int)) && digits_val(
                s@.subrange(from as int, to as int),
            ) <= max),
        },
{
    let ghost t = s@.subrange(from as int, to as int);
    let mut i: usize = from;
    while i < to
        invariant
            from <= i <= to <= s@.len(),
            t == s@.subrange(from as int, to as int),
            forall|j: int| 0 <= j < i - from ==> is_digit(#[trigger] t[j]),
        decreases to - i,
    {
        if !char_is_digit(s[i]) {
            assert(t[i - from] == s@[i as int]);
            return None;
        }
        assert(t[i - from] == s@[i as int]);
        i = i + 1;
    }
    assert(all_digits(t));
    let mut acc: u64 = 0;
    i = from;
    while i < to
        invariant
            from <= i <= to <= s@.len(),
            t == s@.subrange(from as int, to as int),
            all_digits(t),
            max <= 0x8000_0000_0000_0000,
            acc == digits_val(t.take(i - from)),
            acc <= max,
        decreases to - i,
    {
        proof {
            assert(t[i - from] == s@[i as int]);
            lemma_digits_val_step(t, i - from);
            lemma_digits_val_nonneg(t.take(i - from));
        }
        let d = (s[i] as u32 - 48) as u64;
        let next: u128 = acc as u128 * 10 + d as u128;
        if next > max as u128 {
            proof {
                lemma_digits_val_prefix_le(t, i - from + 1);
            }
            return None;
        }
        acc = next as u64;
        i = i + 1;
    }
    assert(t.take(to - from) =~= t);
    Some(acc)
}

/// `str::parse::<u32>` on a character sequence.
pub fn parse_u32_x(s: &Vec<char>) -> (r: Option<u32>)
    ensures
        r == parse_u32(s@),
{
    let start: usize = if s.len() > 0 && s[0] == '+' {
        1
    } else {
        0
    };
    assert(s@.subrange(start as int, s@.len() as int) =~= unsigned_body(s@));
    if start == s.len() {
        return None;
    }
    match digits_value_up_to(s, start, s.len(), u32::MAX as u64) {
        Some(v) => Some(v as u32),
        None => None,
    }
}

/// `str::parse::<i64>` on a character sequence.
pub fn parse_i64_x(s: &Vec<char>) -> (r: Option<i64>)
    ensures
        r == parse_i64(s@),
{
    let neg = s.len() > 0 && s[0] == '-';
    let start: usize = if s.len() > 0 && (s[0] == '+' || s[0] == '-') {
        1
    } else {
        0
    };
    assert(s@.subrange(start as int, s@.len() as int) =~= signed_body(s@));
    if start == s.len() {
        return None;
    }
    if neg {
        match digits_value_up_to(s, start, s.len(), 0x8000_0000_0000_0000) {
            Some(v) => {
                if v == 0x8000_0000_0000_0000 {
                    Some(i64::MIN)
                } else {
                    Some(-((v) as i64))
                }
            },
            None => None,
        }
    } else {
        match digits_value_up_to(s, start, s.len(), i64::MAX as u64) {
            Some(v) => Some(v as i64),
            None => None,
        }
    }
}

pub open spec fn digit_char(d: int) -> char {
    if d == 0 {
        '0'
    } else if d == 1 {
        '1'
    } else if d == 2 {
        '2'
    } else if d == 3 {
        '3'
    } else if d == 4 {
        '4'
    } else if d == 5 {
        '5'
    } else if d == 6 {
        '6'
    } else if d == 7 {
        '7'
    } else if d == 8 {
        '8'
    } else {
        '9'
    }
}

/// Decimal rendering of a nonnegative integer, no padding, no sign.
pub open spec fn dec_str(n: int) -> Seq<char>
    decreases n,
{
    if n < 10 {
        seq![digit_char(n)]
    } else {
        dec_str(n / 10).push(digit_char(n % 10))
    }
}

/// Two-digit rendering with a leading zero (for minutes and ISO month/day).
pub open spec fn dec2_str(n: int) -> Seq<char> {
    if n < 10 {
        seq!['0'].push(digit_char(n))
    } else {
        dec_str(n)
    }
}

/// Four-digit rendering with leading zeros (for ISO years).
pub open spec fn dec4_str(n: int) -> Seq<char> {
    if n < 10 {
        seq!['0', '0', '0'] + dec_str(n)
    } else if n < 100 {
        seq!['0', '0'] + dec_str(n)
    } else if n < 1000 {
        seq!['0'] + dec_str(n)
    } else {
        dec_str(n)
    }
}

/// Decimal renderings hold digits only.
pub proof fn lemma_dec_str_digits(n: int)
    requires
        n >= 0,
    ensures
        all_digits(dec_str(n)),
        dec_str(n).len() >= 1,
    decreases n,
{
    if n >= 10 {
        lemma_dec_str_digits(n / 10);
        assert forall|i: int| 0 <= i < dec_str(n).len() implies is_digit(#[trigger] dec_str(n)[i]) by {
            if i < dec_str(n).len() - 1 {
                assert(dec_str(n)[i] == dec_str(n / 10)[i]);
            }
        }
    }
}

/// Parsing a decimal rendering gives the number back.
pub proof fn lemma_dec_str_val(n: int)
    requires
        n >= 0,
    ensures
        digits_val(dec_str(n)) == n,
    decreases n,
{
    if n < 10 {
        assert(dec_str(n).drop_last() =~= Seq::<char>::empty());
        assert(digits_val(Seq::<char>::empty()) == 0);
        assert(digit_val(digit_char(n)) == n);
    } else {
        lemma_dec_str_val(n / 10);
        assert(dec_str(n).drop_last() =~= dec_str(n / 10));
        assert(dec_str(n).last() == digit_char(n % 10));
        assert(digit_val(digit_char(n % 10)) == n % 10);
    }
}

/// Numbers below one hundred render as at most two digits.
pub proof fn lemma_dec_str_len2(n: int)
    requires
        0 <= n < 100,
    ensures
        dec_str(n).len() <= 2,
{
    if n >= 10 {
        assert(dec_str(n / 10).len() == 1);
    }
}

/// Append one decimal digit to a string.
pub fn push_digit(s: &mut String, d: u64)
    requires
        d < 10,
    ensures
        final(s)@ == old(s)@ + seq![digit_char(d as int)],
{
    if d == 0 {
        proof {
            reveal_strlit("0");
        }
        s.append("0");
        assert(final(s)@ =~= old(s)@ + seq![digit_char(d as int)]);
    } else if d == 1 {
        proof {
            reveal_strlit("1");
        }
        s.append("1");
        assert(final(s)@ =~= old(s)@ + seq![digit_char(d as int)]);
    } else if d == 2 {
        proof {
            reveal_strlit("2");
        }
        s.append("2");
        assert(final(s)@ =~= old(s)@ + seq![digit_char(d as int)]);
    } else if d == 3 {
        proof {
            reveal_strlit("3");
        }
        s.append("3");
        assert(final(s)@ =~= old(s)@ + seq![digit_char(d as int)]);
    } else if d == 4 {
        proof {
            reveal_strlit("4");
        }
        s.append("4");
        assert(final(s)@ =~= old(s)@ + seq![digit_char(d as int)]);
    } else if d == 5 {
        proof {
            reveal_strlit("5");
        }
        s.append("5");
        assert(final(s)@ =~= old(s)@ + seq![digit_char(d as int)]);
    } else if d == 6 {
        proof {
            reveal_strlit("6");
        }
        s.append("6");
        assert(final(s)@ =~= old(s)@ + seq![digit_char(d as int)]);
    } else if d == 7 {
        proof {
            reveal_strlit("7");
        }
        s.append("7");
        assert(final(s)@ =~= old(s)@ + seq![digit_char(d as int)]);
    } else if d == 8 {
        proof {
            reveal_strlit("8");
        }
        s.append("8");
        assert(final(s)@ =~= old(s)@ + seq![digit_char(d as int)]);
    } else {
        proof {
            reveal_strlit("9");
        }
        s.append("9");
        assert(final(s)@ =~= old(s)@ + seq![digit_char(d as int)]);
    }
}

/// Append the decimal rendering of `n`.
pub fn push_dec(s: &mut String, n: u64)
    ensures
        final(s)@ == old(s)@ + dec_str(n as int),
    decreases n,
{
    if n >= 10 {
        push_dec(s, n / 10);
        push_digit(s, n % 10);
        assert(final(s)@ =~= old(s)@ + dec_str(n as int));
    } else {
        push_digit(s, n);
    }
}

/// Append the two-digit rendering of `n`.
pub fn push_dec2(s: &mut String, n: u64)
    ensures
        final(s)@ == old(s)@ + dec2_str(n as int),
{
    if n < 10 {
        push_digit(s, 0);
        push_digit(s, n);
        assert(final(s)@ =~= old(s)@ + dec2_str(n as int));
    } else {
        push_dec(s, n);
    }
}

/// Append the four-digit rendering of `n`.
pub fn push_dec4(s: &mut String, n: u64)
    ensures
        final(s)@ == old(s)@ + dec4_str(n as int),
{
    if n < 10 {
        push_digit(s, 0);
        push_digit(s, 0);
        push_digit(s, 0);
        push_dec(s, n);
        assert(final(s)@ =~= old(s)@ + dec4_str(n as int));
    } else if n < 100 {
        push_digit(s, 0);
        push_digit(s, 0);
        push_dec(s, n);
        assert(final(s)@ =~= old(s)@ + dec4_str(n as int));
    } else if n < 1000 {
        push_digit(s, 0);
        push_dec(s, n);
        assert(final(s)@ =~= old(s)@ + dec4_str(n as int));
    } else {
        push_dec(s, n);
    }
}

} // verus!
