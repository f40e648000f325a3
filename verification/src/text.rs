//! Character-sequence utilities: trimming, whitespace splitting, splitting on
//! a separator, and case-insensitive comparison, each with an exact spec.

use vstd::prelude::*;

verus! {

/// The ASCII whitespace characters recognised between and around tokens.
pub open spec fn is_space(c: char) -> bool {
    c == ' ' || c == '\t' || c == '\n' || c == '\r' || c == '\u{b}' || c == '\u{c}'
}

fn char_is_space(c: char) -> (r: bool)
    ensures
        r == is_space(c),
{
    c == ' ' || c == '\t' || c == '\n' || c == '\r' || c == '\u{b}' || c == '\u{c}'
}

pub open spec fn skip_spaces(s: Seq<char>) -> Seq<char>
    decreases s.len(),
{
    if s.len() > 0 && is_space(s[0]) {
        skip_spaces(s.skip(1))
    } else {
        s
    }
}

pub open spec fn trim_end_spaces(s: Seq<char>) -> Seq<char>
    decreases s.len(),
{
    if s.len() > 0 && is_space(s.last()) {
        trim_end_spaces(s.drop_last())
    } else {
        s
    }
}

/// Leading and trailing whitespace removed.
pub open spec fn trim_spaces(s: Seq<char>) -> Seq<char> {
    trim_end_spaces(skip_spaces(s))
}

/// End of the whitespace-free token starting at `i`: the first index at or
/// after `i` holding whitespace, or the end of the sequence.
pub open spec fn token_end(s: Seq<char>, i: int) -> int
    decreases s.len() - i,
{
    if i < 0 || i >= s.len() || is_space(s[i]) {
        i
    } else {
        token_end(s, i + 1)
    }
}

pub proof fn lemma_token_end(s: Seq<char>, i: int)
    requires
        0 <= i <= s.len(),
    ensures
        i <= token_end(s, i) <= s.len(),
        i < s.len() && !is_space(s[i]) ==> token_end(s, i) > i,
    decreases s.len() - i,
{
    if i < s.len() && !is_space(s[i]) {
        lemma_token_end(s, i + 1);
    }
}

/// The whitespace-separated tokens of `s[i..]`, in order.
pub open spec fn split_ws_from(s: Seq<char>, i: int) -> Seq<Seq<char>>
    decreases s.len() - i,
    via split_ws_from_dec
{
    if i < 0 || i >= s.len() {
        seq![]
    } else if is_space(s[i]) {
        split_ws_from(s, i + 1)
    } else {
        seq![s.subrange(i, token_end(s, i))] + split_ws_from(s, token_end(s, i))
    }
}

#[via_fn]
proof fn split_ws_from_dec(s: Seq<char>, i: int) {
    if 0 <= i < s.len() && !is_space(s[i]) {
        lemma_token_end(s, i);
    }
}

/// What `str::split_whitespace` yields (for ASCII whitespace).
pub open spec fn split_ws(s: Seq<char>) -> Seq<Seq<char>> {
    split_ws_from(s, 0)
}

/// First index at or after `i` holding the separator, or the end.
pub open spec fn sep_end(s: Seq<char>, sep: char, i: int) -> int
    decreases s.len() - i,
{
    if i < 0 || i >= s.len() || s[i] == sep {
        i
    } else {
        sep_end(s, sep, i + 1)
    }
}

pub proof fn lemma_sep_end(s: Seq<char>, sep: char, i: int)
    requires
        0 <= i <= s.len(),
    ensures
        i <= sep_end(s, sep, i) <= s.len(),
    decreases s.len() - i,
{
    if i < s.len() && s[i] != sep {
        lemma_sep_end(s, sep, i + 1);
    }
}

/// The parts of `s[i..]` between occurrences of `sep`; empty parts included,
/// as with `str::split`.
pub open spec fn split_char_from(s: Seq<char>, sep: char, i: int) -> Seq<Seq<char>>
    decreases s.len() - i,
    via split_char_from_dec
{
    if i < 0 || i > s.len() {
        seq![]
    } else {
        let j = sep_end(s, sep, i);
        if j >= s.len() {
            seq![s.subrange(i, s.len() as int)]
        } else {
            seq![s.subrange(i, j)] + split_char_from(s, sep, j + 1)
        }
    }
}

#[via_fn]
proof fn split_char_from_dec(s: Seq<char>, sep: char, i: int) {
    if 0 <= i <= s.len() {
        lemma_sep_end(s, sep, i);
    }
}

/// What `str::split(sep)` yields.
pub open spec fn split_char(s: Seq<char>, sep: char) -> Seq<Seq<char>> {
    split_char_from(s, sep, 0)
}

pub open spec fn contains_char(s: Seq<char>, c: char) -> bool {
    exists|i: int| 0 <= i < s.len() && s[i] == c
}

/// What `str::trim` leaves of a string.
pub uninterp spec fn trimmed_of(s: Seq<char>) -> Seq<char>;

/// What `str::to_lowercase` turns a string into.
pub uninterp spec fn lower_of(s: Seq<char>) -> Seq<char>;

/// Relies on str::trim: yields the input without leading and trailing
/// whitespace; the result depends on the characters alone, and an empty
/// string stays empty.
#[verifier::external_body]
pub(crate) fn trim_str(s: &str) -> (r: String)
    ensures
        r@ == trimmed_of(s@),
        s@.len() == 0 ==> r@.len() == 0,
{
    s.trim().to_owned()
}

/// Relies on str::to_lowercase: yields the Unicode lowercase of the input;
/// the result depends on the characters alone, and an empty string stays
/// empty.
#[verifier::external_body]
pub(crate) fn lower_str(s: &str) -> (r: String)
    ensures
        r@ == lower_of(s@),
        s@.len() == 0 ==> r@.len() == 0,
{
    s.to_lowercase()
}

/// The characters of a `&str`, as a vector.
pub fn to_char_vec(s: &str) -> (r: Vec<char>)
    ensures
        r@ == s@,
{
    let n = s.unicode_len();
    let mut r: Vec<char> = Vec::new();
    let mut i: usize = 0;
    while i < n
        invariant
            i <= n == s@.len(),
            r@ == s@.take(i as int),
        decreases n - i,
    {
        r.push(s.get_char(i));
        assert(r@ =~= s@.take(i + 1));
        i = i + 1;
    }
    assert(r@ =~= s@);
    r
}

/// A copy of `s[from..to]`.
pub fn subvec(s: &Vec<char>, from: usize, to: usize) -> (r: Vec<char>)
    requires
        from <= to <= s@.len(),
    ensures
        r@ == s@.subrange(from as int, to as int),
{
    let mut r: Vec<char> = Vec::new();
    let mut i: usize = from;
    while i < to
        invariant
            from <= i <= to <= s@.len(),
            r@ == s@.subrange(from as int, i as int),
        decreases to - i,
    {
        r.push(s[i]);
        assert(r@ =~= s@.subrange(from as int, i + 1));
        i = i + 1;
    }
    r
}

/// Whether `s[from..to]` equals the characters of `p`.
pub fn chars_eq_str(s: &Vec<char>, from: usize, to: usize, p: &str) -> (r: bool)
    requires
        from <= to <= s@.len(),
    ensures
        r == (s@.subrange(from as int, to as int) == p@),
{
    let n = p.unicode_len();
    if to - from != n {
        return false;
    }
    let mut i: usize = 0;
    while i < n
        invariant
            i <= n == p@.len(),
            n == to - from,
            from <= to <= s@.len(),
            forall|j: int| 0 <= j < i ==> s@.subrange(from as int, to as int)[j] == p@[j],
        decreases n - i,
    {
        if s[from + i] != p.get_char(i) {
            assert(s@.subrange(from as int, to as int)[i as int] != p@[i as int]);
            return false;
        }
        assert(s@.subrange(from as int, to as int)[i as int] == p@[i as int]);
        i = i + 1;
    }
    assert(s@.subrange(from as int, to as int) =~= p@);
    true
}

/// Whether the whole vector equals the characters of `p`.
pub fn vec_eq_str(s: &Vec<char>, p: &str) -> (r: bool)
    ensures
        r == (s@ == p@),
{
    let r = chars_eq_str(s, 0, s.len(), p);
    proof {
        assert(s@.subrange(0, s@.len() as int) =~= s@);
    }
    r
}

/// Leading and trailing ASCII whitespace removed.
pub fn trim_spaces_x(s: &Vec<char>) -> (r: Vec<char>)
    ensures
        r@ == trim_spaces(s@),
{
    let len = s.len();
    let mut lo: usize = 0;
    assert(s@.skip(0) =~= s@);
    while lo < len && char_is_space(s[lo])
        invariant
            lo <= len == s@.len(),
            skip_spaces(s@) == skip_spaces(s@.skip(lo as int)),
        decreases len - lo,
    {
        assert(s@.skip(lo as int).skip(1) =~= s@.skip(lo + 1));
        lo = lo + 1;
    }
    assert(skip_spaces(s@) =~= s@.skip(lo as int));
    let mut hi: usize = len;
    while hi > lo && char_is_space(s[hi - 1])
        invariant
            lo <= hi <= len == s@.len(),
            skip_spaces(s@) == s@.skip(lo as int),
            trim_end_spaces(s@.skip(lo as int)) == trim_end_spaces(
                s@.subrange(lo as int, hi as int),
            ),
        decreases hi,
    {
        assert(s@.subrange(lo as int, hi as int).last() == s@[hi - 1]);
        assert(s@.subrange(lo as int, hi as int).drop_last() =~= s@.subrange(lo as int, hi - 1));
        hi = hi - 1;
    }
    proof {
        if hi > lo {
            assert(s@.subrange(lo as int, hi as int).last() == s@[hi - 1]);
        }
        assert(trim_end_spaces(s@.subrange(lo as int, hi as int)) == s@.subrange(
            lo as int,
            hi as int,
        ));
    }
    subvec(s, lo, hi)
}

/// The whitespace-separated tokens of `s`.
pub fn split_ws_x(s: &Vec<char>) -> (r: Vec<Vec<char>>)
    ensures
        r@.map_values(|t: Vec<char>| t@) == split_ws(s@),
{
    let len = s.len();
    let mut toks: Vec<Vec<char>> = Vec::new();
    let mut i: usize = 0;
    while i < len
        invariant
            i <= len == s@.len(),
            split_ws(s@) == toks@.map_values(|t: Vec<char>| t@) + split_ws_from(s@, i as int),
        decreases len - i,
    {
        if char_is_space(s[i]) {
            i = i + 1;
        } else {
            let mut j: usize = i;
            while j < len && !char_is_space(s[j])
                invariant
                    i <= j <= len == s@.len(),
                    token_end(s@, i as int) == token_end(s@, j as int),
                decreases len - j,
            {
                j = j + 1;
            }
            assert(token_end(s@, j as int) == j);
            let tok = subvec(s, i, j);
            proof {
                assert(split_ws_from(s@, i as int) == seq![s@.subrange(i as int, j as int)]
                    + split_ws_from(s@, j as int));
            }
            let ghost old_toks = toks@;
            toks.push(tok);
            proof {
                assert(toks@.map_values(|t: Vec<char>| t@) =~= old_toks.map_values(
                    |t: Vec<char>| t@,
                ).push(s@.subrange(i as int, j as int)));
                assert(old_toks.map_values(|t: Vec<char>| t@).push(
                    s@.subrange(i as int, j as int),
                ) + split_ws_from(s@, j as int) =~= old_toks.map_values(|t: Vec<char>| t@) + (seq![
                    s@.subrange(i as int, j as int),
                ] + split_ws_from(s@, j as int)));
            }
            i = j;
        }
    }
    assert(toks@.map_values(|t: Vec<char>| t@) =~= toks@.map_values(|t: Vec<char>| t@)
        + split_ws_from(s@, len as int));
    toks
}

/// The parts of `s` between occurrences of `sep`.
pub fn split_char_x(s: &Vec<char>, sep: char) -> (r: Vec<Vec<char>>)
    ensures
        r@.map_values(|t: Vec<char>| t@) == split_char(s@, sep),
{
    let len = s.len();
    let mut parts: Vec<Vec<char>> = Vec::new();
    let mut i: usize = 0;
    loop
        invariant_except_break
            i <= len == s@.len(),
            split_char(s@, sep) == parts@.map_values(|t: Vec<char>| t@) + split_char_from(
                s@,
                sep,
                i as int,
            ),
        ensures
            split_char(s@, sep) == parts@.map_values(|t: Vec<char>| t@),
        decreases len - i,
    {
        let mut j: usize = i;
        while j < len && s[j] != sep
            invariant
                i <= j <= len == s@.len(),
                sep_end(s@, sep, i as int) == sep_end(s@, sep, j as int),
            decreases len - j,
        {
            j = j + 1;
        }
        assert(sep_end(s@, sep, j as int) == j);
        let part = subvec(s, i, j);
        let ghost old_parts = parts@;
        parts.push(part);
        proof {
            if j >= len {
                assert(split_char_from(s@, sep, i as int) == seq![
                    s@.subrange(i as int, len as int),
                ]);
                assert(parts@.map_values(|t: Vec<char>| t@) =~= old_parts.map_values(
                    |t: Vec<char>| t@,
                ) + split_char_from(s@, sep, i as int));
            } else {
                assert(split_char_from(s@, sep, i as int) == seq![s@.subrange(i as int, j as int)]
                    + split_char_from(s@, sep, j + 1));
                assert(parts@.map_values(|t: Vec<char>| t@) + split_char_from(s@, sep, j + 1)
                    =~= old_parts.map_values(|t: Vec<char>| t@) + split_char_from(
                    s@,
                    sep,
                    i as int,
                ));
            }
        }
        if j == len {
            proof {
                assert(split_char(s@, sep) =~= parts@.map_values(|t: Vec<char>| t@));
            }
            break ;
        }
        i = j + 1;
    }
    parts
}

/// How many times `c` occurs in `s`.
pub open spec fn count_char(s: Seq<char>, c: char) -> int
    decreases s.len(),
{
    if s.len() == 0 {
        0
    } else {
        count_char(s.drop_last(), c) + if s.last() == c {
            1int
        } else {
            0int
        }
    }
}

pub fn count_char_x(s: &Vec<char>, c: char) -> (r: usize)
    ensures
        r == count_char(s@, c),
{
    let len = s.len();
    let mut n: usize = 0;
    let mut i: usize = 0;
    while i < len
        invariant
            i <= len == s@.len(),
            n <= i,
            n == count_char(s@.take(i as int), c),
        decreases len - i,
    {
        proof {
            assert(s@.take(i + 1).drop_last() =~= s@.take(i as int));
            assert(s@.take(i + 1).last() == s@[i as int]);
        }
        if s[i] == c {
            n = n + 1;
        }
        i = i + 1;
    }
    assert(s@.take(len as int) =~= s@);
    n
}

pub fn contains_char_x(s: &Vec<char>, c: char) -> (r: bool)
    ensures
        r == contains_char(s@, c),
{
    let len = s.len();
    let mut i: usize = 0;
    while i < len
        invariant
            i <= len == s@.len(),
            forall|j: int| 0 <= j < i ==> s@[j] != c,
        decreases len - i,
    {
        if s[i] == c {
            return true;
        }
        i = i + 1;
    }
    false
}

/// A token is bounded by the first whitespace character after it, or the end.
pub proof fn lemma_token_end_at(s: Seq<char>, i: int, j: int)
    requires
        0 <= i <= j <= s.len(),
        forall|k: int| i <= k < j ==> !is_space(#[trigger] s[k]),
        j == s.len() || is_space(s[j]),
    ensures
        token_end(s, i) == j,
    decreases j - i,
{
    if i < j {
        lemma_token_end_at(s, i + 1, j);
    }
}

/// A sequence without whitespace is a single token.
pub proof fn lemma_split_ws_single(s: Seq<char>)
    requires
        s.len() > 0,
        forall|i: int| 0 <= i < s.len() ==> !is_space(#[trigger] s[i]),
    ensures
        split_ws(s) == seq![s],
{
    lemma_token_end_at(s, 0, s.len() as int);
    assert(!is_space(s[0]));
    assert(s.subrange(0, s.len() as int) =~= s);
    assert(split_ws_from(s, s.len() as int) =~= Seq::<Seq<char>>::empty());
    assert(split_ws(s) =~= seq![s]);
}

/// A sequence without leading or trailing whitespace trims to itself.
pub proof fn lemma_trim_id(s: Seq<char>)
    requires
        s.len() == 0 || (!is_space(s[0]) && !is_space(s.last())),
    ensures
        trim_spaces(s) == s,
{
}

/// The separator is first found exactly where nothing before it holds one.
pub proof fn lemma_sep_end_at(s: Seq<char>, c: char, i: int, j: int)
    requires
        0 <= i <= j <= s.len(),
        forall|k: int| i <= k < j ==> s[k] != c,
        j == s.len() || s[j] == c,
    ensures
        sep_end(s, c, i) == j,
    decreases j - i,
{
    if i < j {
        lemma_sep_end_at(s, c, i + 1, j);
    }
}

/// Splitting `a + sep + b` on `sep`, when neither side holds the separator,
/// gives exactly the two sides.
pub proof fn lemma_split_char_pair(s: Seq<char>, sep: char, a: Seq<char>, b: Seq<char>)
    requires
        s == a + seq![sep] + b,
        forall|i: int| 0 <= i < a.len() ==> a[i] != sep,
        forall|i: int| 0 <= i < b.len() ==> b[i] != sep,
    ensures
        split_char(s, sep) == seq![a, b],
{
    let al = a.len() as int;
    let n = s.len() as int;
    assert(s[al] == sep);
    assert forall|k: int| 0 <= k < al implies s[k] != sep by {
        assert(s[k] == a[k]);
    }
    assert forall|k: int| al + 1 <= k < n implies s[k] != sep by {
        assert(s[k] == b[k - al - 1]);
    }
    lemma_sep_end_at(s, sep, 0, al);
    lemma_sep_end_at(s, sep, al + 1, n);
    assert(s.subrange(0, al) =~= a);
    assert(s.subrange(al + 1, n) =~= b);
    assert(split_char_from(s, sep, al + 1) == seq![b]);
    assert(split_char(s, sep) =~= seq![a, b]);
}

/// The numeric value of a character with ASCII upper case folded to lower.
pub open spec fn lower_val(c: char) -> int {
    if 65 <= c as u32 <= 90 {
        c as u32 + 32
    } else {
        c as u32 as int
    }
}

/// ASCII-case-insensitive equality of character sequences, as
/// `str::eq_ignore_ascii_case` compares.
pub open spec fn eq_ignore_case(a: Seq<char>, b: Seq<char>) -> bool {
    a.len() == b.len() && forall|i: int| 0 <= i < a.len() ==> lower_val(a[i]) == lower_val(
        #[trigger] b[i],
    )
}

fn chars_eq_ci(a: char, b: char) -> (r: bool)
    ensures
        r == (lower_val(a) == lower_val(b)),
{
    let x = a as u32;
    let y = b as u32;
    let xl = if 65 <= x && x <= 90 {
        x + 32
    } else {
        x
    };
    let yl = if 65 <= y && y <= 90 {
        y + 32
    } else {
        y
    };
    xl == yl
}

/// ASCII-case-insensitive equality of two strings.
pub fn str_eq_ignore_case(a: &str, b: &str) -> (r: bool)
    ensures
        r == eq_ignore_case(a@, b@),
{
    let n = a.unicode_len();
    if b.unicode_len() != n {
        return false;
    }
    let mut i: usize = 0;
    while i < n
        invariant
            i <= n == a@.len(),
            n == b@.len(),
            forall|j: int| 0 <= j < i ==> lower_val(a@[j]) == lower_val(#[trigger] b@[j]),
        decreases n - i,
    {
        if !chars_eq_ci(a.get_char(i), b.get_char(i)) {
            return false;
        }
        i = i + 1;
    }
    true
}

/// Whether `a` comes no later than `b` in code-point lexicographic order, as
/// `str::cmp` orders strings.
pub open spec fn lex_le(a: Seq<char>, b: Seq<char>) -> bool
    decreases a.len(),
{
    if a.len() == 0 {
        true
    } else if b.len() == 0 {
        false
    } else if (a[0] as u32) < (b[0] as u32) {
        true
    } else if (a[0] as u32) > (b[0] as u32) {
        false
    } else {
        lex_le(a.skip(1), b.skip(1))
    }
}

/// Any two sequences are lexicographically comparable.
pub proof fn lemma_lex_le_total(a: Seq<char>, b: Seq<char>)
    ensures
        lex_le(a, b) || lex_le(b, a),
    decreases a.len(),
{
    if a.len() > 0 && b.len() > 0 && (a[0] as u32) == (b[0] as u32) {
        lemma_lex_le_total(a.skip(1), b.skip(1));
    }
}

/// Lexicographic order is transitive.
pub proof fn lemma_lex_le_trans(a: Seq<char>, b: Seq<char>, c: Seq<char>)
    ensures
        lex_le(a, b) && lex_le(b, c) ==> lex_le(a, c),
    decreases a.len(),
{
    if lex_le(a, b) && lex_le(b, c) && a.len() > 0 {
        if b.len() > 0 && c.len() > 0 && (a[0] as u32) == (b[0] as u32) && (b[0] as u32) == (
        c[0] as u32) {
            lemma_lex_le_trans(a.skip(1), b.skip(1), c.skip(1));
        }
    }
}

/// Lexicographic comparison of two strings.
pub fn lex_le_x(a: &str, b: &str) -> (r: bool)
    ensures
        r == lex_le(a@, b@),
{
    let an = a.unicode_len();
    let bn = b.unicode_len();
    let mut i: usize = 0;
    proof {
        assert(a@.skip(0) =~= a@);
        assert(b@.skip(0) =~= b@);
    }
    while i < an && i < bn
        invariant
            i <= an == a@.len(),
            i <= bn == b@.len(),
            lex_le(a@, b@) == lex_le(a@.skip(i as int), b@.skip(i as int)),
            lex_le(b@, a@) == lex_le(b@.skip(i as int), a@.skip(i as int)),
        decreases an - i,
    {
        let ca = a.get_char(i) as u32;
        let cb = b.get_char(i) as u32;
        proof {
            assert(a@.skip(i as int)[0] == a@[i as int]);
            assert(b@.skip(i as int)[0] == b@[i as int]);
        }
        if ca < cb {
            return true;
        }
        if ca > cb {
            return false;
        }
        proof {
            assert(a@.skip(i as int).skip(1) =~= a@.skip(i + 1));
            assert(b@.skip(i as int).skip(1) =~= b@.skip(i + 1));
        }
        i = i + 1;
    }
    i == an
}

} // verus!
