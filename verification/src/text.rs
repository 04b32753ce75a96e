//! Character-level text handling shared by the asset parsers: white space,
//! trimming, tokenising, decimal integers and ASCII case folding.

use vstd::prelude::*;

verus! {

broadcast use vstd::string::group_string_axioms;

// ── White space ─────────────────────────────────────────────────────────────

/// Unicode `White_Space` property (the set that `char::is_whitespace` tests).
pub open spec fn is_ws(c: char) -> bool {
    let v = c as u32;
    ||| 9 <= v <= 13
    ||| v == 0x20
    ||| v == 0x85
    ||| v == 0xA0
    ||| v == 0x1680
    ||| 0x2000 <= v <= 0x200A
    ||| v == 0x2028
    ||| v == 0x2029
    ||| v == 0x202F
    ||| v == 0x205F
    ||| v == 0x3000
}

/// Whether `c` is Unicode white space.
pub fn is_whitespace(c: char) -> (r: bool)
    ensures
        r == is_ws(c),
{
    let v = c as u32;
    (9 <= v && v <= 13) || v == 0x20 || v == 0x85 || v == 0xA0 || v == 0x1680 || (0x2000 <= v
        && v <= 0x200A) || v == 0x2028 || v == 0x2029 || v == 0x202F || v == 0x205F || v == 0x3000
}

/// The views of a sequence of character vectors.
pub open spec fn views(v: Seq<Vec<char>>) -> Seq<Seq<char>> {
    v.map_values(|x: Vec<char>| x@)
}

/// The characters of `s`, in order.
pub fn to_chars(s: &str) -> (r: Vec<char>)
    ensures
        r@ == s@,
{
    let mut out: Vec<char> = Vec::new();
    for c in it: s.chars()
        invariant
            out@ == it.seq().take(it.index()),
    {
        out.push(c);
    }
    out
}

/// A copy of `cs[a..b]`.
pub fn copy_range(cs: &Vec<char>, a: usize, b: usize) -> (r: Vec<char>)
    requires
        a <= b <= cs@.len(),
    ensures
        r@ == cs@.subrange(a as int, b as int),
{
    let mut out: Vec<char> = Vec::new();
    let mut k = a;
    while k < b
        invariant
            a <= k <= b <= cs@.len(),
            out@ == cs@.subrange(a as int, k as int),
        decreases b - k,
    {
        out.push(cs[k]);
        k = k + 1;
        assert(out@ =~= cs@.subrange(a as int, k as int));
    }
    out
}

// ── Trimming ────────────────────────────────────────────────────────────────

/// First position at or after `i` that does not hold white space.
pub open spec fn skip_ws(s: Seq<char>, i: int) -> int
    decreases s.len() - i,
{
    if 0 <= i < s.len() && is_ws(s[i]) {
        skip_ws(s, i + 1)
    } else {
        i
    }
}

/// End of the trailing white-space run of `s[lo..j]`, counted back from `j`.
pub open spec fn trim_back(s: Seq<char>, lo: int, j: int) -> int
    decreases j - lo,
{
    if lo < j <= s.len() && is_ws(s[j - 1]) {
        trim_back(s, lo, j - 1)
    } else {
        j
    }
}

/// `s` without its leading and trailing white space (what `str::trim` gives).
pub open spec fn trim(s: Seq<char>) -> Seq<char> {
    let a = skip_ws(s, 0);
    s.subrange(a, trim_back(s, a, s.len() as int))
}

pub proof fn lemma_skip_ws_bounds(s: Seq<char>, i: int)
    requires
        0 <= i <= s.len(),
    ensures
        i <= skip_ws(s, i) <= s.len(),
        skip_ws(s, i) < s.len() ==> !is_ws(s[skip_ws(s, i)]),
        forall|k: int| i <= k < skip_ws(s, i) ==> is_ws(#[trigger] s[k]),
    decreases s.len() - i,
{
    if i < s.len() && is_ws(s[i]) {
        lemma_skip_ws_bounds(s, i + 1);
    }
}

pub proof fn lemma_trim_back_bounds(s: Seq<char>, lo: int, j: int)
    requires
        0 <= lo <= j <= s.len(),
    ensures
        lo <= trim_back(s, lo, j) <= j,
        lo < trim_back(s, lo, j) ==> !is_ws(s[trim_back(s, lo, j) - 1]),
        forall|k: int| trim_back(s, lo, j) <= k < j ==> is_ws(#[trigger] s[k]),
    decreases j - lo,
{
    if lo < j && is_ws(s[j - 1]) {
        lemma_trim_back_bounds(s, lo, j - 1);
    }
}

/// Bounds `[a, b)` of `trim(cs[start..end])` inside `cs`.
pub fn trim_range(cs: &Vec<char>, start: usize, end: usize) -> (r: (usize, usize))
    requires
        start <= end <= cs@.len(),
    ensures
        start <= r.0 <= r.1 <= end,
        cs@.subrange(r.0 as int, r.1 as int) == trim(cs@.subrange(start as int, end as int)),
{
    let ghost s = cs@.subrange(start as int, end as int);
    let mut i = start;
    while i < end && is_whitespace(cs[i])
        invariant
            start <= i <= end <= cs@.len(),
            s == cs@.subrange(start as int, end as int),
            skip_ws(s, (i - start) as int) == skip_ws(s, 0),
        decreases end - i,
    {
        assert(s[(i - start) as int] == cs@[i as int]);
        i = i + 1;
    }
    proof {
        if i < end {
            assert(s[(i - start) as int] == cs@[i as int]);
        }
        assert(skip_ws(s, 0) == (i - start) as int);
    }
    let mut j = end;
    while j > i && is_whitespace(cs[j - 1])
        invariant
            start <= i <= j <= end <= cs@.len(),
            s == cs@.subrange(start as int, end as int),
            skip_ws(s, 0) == (i - start) as int,
            trim_back(s, (i - start) as int, (j - start) as int) == trim_back(
                s,
                (i - start) as int,
                s.len() as int,
            ),
        decreases j,
    {
        assert(s[(j - 1 - start) as int] == cs@[j - 1]);
        j = j - 1;
    }
    proof {
        if j > i {
            assert(s[(j - 1 - start) as int] == cs@[j - 1]);
        }
        assert(trim_back(s, (i - start) as int, (j - start) as int) == (j - start) as int);
        assert(cs@.subrange(i as int, j as int) =~= s.subrange(
            (i - start) as int,
            (j - start) as int,
        ));
    }
    (i, j)
}

// ── Tokens separated by white space ─────────────────────────────────────────

/// End of the run of non-white-space characters that starts at `i`.
pub open spec fn word_end(s: Seq<char>, i: int) -> int
    decreases s.len() - i,
{
    if 0 <= i < s.len() && !is_ws(s[i]) {
        word_end(s, i + 1)
    } else {
        i
    }
}

pub proof fn lemma_word_end_bounds(s: Seq<char>, i: int)
    requires
        0 <= i <= s.len(),
    ensures
        i <= word_end(s, i) <= s.len(),
        word_end(s, i) < s.len() ==> is_ws(s[word_end(s, i)]),
        forall|k: int| i <= k < word_end(s, i) ==> !is_ws(#[trigger] s[k]),
    decreases s.len() - i,
{
    if i < s.len() && !is_ws(s[i]) {
        lemma_word_end_bounds(s, i + 1);
    }
}

/// The white-space separated words of `s[i..]`, in order (what
/// `str::split_whitespace` yields).
pub open spec fn tokens_from(s: Seq<char>, i: int) -> Seq<Seq<char>>
    decreases s.len() - i,
{
    if i < 0 || i >= s.len() {
        seq![]
    } else if is_ws(s[i]) {
        tokens_from(s, i + 1)
    } else {
        let b = word_end(s, i);
        proof {
            lemma_word_end_bounds(s, i);
        }
        seq![s.subrange(i, b)] + tokens_from(s, b)
    }
}

/// The white-space separated words of `s`.
pub open spec fn tokens(s: Seq<char>) -> Seq<Seq<char>> {
    tokens_from(s, 0)
}

/// End of the word of `cs` that starts at `i`.
pub fn word_end_exec(cs: &Vec<char>, i: usize) -> (j: usize)
    requires
        i <= cs@.len(),
    ensures
        j as int == word_end(cs@, i as int),
{
    let mut j = i;
    while j < cs.len() && !is_whitespace(cs[j])
        invariant
            i <= j <= cs@.len(),
            word_end(cs@, j as int) == word_end(cs@, i as int),
        decreases cs@.len() - j,
    {
        j = j + 1;
    }
    j
}

/// The white-space separated words of `cs`.
pub fn split_whitespace(cs: &Vec<char>) -> (r: Vec<Vec<char>>)
    ensures
        views(r@) == tokens(cs@),
{
    let mut out: Vec<Vec<char>> = Vec::new();
    let mut i: usize = 0;
    while i < cs.len()
        invariant
            i <= cs@.len(),
            views(out@) + tokens_from(cs@, i as int) == tokens(cs@),
        decreases cs@.len() - i,
    {
        if is_whitespace(cs[i]) {
            i = i + 1;
        } else {
            let j = word_end_exec(cs, i);
            proof {
                lemma_word_end_bounds(cs@, i as int);
            }
            let w = copy_range(cs, i, j);
            let ghost before = out@;
            out.push(w);
            proof {
                assert(views(out@) =~= views(before).push(w@));
                assert(views(out@) + tokens_from(cs@, j as int) =~= views(before) + (seq![
                    cs@.subrange(i as int, j as int),
                ] + tokens_from(cs@, j as int)));
            }
            i = j;
        }
    }
    proof {
        assert(views(out@) + tokens_from(cs@, i as int) =~= views(out@));
    }
    out
}

// ── Decimal integers ────────────────────────────────────────────────────────

/// The character of decimal digit `d`.
pub open spec fn digit_char(d: nat) -> char {
    (48 + d) as char
}

/// Decimal representation of `n` (what `Display` prints for an unsigned integer).
pub open spec fn decimal(n: nat) -> Seq<char>
    decreases n,
{
    if n < 10 {
        seq![digit_char(n)]
    } else {
        decimal(n / 10).push(digit_char(n % 10))
    }
}

/// Appends `c` to `s` (`String::push`).
#[verifier::external_body]
pub(crate) fn push_char(s: &mut String, c: char)
    ensures
        final(s)@ == old(s)@.push(c),
{
    s.push(c)
}

/// Appends the decimal representation of `n` to `out`.
pub fn push_decimal(out: &mut String, n: u128)
    ensures
        final(out)@ == old(out)@ + decimal(n as nat),
    decreases n,
{
    if n >= 10 {
        push_decimal(out, n / 10);
    }
    let d = (n % 10) as u8;
    let c = (48u8 + d) as char;
    assert(c == digit_char((n % 10) as nat));
    push_char(out, c);
    proof {
        if n >= 10 {
            assert(old(out)@ + decimal(n as nat) =~= old(out)@ + decimal((n / 10) as nat) + seq![c]);
        } else {
            assert(old(out)@ + decimal(n as nat) =~= old(out)@.push(c));
        }
    }
}

/// Appends the characters of `cs` to `out`.
pub fn push_chars(out: &mut String, cs: &Vec<char>)
    ensures
        final(out)@ == old(out)@ + cs@,
{
    let mut k: usize = 0;
    while k < cs.len()
        invariant
            k <= cs@.len(),
            out@ == old(out)@ + cs@.subrange(0, k as int),
        decreases cs@.len() - k,
    {
        push_char(out, cs[k]);
        k = k + 1;
        assert(out@ =~= old(out)@ + cs@.subrange(0, k as int));
    }
    assert(cs@.subrange(0, cs@.len() as int) =~= cs@);
}

/// Whether `c` is an ASCII decimal digit.
pub open spec fn is_digit(c: char) -> bool {
    48 <= c as u32 <= 57
}

/// Value of a run of ASCII decimal digits.
pub open spec fn digits_value(s: Seq<char>) -> nat
    decreases s.len(),
{
    if s.len() == 0 {
        0
    } else {
        digits_value(s.drop_last()) * 10 + ((s.last() as u32) - 48) as nat
    }
}

/// Every character of `s` is an ASCII decimal digit.
pub open spec fn all_digits(s: Seq<char>) -> bool {
    forall|i: int| 0 <= i < s.len() ==> is_digit(#[trigger] s[i])
}

/// `s` after the optional leading sign that integer parsing accepts.
pub open spec fn unsigned_digits(s: Seq<char>) -> Seq<char> {
    if s.len() > 0 && s[0] == '+' {
        s.drop_first()
    } else {
        s
    }
}

/// What `s.parse::<u32>()` gives: an optional `+`, then one or more ASCII
/// digits whose value fits in a `u32`.
pub open spec fn parse_u32_spec(s: Seq<char>) -> Option<u32> {
    let d = unsigned_digits(s);
    if d.len() > 0 && all_digits(d) && digits_value(d) <= u32::MAX {
        Some(digits_value(d) as u32)
    } else {
        None
    }
}

/// The digits of `s` after an optional `+` or `-`.
pub open spec fn signed_digits(s: Seq<char>) -> Seq<char> {
    if s.len() > 0 && (s[0] == '+' || s[0] == '-') {
        s.drop_first()
    } else {
        s
    }
}

/// Signed value denoted by `s`, before the range check.
pub open spec fn signed_value(s: Seq<char>) -> int {
    if s.len() > 0 && s[0] == '-' {
        -(digits_value(signed_digits(s)) as int)
    } else {
        digits_value(signed_digits(s)) as int
    }
}

/// What `s.parse::<i32>()` gives: an optional `+` or `-`, then one or more
/// ASCII digits whose signed value fits in an `i32`.
pub open spec fn parse_i32_spec(s: Seq<char>) -> Option<i32> {
    let d = signed_digits(s);
    if d.len() > 0 && all_digits(d) && i32::MIN <= signed_value(s) <= i32::MAX {
        Some(signed_value(s) as i32)
    } else {
        None
    }
}

proof fn lemma_digits_prefix_monotone(s: Seq<char>, k: int)
    requires
        0 <= k <= s.len(),
        all_digits(s),
    ensures
        digits_value(s.take(k)) <= digits_value(s),
    decreases s.len() - k,
{
    if k < s.len() {
        lemma_digits_prefix_monotone(s, k + 1);
        assert(s.take(k + 1).drop_last() =~= s.take(k));
    } else {
        assert(s.take(k) =~= s);
    }
}

/// Value of the digits `cs[a..b]` when they are all ASCII digits and the
/// value is at most `limit`; `None` otherwise.
fn digits_up_to(cs: &Vec<char>, a: usize, b: usize, limit: u64) -> (r: Option<u64>)
    requires
        a <= b <= cs@.len(),
        limit <= u32::MAX + 1,
    ensures
        r == (if all_digits(cs@.subrange(a as int, b as int)) && digits_value(
            cs@.subrange(a as int, b as int),
        ) <= limit {
            Some(digits_value(cs@.subrange(a as int, b as int)) as u64)
        } else {
            None::<u64>
        }),
{
    let ghost s = cs@.subrange(a as int, b as int);
    let mut acc: u64 = 0;
    let mut k = a;
    while k < b
        invariant
            a <= k <= b <= cs@.len(),
            s == cs@.subrange(a as int, b as int),
            limit <= u32::MAX + 1,
            all_digits(s.take((k - a) as int)),
            acc as nat == digits_value(s.take((k - a) as int)),
            acc <= limit,
        decreases b - k,
    {
        let c = cs[k];
        let v = c as u32;
        if v < 48 || v > 57 {
            assert(s[(k - a) as int] == c);
            assert(!all_digits(s));
            return None;
        }
        let next = acc * 10 + (v - 48) as u64;
        proof {
            let t = s.take((k - a + 1) as int);
            assert(t.drop_last() =~= s.take((k - a) as int));
            assert(t.last() == c);
            assert(digits_value(t) == next as nat);
            assert forall|i: int| 0 <= i < t.len() implies is_digit(#[trigger] t[i]) by {
                if i < t.len() - 1 {
                    assert(t[i] == s.take((k - a) as int)[i]);
                }
            }
        }
        if next > limit {
            proof {
                if all_digits(s) {
                    lemma_digits_prefix_monotone(s, (k - a + 1) as int);
                }
            }
            return None;
        }
        acc = next;
        k = k + 1;
    }
    assert(s.take((k - a) as int) =~= s);
    Some(acc)
}

/// `s.parse::<u32>()` for the characters `cs[a..b]`.
pub fn parse_u32_range(cs: &Vec<char>, a: usize, b: usize) -> (r: Option<u32>)
    requires
        a <= b <= cs@.len(),
    ensures
        r == parse_u32_spec(cs@.subrange(a as int, b as int)),
{
    let ghost s = cs@.subrange(a as int, b as int);
    let mut start = a;
    if a < b && cs[a] == '+' {
        start = a + 1;
        assert(s.drop_first() =~= cs@.subrange(start as int, b as int));
    } else {
        assert(s =~= cs@.subrange(start as int, b as int));
    }
    if start == b {
        return None;
    }
    match digits_up_to(cs, start, b, 0xFFFF_FFFF) {
        Some(v) => Some(v as u32),
        None => None,
    }
}

/// `s.parse::<i32>()` for the characters `cs[a..b]`.
pub fn parse_i32_range(cs: &Vec<char>, a: usize, b: usize) -> (r: Option<i32>)
    requires
        a <= b <= cs@.len(),
    ensures
        r == parse_i32_spec(cs@.subrange(a as int, b as int)),
{
    let ghost s = cs@.subrange(a as int, b as int);
    let mut start = a;
    let mut neg = false;
    if a < b && (cs[a] == '+' || cs[a] == '-') {
        neg = cs[a] == '-';
        start = a + 1;
        assert(s.drop_first() =~= cs@.subrange(start as int, b as int));
    } else {
        assert(s =~= cs@.subrange(start as int, b as int));
    }
    if start == b {
        return None;
    }
    let limit: u64 = if neg { 0x8000_0000 } else { 0x7FFF_FFFF };
    match digits_up_to(cs, start, b, limit) {
        Some(v) => {
            if neg {
                if v == 0x8000_0000 {
                    Some(-2147483648i32)
                } else {
                    Some(-(v as i32))
                }
            } else {
                Some(v as i32)
            }
        },
        None => None,
    }
}

// ── ASCII case ──────────────────────────────────────────────────────────────

/// `c` with an ASCII upper-case letter mapped to lower case.
pub open spec fn ascii_lower(c: char) -> char {
    if 65 <= c as u32 <= 90 {
        ((c as u32) + 32) as char
    } else {
        c
    }
}

/// What `str::to_ascii_lowercase` gives.
pub open spec fn ascii_lowercase(s: Seq<char>) -> Seq<char> {
    s.map_values(|c: char| ascii_lower(c))
}

/// `s.to_ascii_lowercase()`.
pub fn to_ascii_lowercase(s: &str) -> (r: String)
    ensures
        r@ == ascii_lowercase(s@),
{
    let cs = to_chars(s);
    let mut out = String::new();
    let mut k: usize = 0;
    while k < cs.len()
        invariant
            k <= cs@.len(),
            cs@ == s@,
            out@ == ascii_lowercase(cs@.subrange(0, k as int)),
        decreases cs@.len() - k,
    {
        let c = cs[k];
        let v = c as u32;
        let l = if 65 <= v && v <= 90 {
            ((v + 32) as u8) as char
        } else {
            c
        };
        assert(l == ascii_lower(c));
        push_char(&mut out, l);
        k = k + 1;
        assert(out@ =~= ascii_lowercase(cs@.subrange(0, k as int)));
    }
    assert(cs@.subrange(0, cs@.len() as int) =~= cs@);
    out
}

} // verus!
