//! Character-level helpers over `&str`/`String` with exact specifications.
//!
//! Every string rule of the library is stated over `Seq<char>` (the view of a
//! `&str` or `String`); the executable helpers here connect the two.

use vstd::prelude::*;
use vstd::std_specs::iter::IteratorSpec;

verus! {

broadcast use vstd::string::group_string_axioms;

// ---- specifications -------------------------------------------------------

/// Unicode `White_Space`, the set `char::is_whitespace` and `str::trim` use.
pub open spec fn is_ws(c: char) -> bool {
    ||| c == '\t'
    ||| c == '\n'
    ||| c == '\u{0B}'
    ||| c == '\u{0C}'
    ||| c == '\r'
    ||| c == ' '
    ||| c == '\u{85}'
    ||| c == '\u{A0}'
    ||| c == '\u{1680}'
    ||| ('\u{2000}' <= c && c <= '\u{200A}')
    ||| c == '\u{2028}'
    ||| c == '\u{2029}'
    ||| c == '\u{202F}'
    ||| c == '\u{205F}'
    ||| c == '\u{3000}'
}

pub open spec fn is_digit(c: char) -> bool {
    '0' <= c && c <= '9'
}

pub open spec fn is_ascii_upper(c: char) -> bool {
    'A' <= c && c <= 'Z'
}

pub open spec fn is_ascii_lower(c: char) -> bool {
    'a' <= c && c <= 'z'
}

pub open spec fn is_ascii_alnum(c: char) -> bool {
    is_digit(c) || is_ascii_upper(c) || is_ascii_lower(c)
}

/// `char::to_ascii_lowercase`.
pub open spec fn lower_char(c: char) -> char {
    if is_ascii_upper(c) {
        ((c as u32) + 32) as char
    } else {
        c
    }
}

/// `str::to_ascii_lowercase`.
pub open spec fn lower(s: Seq<char>) -> Seq<char> {
    s.map_values(|c: char| lower_char(c))
}

/// Leading whitespace removed.
pub open spec fn trim_start(s: Seq<char>) -> Seq<char>
    decreases s.len(),
{
    if s.len() > 0 && is_ws(s[0]) {
        trim_start(s.drop_first())
    } else {
        s
    }
}

/// Trailing whitespace removed.
pub open spec fn trim_end(s: Seq<char>) -> Seq<char>
    decreases s.len(),
{
    if s.len() > 0 && is_ws(s.last()) {
        trim_end(s.drop_last())
    } else {
        s
    }
}

/// `str::trim`.
pub open spec fn trim(s: Seq<char>) -> Seq<char> {
    trim_end(trim_start(s))
}

/// Index of the first `c` in `s`.
pub open spec fn first_index(s: Seq<char>, c: char) -> Option<int>
    decreases s.len(),
{
    if s.len() == 0 {
        None
    } else if s[0] == c {
        Some(0)
    } else {
        match first_index(s.drop_first(), c) {
            Some(i) => Some(i + 1),
            None => None,
        }
    }
}

/// `str::split_once` on one character.
pub open spec fn split_once(s: Seq<char>, c: char) -> Option<(Seq<char>, Seq<char>)> {
    match first_index(s, c) {
        Some(i) => Some((s.take(i), s.skip(i + 1))),
        None => None,
    }
}

pub open spec fn has_char(s: Seq<char>, c: char) -> bool {
    s.contains(c)
}

pub open spec fn starts_with(s: Seq<char>, p: Seq<char>) -> bool {
    p.len() <= s.len() && s.take(p.len() as int) == p
}

pub open spec fn ends_with(s: Seq<char>, p: Seq<char>) -> bool {
    p.len() <= s.len() && s.skip(s.len() - p.len()) == p
}

/// `p` occurs in `s` starting at `i`.
pub open spec fn occurs_at(s: Seq<char>, p: Seq<char>, i: int) -> bool {
    0 <= i && i + p.len() <= s.len() && s.subrange(i, i + p.len()) == p
}

/// `str::contains` with a string pattern.
pub open spec fn contains(s: Seq<char>, p: Seq<char>) -> bool {
    exists|i: int| occurs_at(s, p, i)
}

pub open spec fn all_digits(s: Seq<char>) -> bool {
    forall|i: int| 0 <= i < s.len() ==> is_digit(s[i])
}

/// Decimal value of a digit string.
pub open spec fn digits_value(s: Seq<char>) -> int
    decreases s.len(),
{
    if s.len() == 0 {
        0
    } else {
        digits_value(s.drop_last()) * 10 + ((s.last() as u32) - ('0' as u32))
    }
}

/// `<u32 as FromStr>::from_str`: an optional `+`, then one or more ASCII
/// digits whose value fits in a `u32`.
pub open spec fn parse_u32(s: Seq<char>) -> Option<u32> {
    let d = if s.len() > 0 && s[0] == '+' {
        s.drop_first()
    } else {
        s
    };
    if d.len() > 0 && all_digits(d) && digits_value(d) <= u32::MAX {
        Some(digits_value(d) as u32)
    } else {
        None
    }
}

/// `<usize as FromStr>::from_str`, the same grammar with the `usize` bound.
pub open spec fn parse_usize(s: Seq<char>) -> Option<usize> {
    let d = if s.len() > 0 && s[0] == '+' {
        s.drop_first()
    } else {
        s
    };
    if d.len() > 0 && all_digits(d) && digits_value(d) <= usize::MAX {
        Some(digits_value(d) as usize)
    } else {
        None
    }
}

/// The view of an optional owned string.
pub open spec fn opt_view(o: Option<String>) -> Option<Seq<char>> {
    match o {
        Some(s) => Some(s@),
        None => None,
    }
}

/// The views of a vector of owned strings.
pub open spec fn strings_view(v: Seq<String>) -> Seq<Seq<char>> {
    v.map_values(|s: String| s@)
}

// ---- lemmas ---------------------------------------------------------------

pub proof fn lemma_digits_value_nonneg(s: Seq<char>)
    requires
        all_digits(s),
    ensures
        digits_value(s) >= 0,
    decreases s.len(),
{
    if s.len() > 0 {
        lemma_digits_value_nonneg(s.drop_last());
    }
}

pub proof fn lemma_trim_start_skip(s: Seq<char>, i: int)
    requires
        0 <= i <= s.len(),
        forall|k: int| 0 <= k < i ==> is_ws(#[trigger] s[k]),
    ensures
        trim_start(s) == trim_start(s.skip(i)),
    decreases i,
{
    if i > 0 {
        assert(is_ws(s[0]));
        let t = s.drop_first();
        assert forall|k: int| 0 <= k < i - 1 implies is_ws(#[trigger] t[k]) by {
            assert(t[k] == s[k + 1]);
        }
        lemma_trim_start_skip(t, i - 1);
        assert(t.skip(i - 1) =~= s.skip(i));
    } else {
        assert(s.skip(0) =~= s);
    }
}

pub proof fn lemma_trim_end_take(s: Seq<char>, j: int)
    requires
        0 <= j <= s.len(),
        forall|k: int| j <= k < s.len() ==> is_ws(#[trigger] s[k]),
    ensures
        trim_end(s) == trim_end(s.take(j)),
    decreases s.len() - j,
{
    if j < s.len() {
        assert(is_ws(s[s.len() - 1]));
        let t = s.drop_last();
        assert forall|k: int| j <= k < t.len() implies is_ws(#[trigger] t[k]) by {
            assert(t[k] == s[k]);
        }
        lemma_trim_end_take(s.drop_last(), j);
        assert(s.drop_last().take(j) =~= s.take(j));
    } else {
        assert(s.take(j) =~= s);
    }
}

pub proof fn lemma_first_index_found(s: Seq<char>, c: char, i: int)
    requires
        0 <= i < s.len(),
        s[i] == c,
        forall|k: int| 0 <= k < i ==> s[k] != c,
    ensures
        first_index(s, c) == Some(i),
    decreases i,
{
    if i > 0 {
        lemma_first_index_found(s.drop_first(), c, i - 1);
    }
}

pub proof fn lemma_first_index_none(s: Seq<char>, c: char)
    requires
        forall|k: int| 0 <= k < s.len() ==> s[k] != c,
    ensures
        first_index(s, c) == None::<int>,
    decreases s.len(),
{
    if s.len() > 0 {
        lemma_first_index_none(s.drop_first(), c);
    }
}

pub proof fn lemma_first_index_props(s: Seq<char>, c: char)
    ensures
        first_index(s, c) matches Some(i) ==> 0 <= i < s.len() && s[i] == c && forall|k: int|
            0 <= k < i ==> s[k] != c,
        first_index(s, c) is None ==> !s.contains(c),
    decreases s.len(),
{
    if s.len() > 0 {
        let t = s.drop_first();
        lemma_first_index_props(t, c);
        if s[0] != c {
            if let Some(i) = first_index(t, c) {
                assert forall|k: int| 0 <= k < i + 1 implies s[k] != c by {
                    if k > 0 {
                        assert(s[k] == t[k - 1]);
                    }
                }
            }
        }
        if first_index(s, c) is None {
            assert forall|k: int| 0 <= k < s.len() implies s[k] != c by {
                if k > 0 {
                    assert(s[k] == s.drop_first()[k - 1]);
                }
            }
        }
    }
}

// ---- executable helpers ---------------------------------------------------

/// The characters of `s`, in order.
pub fn chars_of(s: &str) -> (v: Vec<char>)
    ensures
        v@ == s@,
{
    let mut v: Vec<char> = Vec::new();
    let mut it = s.chars();
    loop
        invariant
            v@ + it.remaining() == s@,
            it.obeys_prophetic_iter_laws(),
        ensures
            v@ == s@,
        decreases s@.len() - v@.len(),
    {
        let ghost before = it.remaining();
        match it.next() {
            Some(c) => {
                v.push(c);
                assert(v@ + it.remaining() =~= s@) by {
                    assert(before =~= seq![c] + it.remaining());
                }
            },
            None => {
                assert(v@ =~= s@);
                break ;
            },
        }
    }
    v
}

/// `String::from_iter` over characters.
#[verifier::external_body]
pub(crate) fn string_of(v: &[char]) -> (s: String)
    ensures
        s@ == v@,
{
    v.iter().collect()
}

/// An owned copy of `s`.
pub fn owned(s: &str) -> (r: String)
    ensures
        r@ == s@,
{
    s.to_owned()
}

/// Append the characters of `s` to `v`.
pub fn push_str(v: &mut Vec<char>, s: &str)
    ensures
        final(v)@ == old(v)@ + s@,
{
    let mut c = chars_of(s);
    v.append(&mut c);
}

/// Characters `a` followed by `b`, as a new string.
pub fn concat(a: &str, b: &str) -> (r: String)
    ensures
        r@ == a@ + b@,
{
    let mut v = chars_of(a);
    push_str(&mut v, b);
    string_of(v.as_slice())
}

/// Character-wise equality of two sequences held in vectors.
pub fn chars_eq(a: &Vec<char>, b: &Vec<char>) -> (r: bool)
    ensures
        r == (a@ == b@),
{
    if a.len() != b.len() {
        return false;
    }
    let mut i: usize = 0;
    while i < a.len()
        invariant
            a.len() == b.len(),
            i <= a.len(),
            forall|k: int| 0 <= k < i ==> a@[k] == b@[k],
        decreases a.len() - i,
    {
        if a[i] != b[i] {
            return false;
        }
        i += 1;
    }
    assert(a@ =~= b@);
    true
}

/// `a == b` on string slices.
pub fn str_eq(a: &str, b: &str) -> (r: bool)
    ensures
        r == (a@ == b@),
{
    let x = chars_of(a);
    let y = chars_of(b);
    chars_eq(&x, &y)
}

/// `char::is_whitespace`.
pub fn char_is_ws(c: char) -> (r: bool)
    ensures
        r == is_ws(c),
{
    c == '\t' || c == '\n' || c == '\u{0B}' || c == '\u{0C}' || c == '\r' || c == ' ' || c
        == '\u{85}' || c == '\u{A0}' || c == '\u{1680}' || ('\u{2000}' <= c && c <= '\u{200A}')
        || c == '\u{2028}' || c == '\u{2029}' || c == '\u{202F}' || c == '\u{205F}' || c
        == '\u{3000}'
}

/// `char::is_ascii_digit`.
pub fn char_is_digit(c: char) -> (r: bool)
    ensures
        r == is_digit(c),
{
    '0' <= c && c <= '9'
}

/// `char::is_ascii_alphanumeric`.
pub fn char_is_alnum(c: char) -> (r: bool)
    ensures
        r == is_ascii_alnum(c),
{
    ('0' <= c && c <= '9') || ('A' <= c && c <= 'Z') || ('a' <= c && c <= 'z')
}

/// `char::to_ascii_lowercase`.
pub fn char_lower(c: char) -> (r: char)
    ensures
        r == lower_char(c),
{
    if 'A' <= c && c <= 'Z' {
        let b = c as u32 + 32;
        assert(b < 128);
        let r = (b as u8) as char;
        assert(r == ((c as u32) + 32) as char);
        r
    } else {
        c
    }
}

/// `str::to_ascii_lowercase` over characters.
pub fn lower_chars(v: &Vec<char>) -> (r: Vec<char>)
    ensures
        r@ == lower(v@),
{
    let mut r: Vec<char> = Vec::new();
    let mut i: usize = 0;
    while i < v.len()
        invariant
            i <= v.len(),
            r@ =~= lower(v@.take(i as int)),
        decreases v.len() - i,
    {
        r.push(char_lower(v[i]));
        i += 1;
        assert(r@ =~= lower(v@.take(i as int)));
    }
    assert(v@.take(v.len() as int) =~= v@);
    r
}

/// `str::to_ascii_lowercase`.
pub fn lowercase(s: &str) -> (r: String)
    ensures
        r@ == lower(s@),
{
    let v = chars_of(s);
    let l = lower_chars(&v);
    string_of(l.as_slice())
}

/// Bounds of `trim(s)` inside `s`.
pub fn trim_bounds(v: &Vec<char>) -> (r: (usize, usize))
    ensures
        r.0 <= r.1 <= v.len(),
        trim(v@) == v@.subrange(r.0 as int, r.1 as int),
{
    let mut i: usize = 0;
    while i < v.len() && char_is_ws(v[i])
        invariant
            i <= v.len(),
            forall|k: int| 0 <= k < i ==> is_ws(#[trigger] v@[k]),
        decreases v.len() - i,
    {
        i += 1;
    }
    proof {
        lemma_trim_start_skip(v@, i as int);
    }
    let ghost rest = v@.skip(i as int);
    assert(trim_start(v@) == rest) by {
        if rest.len() > 0 {
            assert(rest[0] == v@[i as int]);
        }
    }
    let mut j: usize = v.len();
    while j > i && char_is_ws(v[j - 1])
        invariant
            i <= j <= v.len(),
            forall|k: int| j <= k < v.len() ==> is_ws(#[trigger] v@[k]),
        decreases j,
    {
        j -= 1;
    }
    proof {
        lemma_trim_end_take(rest, (j - i) as int);
        assert forall|k: int| (j - i) as int <= k < rest.len() implies is_ws(#[trigger] rest[k]) by {
            assert(rest[k] == v@[k + i]);
        }
        let t = rest.take((j - i) as int);
        assert(t =~= v@.subrange(i as int, j as int));
        if t.len() > 0 {
            assert(t.last() == v@[j - 1]);
        }
    }
    (i, j)
}

/// `str::trim`, as characters.
pub fn trim_chars(v: &Vec<char>) -> (r: Vec<char>)
    ensures
        r@ == trim(v@),
{
    let (i, j) = trim_bounds(v);
    slice_chars(v, i, j)
}

/// `str::trim`, owned.
pub fn trimmed(s: &str) -> (r: String)
    ensures
        r@ == trim(s@),
{
    let v = chars_of(s);
    let t = trim_chars(&v);
    string_of(t.as_slice())
}

/// Characters `v[from..to]`.
pub fn slice_chars(v: &Vec<char>, from: usize, to: usize) -> (r: Vec<char>)
    requires
        from <= to <= v.len(),
    ensures
        r@ == v@.subrange(from as int, to as int),
{
    let mut r: Vec<char> = Vec::new();
    let mut k: usize = from;
    while k < to
        invariant
            from <= k <= to <= v.len(),
            r@ == v@.subrange(from as int, k as int),
        decreases to - k,
    {
        r.push(v[k]);
        k += 1;
        assert(r@ =~= v@.subrange(from as int, k as int));
    }
    r
}

/// Position of the first `c` in `v`.
pub fn find_char(v: &Vec<char>, c: char) -> (r: Option<usize>)
    ensures
        r matches Some(i) ==> first_index(v@, c) == Some(i as int) && i < v.len() && v@[i as int]
            == c,
        r is None ==> first_index(v@, c) == None::<int>,
        r is None ==> !v@.contains(c),
{
    let mut i: usize = 0;
    while i < v.len()
        invariant
            i <= v.len(),
            forall|k: int| 0 <= k < i ==> v@[k] != c,
        decreases v.len() - i,
    {
        if v[i] == c {
            proof {
                lemma_first_index_found(v@, c, i as int);
            }
            return Some(i);
        }
        i += 1;
    }
    proof {
        lemma_first_index_none(v@, c);
    }
    None
}

/// `s.split_once(c)`, owned halves.
pub fn split_once_str(s: &str, c: char) -> (r: Option<(String, String)>)
    ensures
        match split_once(s@, c) {
            Some(p) => r matches Some(q) && q.0@ == p.0 && q.1@ == p.1,
            None => r is None,
        },
{
    let v = chars_of(s);
    match find_char(&v, c) {
        Some(i) => {
            let a = slice_chars(&v, 0, i);
            let b = slice_chars(&v, i + 1, v.len());
            assert(a@ =~= v@.take(i as int));
            assert(b@ =~= v@.skip(i + 1));
            Some((string_of(a.as_slice()), string_of(b.as_slice())))
        },
        None => None,
    }
}

/// Whether `c` occurs in `s`.
pub fn contains_char(s: &str, c: char) -> (r: bool)
    ensures
        r == s@.contains(c),
{
    let v = chars_of(s);
    let f = find_char(&v, c);
    proof {
        lemma_first_index_props(v@, c);
    }
    f.is_some()
}

/// Whether `p` occurs in `v` at `i`.
pub fn occurs_at_exec(v: &Vec<char>, p: &Vec<char>, i: usize) -> (r: bool)
    ensures
        r == occurs_at(v@, p@, i as int),
{
    if i > v.len() || p.len() > v.len() - i {
        return false;
    }
    let mut k: usize = 0;
    while k < p.len()
        invariant
            i + p.len() <= v.len(),
            k <= p.len(),
            forall|m: int| 0 <= m < k ==> v@[i + m] == p@[m],
        decreases p.len() - k,
    {
        if v[i + k] != p[k] {
            assert(v@.subrange(i as int, i + p.len())[k as int] != p@[k as int]);
            return false;
        }
        k += 1;
    }
    assert(v@.subrange(i as int, i + p.len()) =~= p@);
    true
}

/// `str::contains` on character vectors.
pub fn contains_chars(v: &Vec<char>, p: &Vec<char>) -> (r: bool)
    ensures
        r == contains(v@, p@),
{
    if p.len() > v.len() {
        return false;
    }
    let mut i: usize = 0;
    while i <= v.len() - p.len()
        invariant
            p.len() <= v.len(),
            i <= v.len() - p.len() + 1,
            forall|k: int| 0 <= k < i ==> !occurs_at(v@, p@, k),
        decreases v.len() - p.len() + 1 - i,
    {
        if occurs_at_exec(v, p, i) {
            return true;
        }
        if i == v.len() - p.len() {
            return false;
        }
        i += 1;
    }
    false
}

/// `str::contains` with a string pattern.
pub fn contains_str(s: &str, p: &str) -> (r: bool)
    ensures
        r == contains(s@, p@),
{
    let v = chars_of(s);
    let q = chars_of(p);
    contains_chars(&v, &q)
}

/// `str::starts_with`.
pub fn starts_with_str(s: &str, p: &str) -> (r: bool)
    ensures
        r == starts_with(s@, p@),
{
    let v = chars_of(s);
    let q = chars_of(p);
    let r = occurs_at_exec(&v, &q, 0);
    assert(r == starts_with(v@, q@)) by {
        if q@.len() <= v@.len() {
            assert(v@.subrange(0, q@.len() as int) =~= v@.take(q@.len() as int));
        }
    }
    r
}

/// `str::ends_with`.
pub fn ends_with_str(s: &str, p: &str) -> (r: bool)
    ensures
        r == ends_with(s@, p@),
{
    let v = chars_of(s);
    let q = chars_of(p);
    if q.len() > v.len() {
        return false;
    }
    let r = occurs_at_exec(&v, &q, v.len() - q.len());
    assert(v@.subrange(v.len() - q.len(), v.len() as int) =~= v@.skip(v.len() - q.len()));
    r
}

/// Decimal parse of a digit run, as `str::parse::<u32>` reads it.
pub fn parse_u32_chars(v: &Vec<char>) -> (r: Option<u32>)
    ensures
        r == parse_u32(v@),
{
    let start: usize = if v.len() > 0 && v[0] == '+' {
        1
    } else {
        0
    };
    let ghost d = if v@.len() > 0 && v@[0] == '+' {
        v@.drop_first()
    } else {
        v@
    };
    assert(d =~= v@.skip(start as int));
    if start >= v.len() {
        return None;
    }
    let mut value: u32 = 0;
    let mut i: usize = start;
    while i < v.len()
        invariant
            start <= i <= v.len(),
            d == v@.skip(start as int),
            d == (if v@.len() > 0 && v@[0] == '+' {
                v@.drop_first()
            } else {
                v@
            }),
            all_digits(v@.subrange(start as int, i as int)),
            value as int == digits_value(v@.subrange(start as int, i as int)),
        decreases v.len() - i,
    {
        let c = v[i];
        if !char_is_digit(c) {
            assert(d[i - start] == c);
            assert(!is_digit(d[(i - start) as int]));
            assert(!all_digits(d));
            return None;
        }
        let digit = (c as u32) - ('0' as u32);
        let ghost prefix = v@.subrange(start as int, i + 1);
        assert(prefix.drop_last() =~= v@.subrange(start as int, i as int));
        if value > 429496729 || (value == 429496729 && digit > 5) {
            // Overflow: the whole digit string is at least this prefix.
            proof {
                assert(prefix =~= d.take((i + 1 - start) as int));
                assert(prefix.last() == c);
                assert(all_digits(prefix)) by {
                    assert forall|k: int| 0 <= k < prefix.len() implies is_digit(prefix[k]) by {
                        if k < prefix.len() - 1 {
                            assert(prefix[k] == v@.subrange(start as int, i as int)[k]);
                        }
                    }
                }
                lemma_digits_prefix_bound(d, (i + 1 - start) as int);
            }
            return None;
        }
        value = value * 10 + digit;
        i += 1;
    }
    assert(v@.subrange(start as int, v.len() as int) =~= d);
    Some(value)
}

/// A longer digit string never has a smaller value than its prefix.
pub proof fn lemma_digits_prefix_bound(d: Seq<char>, n: int)
    requires
        0 < n <= d.len(),
        all_digits(d.take(n)),
        digits_value(d.take(n)) > u32::MAX,
    ensures
        !(all_digits(d) && digits_value(d) <= u32::MAX),
    decreases d.len() - n,
{
    if all_digits(d) {
        if n < d.len() {
            let t = d.take(n + 1);
            assert(t.drop_last() =~= d.take(n));
            assert(all_digits(t));
            lemma_digits_value_nonneg(d.take(n));
            lemma_digits_prefix_bound(d, n + 1);
        } else {
            assert(d.take(n) =~= d);
        }
    }
}

/// `str::parse::<u32>`.
pub fn parse_u32_str(s: &str) -> (r: Option<u32>)
    ensures
        r == parse_u32(s@),
{
    let v = chars_of(s);
    parse_u32_chars(&v)
}

/// The character of a decimal digit.
pub open spec fn digit_char(d: int) -> char {
    if d == 0 {
        '0'
    } else if d == 1 {
        '1'
    } else if d == 2 {
        '2'
    } else if d == 3 {
        '3'
    } else if d == 4 {
        '4'
    } else if d == 5 {
        '5'
    } else if d == 6 {
        '6'
    } else if d == 7 {
        '7'
    } else if d == 8 {
        '8'
    } else {
        '9'
    }
}

/// The decimal spelling of `n`, as `Display` writes an unsigned integer.
pub open spec fn decimal(n: nat) -> Seq<char>
    decreases n,
{
    if n < 10 {
        seq![digit_char(n as int)]
    } else {
        decimal(n / 10).push(digit_char((n % 10) as int))
    }
}

fn digit_of(d: u64) -> (c: char)
    requires
        d < 10,
    ensures
        c == digit_char(d as int),
{
    if d == 0 {
        '0'
    } else if d == 1 {
        '1'
    } else if d == 2 {
        '2'
    } else if d == 3 {
        '3'
    } else if d == 4 {
        '4'
    } else if d == 5 {
        '5'
    } else if d == 6 {
        '6'
    } else if d == 7 {
        '7'
    } else if d == 8 {
        '8'
    } else {
        '9'
    }
}

/// The decimal spelling of `n`.
pub fn decimal_string(n: u64) -> (r: String)
    ensures
        r@ == decimal(n as nat),
{
    let mut m: u64 = n;
    let mut tail: Vec<char> = Vec::new();
    loop
        invariant
            decimal(n as nat) == decimal(m as nat) + tail@,
        decreases m,
    {
        if m < 10 {
            let mut out: Vec<char> = Vec::new();
            out.push(digit_of(m));
            let mut i: usize = 0;
            while i < tail.len()
                invariant
                    i <= tail.len(),
                    out@ == seq![digit_char(m as int)] + tail@.take(i as int),
                decreases tail.len() - i,
            {
                out.push(tail[i]);
                i += 1;
                assert(out@ =~= seq![digit_char(m as int)] + tail@.take(i as int));
            }
            assert(tail@.take(i as int) =~= tail@);
            return string_of(out.as_slice());
        }
        let ghost before = tail@;
        tail.insert(0, digit_of(m % 10));
        assert(decimal(m as nat) == decimal((m / 10) as nat).push(digit_char((m % 10) as int)));
        assert(decimal((m / 10) as nat).push(digit_char((m % 10) as int)) + before =~= decimal(
            (m / 10) as nat,
        ) + tail@);
        m = m / 10;
    }
}

/// `str::split_whitespace`: the maximal runs of non-whitespace characters.
pub open spec fn words(s: Seq<char>) -> Seq<Seq<char>>
    decreases s.len(),
{
    if s.len() == 0 {
        Seq::empty()
    } else {
        let w = words(s.drop_last());
        let c = s.last();
        if is_ws(c) {
            w
        } else if s.len() >= 2 && !is_ws(s[s.len() - 2]) && w.len() > 0 {
            w.update(w.len() - 1, w.last().push(c))
        } else {
            w.push(seq![c])
        }
    }
}

/// The pieces joined with `sep` between them.
pub open spec fn join(ws: Seq<Seq<char>>, sep: Seq<char>) -> Seq<char>
    decreases ws.len(),
{
    if ws.len() == 0 {
        Seq::empty()
    } else if ws.len() == 1 {
        ws[0]
    } else {
        join(ws.drop_last(), sep) + sep + ws.last()
    }
}

/// `s.split_whitespace()`, owned pieces.
pub fn split_words(s: &Vec<char>) -> (r: Vec<Vec<char>>)
    ensures
        r@.map_values(|w: Vec<char>| w@) == words(s@),
{
    let mut out: Vec<Vec<char>> = Vec::new();
    let mut i: usize = 0;
    while i < s.len()
        invariant
            i <= s.len(),
            out@.map_values(|w: Vec<char>| w@) == words(s@.take(i as int)),
        decreases s.len() - i,
    {
        let ghost t = s@.take(i + 1);
        assert(t.drop_last() =~= s@.take(i as int));
        assert(t.last() == s@[i as int]);
        let c = s[i];
        if !char_is_ws(c) {
            if i >= 1 && !char_is_ws(s[i - 1]) && out.len() > 0 {
                assert(t[t.len() - 2] == s@[i - 1]);
                let last = out.len() - 1;
                let mut w = out.remove(last);
                let ghost wv = w@;
                w.push(c);
                out.push(w);
                let ghost prev = words(s@.take(i as int));
                assert(out@.map_values(|w: Vec<char>| w@) =~= prev.update(
                    prev.len() - 1,
                    prev.last().push(c),
                ));
            } else {
                proof {
                    if i >= 1 {
                        assert(t[t.len() - 2] == s@[i - 1]);
                    }
                }
                let mut w: Vec<char> = Vec::new();
                w.push(c);
                let ghost prev = out@.map_values(|w: Vec<char>| w@);
                out.push(w);
                assert(out@.map_values(|w: Vec<char>| w@) =~= prev.push(seq![c]));
            }
        }
        i += 1;
    }
    assert(s@.take(i as int) =~= s@);
    out
}

/// The pieces joined with a single space.
pub fn join_words(ws: &Vec<Vec<char>>, from: usize, to: usize) -> (r: Vec<char>)
    requires
        from <= to <= ws.len(),
    ensures
        r@ == join(ws@.map_values(|w: Vec<char>| w@).subrange(from as int, to as int), seq![' ']),
{
    let ghost all = ws@.map_values(|w: Vec<char>| w@);
    let mut out: Vec<char> = Vec::new();
    let mut i: usize = from;
    while i < to
        invariant
            from <= i <= to <= ws.len(),
            all == ws@.map_values(|w: Vec<char>| w@),
            out@ == join(all.subrange(from as int, i as int), seq![' ']),
        decreases to - i,
    {
        let ghost part = all.subrange(from as int, i + 1);
        assert(part.drop_last() =~= all.subrange(from as int, i as int));
        assert(part.last() == ws@[i as int]@);
        if i > from {
            out.push(' ');
        }
        let w = &ws[i];
        let ghost before = out@;
        let mut k: usize = 0;
        while k < w.len()
            invariant
                k <= w.len(),
                out@ == before + w@.take(k as int),
            decreases w.len() - k,
        {
            out.push(w[k]);
            k += 1;
            assert(out@ =~= before + w@.take(k as int));
        }
        assert(w@.take(k as int) =~= w@);
        proof {
            if i == from {
                assert(out@ =~= join(part, seq![' ']));
            } else {
                assert(out@ =~= join(part, seq![' ']));
            }
        }
        i += 1;
    }
    out
}

/// `str::find` with a string pattern: the first position `p` occurs at.
pub open spec fn find_from(s: Seq<char>, p: Seq<char>, i: int) -> Option<int>
    decreases s.len() + 1 - i,
{
    if i < 0 || i > s.len() {
        None
    } else if occurs_at(s, p, i) {
        Some(i)
    } else {
        find_from(s, p, i + 1)
    }
}

pub open spec fn find(s: Seq<char>, p: Seq<char>) -> Option<int> {
    find_from(s, p, 0)
}

/// The first position of `p` in `v`.
pub fn find_chars(v: &Vec<char>, p: &Vec<char>) -> (r: Option<usize>)
    ensures
        r matches Some(i) ==> find(v@, p@) == Some(i as int) && i + p.len() <= v.len(),
        r is None ==> find(v@, p@) is None,
{
    let mut i: usize = 0;
    while i <= v.len()
        invariant
            i <= v.len() + 1,
            find(v@, p@) == find_from(v@, p@, i as int),
        decreases v.len() + 1 - i,
    {
        if occurs_at_exec(v, p, i) {
            return Some(i);
        }
        if i == v.len() {
            assert(find_from(v@, p@, i + 1) is None);
            return None;
        }
        i += 1;
    }
    None
}

/// What `str::to_lowercase` gives for a string (full Unicode case mapping).
pub uninterp spec fn unicode_lower(s: Seq<char>) -> Seq<char>;

/// `str::to_lowercase`: the result is the Unicode lowercase of the argument,
/// a function of it alone; the mapping itself is not restated here.
#[verifier::external_body]
pub(crate) fn to_lowercase(s: &str) -> (r: String)
    ensures
        r@ == unicode_lower(s@),
{
    s.to_lowercase()
}

/// The non-empty pieces between occurrences of `sep` (`split(sep)` with
/// empty pieces dropped).
pub open spec fn pieces(s: Seq<char>, sep: char) -> Seq<Seq<char>>
    decreases s.len(),
{
    if s.len() == 0 {
        Seq::empty()
    } else {
        let w = pieces(s.drop_last(), sep);
        let c = s.last();
        if c == sep {
            w
        } else if s.len() >= 2 && s[s.len() - 2] != sep && w.len() > 0 {
            w.update(w.len() - 1, w.last().push(c))
        } else {
            w.push(seq![c])
        }
    }
}

/// `s.split(sep).filter(|p| !p.is_empty())`, owned pieces.
pub fn split_pieces(s: &Vec<char>, sep: char) -> (r: Vec<Vec<char>>)
    ensures
        r@.map_values(|w: Vec<char>| w@) == pieces(s@, sep),
{
    let mut out: Vec<Vec<char>> = Vec::new();
    let mut i: usize = 0;
    while i < s.len()
        invariant
            i <= s.len(),
            out@.map_values(|w: Vec<char>| w@) == pieces(s@.take(i as int), sep),
        decreases s.len() - i,
    {
        let ghost t = s@.take(i + 1);
        assert(t.drop_last() =~= s@.take(i as int));
        assert(t.last() == s@[i as int]);
        let c = s[i];
        if c != sep {
            if i >= 1 && s[i - 1] != sep && out.len() > 0 {
                assert(t[t.len() - 2] == s@[i - 1]);
                let last = out.len() - 1;
                let mut w = out.remove(last);
                w.push(c);
                out.push(w);
                let ghost prev = pieces(s@.take(i as int), sep);
                assert(out@.map_values(|w: Vec<char>| w@) =~= prev.update(
                    prev.len() - 1,
                    prev.last().push(c),
                ));
            } else {
                proof {
                    if i >= 1 {
                        assert(t[t.len() - 2] == s@[i - 1]);
                    }
                }
                let mut w: Vec<char> = Vec::new();
                w.push(c);
                let ghost prev = out@.map_values(|w: Vec<char>| w@);
                out.push(w);
                assert(out@.map_values(|w: Vec<char>| w@) =~= prev.push(seq![c]));
            }
        }
        i += 1;
    }
    assert(s@.take(i as int) =~= s@);
    out
}

/// `c` stripped from both ends, repeatedly.
pub open spec fn strip_char(s: Seq<char>, c: char) -> Seq<char>
    decreases s.len(),
{
    if s.len() > 0 && s[0] == c {
        strip_char(s.drop_first(), c)
    } else if s.len() > 0 && s.last() == c {
        strip_char(s.drop_last(), c)
    } else {
        s
    }
}

/// `str::trim_matches(c)`.
pub fn strip_char_chars(v: &Vec<char>, c: char) -> (r: Vec<char>)
    ensures
        r@ == strip_char(v@, c),
{
    let mut i: usize = 0;
    let mut j: usize = v.len();
    assert(v@.subrange(0, v.len() as int) =~= v@);
    while i < j && (v[i] == c || v[j - 1] == c)
        invariant
            i <= j <= v.len(),
            strip_char(v@, c) == strip_char(v@.subrange(i as int, j as int), c),
        decreases j - i,
    {
        let ghost t = v@.subrange(i as int, j as int);
        if v[i] == c {
            assert(t[0] == v@[i as int]);
            assert(t.drop_first() =~= v@.subrange(i + 1, j as int));
            i += 1;
        } else {
            assert(t[0] == v@[i as int]);
            assert(t.last() == v@[j - 1]);
            assert(t.drop_last() =~= v@.subrange(i as int, j - 1));
            j -= 1;
        }
    }
    slice_chars(v, i, j)
}

/// `c` stripped from the start, repeatedly.
pub open spec fn trim_start_char(s: Seq<char>, c: char) -> Seq<char>
    decreases s.len(),
{
    if s.len() > 0 && s[0] == c {
        trim_start_char(s.drop_first(), c)
    } else {
        s
    }
}

/// `str::trim_start_matches(c)`, owned.
pub fn trim_start_char_string(s: &str, c: char) -> (r: String)
    ensures
        r@ == trim_start_char(s@, c),
{
    let v = chars_of(s);
    let mut i: usize = 0;
    assert(v@.skip(0) =~= v@);
    while i < v.len() && v[i] == c
        invariant
            i <= v.len(),
            trim_start_char(v@, c) == trim_start_char(v@.skip(i as int), c),
        decreases v.len() - i,
    {
        assert(v@.skip(i as int)[0] == v@[i as int]);
        assert(v@.skip(i as int).drop_first() =~= v@.skip(i + 1));
        i += 1;
    }
    let r = slice_chars(&v, i, v.len());
    assert(r@ =~= v@.skip(i as int));
    string_of(r.as_slice())
}

/// `c` stripped from the end, repeatedly.
pub open spec fn trim_end_char(s: Seq<char>, c: char) -> Seq<char>
    decreases s.len(),
{
    if s.len() > 0 && s.last() == c {
        trim_end_char(s.drop_last(), c)
    } else {
        s
    }
}

/// `str::trim_end_matches(c)`, owned.
pub fn trim_end_char_string(s: &str, c: char) -> (r: String)
    ensures
        r@ == trim_end_char(s@, c),
{
    let v = chars_of(s);
    let mut j: usize = v.len();
    assert(v@.take(j as int) =~= v@);
    while j > 0 && v[j - 1] == c
        invariant
            j <= v.len(),
            trim_end_char(v@, c) == trim_end_char(v@.take(j as int), c),
        decreases j,
    {
        assert(v@.take(j as int).last() == v@[j - 1]);
        assert(v@.take(j as int).drop_last() =~= v@.take(j - 1));
        j -= 1;
    }
    let r = slice_chars(&v, 0, j);
    assert(r@ =~= v@.take(j as int));
    string_of(r.as_slice())
}

/// Every piece is non-empty and holds no separator.
pub proof fn lemma_pieces_props(s: Seq<char>, sep: char)
    ensures
        forall|i: int|
            0 <= i < pieces(s, sep).len() ==> (#[trigger] pieces(s, sep)[i]).len() > 0 && !pieces(
                s,
                sep,
            )[i].contains(sep),
    decreases s.len(),
{
    if s.len() > 0 {
        lemma_pieces_props(s.drop_last(), sep);
        let w = pieces(s.drop_last(), sep);
        let c = s.last();
        if c != sep && s.len() >= 2 && s[s.len() - 2] != sep && w.len() > 0 {
            let u = w.last().push(c);
            assert(!u.contains(sep)) by {
                if u.contains(sep) {
                    let k = choose|k: int| 0 <= k < u.len() && u[k] == sep;
                    if k < w.last().len() {
                        assert(w.last()[k] == sep);
                        assert(w[w.len() - 1].contains(sep));
                    }
                }
            }
            assert forall|i: int| 0 <= i < pieces(s, sep).len() implies (#[trigger] pieces(s, sep)[i]).len()
                > 0 && !pieces(s, sep)[i].contains(sep) by {
                if i < w.len() - 1 {
                    assert(pieces(s, sep)[i] == w[i]);
                }
            }
        } else if c != sep {
            assert forall|i: int| 0 <= i < pieces(s, sep).len() implies (#[trigger] pieces(s, sep)[i]).len()
                > 0 && !pieces(s, sep)[i].contains(sep) by {
                if i < w.len() {
                    assert(pieces(s, sep)[i] == w[i]);
                } else {
                    assert(pieces(s, sep)[i] == seq![c]);
                    assert(!seq![c].contains(sep)) by {
                        if seq![c].contains(sep) {
                            let k = choose|k: int| 0 <= k < 1 && seq![c][k] == sep;
                        }
                    }
                }
            }
        }
    }
}

/// A text ending in a non-separator has a piece.
pub proof fn lemma_pieces_nonempty(s: Seq<char>, sep: char)
    requires
        s.len() > 0,
        s.last() != sep,
    ensures
        pieces(s, sep).len() > 0,
{
}

/// A non-empty word without separators is its own only piece.
pub proof fn lemma_pieces_word(w: Seq<char>, sep: char)
    requires
        w.len() > 0,
        !w.contains(sep),
    ensures
        pieces(w, sep) == seq![w],
    decreases w.len(),
{
    let c = w.last();
    assert(c != sep) by {
        assert(w[w.len() - 1] == c);
    }
    let v = w.drop_last();
    if v.len() == 0 {
        assert(pieces(v, sep) =~= Seq::<Seq<char>>::empty());
        assert(seq![c] =~= w);
    } else {
        assert(!v.contains(sep)) by {
            if v.contains(sep) {
                let k = choose|k: int| 0 <= k < v.len() && v[k] == sep;
                assert(w[k] == sep);
            }
        }
        lemma_pieces_word(v, sep);
        assert(w[w.len() - 2] == v.last());
        assert(v.last() != sep) by {
            assert(v[v.len() - 1] == v.last());
        }
        assert(v.push(c) =~= w);
        assert(seq![v].update(0, v.push(c)) =~= seq![w]);
    }
}

/// Splitting at one separator splits the pieces there.
pub proof fn lemma_pieces_split(s: Seq<char>, t: Seq<char>, sep: char)
    ensures
        pieces(s + seq![sep] + t, sep) == pieces(s, sep) + pieces(t, sep),
    decreases t.len(),
{
    let x = s + seq![sep] + t;
    if t.len() == 0 {
        assert(x.drop_last() =~= s);
        assert(x.last() == sep);
        assert(pieces(t, sep) =~= Seq::<Seq<char>>::empty());
        assert(pieces(s, sep) + Seq::<Seq<char>>::empty() =~= pieces(s, sep));
    } else {
        let tp = t.drop_last();
        let c = t.last();
        lemma_pieces_split(s, tp, sep);
        assert(x.drop_last() =~= s + seq![sep] + tp);
        assert(x.last() == c);
        let w = pieces(s + seq![sep] + tp, sep);
        if c == sep {
        } else if tp.len() == 0 {
            assert(x[x.len() - 2] == sep);
            assert(pieces(tp, sep) =~= Seq::<Seq<char>>::empty());
            assert(t =~= seq![c]);
            assert(pieces(t, sep) =~= seq![seq![c]]);
            assert(w.push(seq![c]) =~= pieces(s, sep) + seq![seq![c]]);
        } else if tp.last() == sep {
            assert(x[x.len() - 2] == tp.last());
            assert(t[t.len() - 2] == tp.last());
            assert(w.push(seq![c]) =~= pieces(s, sep) + pieces(tp, sep).push(seq![c]));
        } else {
            assert(x[x.len() - 2] == tp.last());
            assert(t[t.len() - 2] == tp.last());
            lemma_pieces_nonempty(tp, sep);
            let p = pieces(tp, sep);
            assert(w.len() > 0);
            assert(w.update(w.len() - 1, w.last().push(c)) =~= pieces(s, sep) + p.update(
                p.len() - 1,
                p.last().push(c),
            ));
        }
    }
}

/// Joining separator-free, non-empty words and splitting again gives the
/// words back.
pub proof fn lemma_pieces_join(ws: Seq<Seq<char>>, sep: char)
    requires
        forall|i: int| 0 <= i < ws.len() ==> (#[trigger] ws[i]).len() > 0 && !ws[i].contains(sep),
    ensures
        pieces(join(ws, seq![sep]), sep) == ws,
    decreases ws.len(),
{
    if ws.len() == 0 {
        assert(pieces(join(ws, seq![sep]), sep) =~= ws);
    } else if ws.len() == 1 {
        lemma_pieces_word(ws[0], sep);
        assert(seq![ws[0]] =~= ws);
    } else {
        let v = ws.drop_last();
        assert forall|i: int| 0 <= i < v.len() implies (#[trigger] v[i]).len() > 0 && !v[i].contains(
            sep,
        ) by {
            assert(v[i] == ws[i]);
        }
        lemma_pieces_join(v, sep);
        lemma_pieces_split(join(v, seq![sep]), ws.last(), sep);
        assert(ws[ws.len() - 1] == ws.last());
        lemma_pieces_word(ws.last(), sep);
        assert(v + seq![ws.last()] =~= ws);
    }
}

/// `<u64 as FromStr>::from_str`: an optional `+`, then one or more ASCII
/// digits whose value fits in a `u64`.
pub open spec fn parse_u64(s: Seq<char>) -> Option<u64> {
    let d = if s.len() > 0 && s[0] == '+' {
        s.drop_first()
    } else {
        s
    };
    if d.len() > 0 && all_digits(d) && digits_value(d) <= u64::MAX {
        Some(digits_value(d) as u64)
    } else {
        None
    }
}

/// A digit string whose prefix already exceeds `m` exceeds it too.
pub proof fn lemma_digits_prefix_exceeds(d: Seq<char>, n: int, m: int)
    requires
        0 < n <= d.len(),
        0 <= m,
        all_digits(d.take(n)),
        digits_value(d.take(n)) > m,
    ensures
        !(all_digits(d) && digits_value(d) <= m),
    decreases d.len() - n,
{
    if all_digits(d) {
        if n < d.len() {
            let t = d.take(n + 1);
            assert(t.drop_last() =~= d.take(n));
            assert(all_digits(t));
            lemma_digits_value_nonneg(d.take(n));
            lemma_digits_prefix_exceeds(d, n + 1, m);
        } else {
            assert(d.take(n) =~= d);
        }
    }
}

/// `str::parse::<u64>`.
pub fn parse_u64_str(s: &str) -> (r: Option<u64>)
    ensures
        r == parse_u64(s@),
{
    let v = chars_of(s);
    let start: usize = if v.len() > 0 && v[0] == '+' {
        1
    } else {
        0
    };
    let ghost d = if v@.len() > 0 && v@[0] == '+' {
        v@.drop_first()
    } else {
        v@
    };
    assert(d =~= v@.skip(start as int));
    if start >= v.len() {
        return None;
    }
    let mut value: u64 = 0;
    let mut i: usize = start;
    while i < v.len()
        invariant
            start <= i <= v.len(),
            v@ == s@,
            d == v@.skip(start as int),
            d == (if v@.len() > 0 && v@[0] == '+' {
                v@.drop_first()
            } else {
                v@
            }),
            all_digits(v@.subrange(start as int, i as int)),
            value as int == digits_value(v@.subrange(start as int, i as int)),
        decreases v.len() - i,
    {
        let c = v[i];
        if !char_is_digit(c) {
            assert(d[i - start] == c);
            assert(!is_digit(d[(i - start) as int]));
            assert(!all_digits(d));
            return None;
        }
        let digit = (c as u64) - ('0' as u64);
        let ghost prefix = v@.subrange(start as int, i + 1);
        assert(prefix.drop_last() =~= v@.subrange(start as int, i as int));
        if value > 1844674407370955161 || (value == 1844674407370955161 && digit > 5) {
            proof {
                assert(prefix =~= d.take((i + 1 - start) as int));
                assert(prefix.last() == c);
                assert(all_digits(prefix)) by {
                    assert forall|k: int| 0 <= k < prefix.len() implies is_digit(prefix[k]) by {
                        if k < prefix.len() - 1 {
                            assert(prefix[k] == v@.subrange(start as int, i as int)[k]);
                        }
                    }
                }
                lemma_digits_prefix_exceeds(d, (i + 1 - start) as int, u64::MAX as int);
            }
            return None;
        }
        value = value * 10 + digit;
        i += 1;
    }
    assert(v@.subrange(start as int, v.len() as int) =~= d);
    Some(value)
}

} // verus!
