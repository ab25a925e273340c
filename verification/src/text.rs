//! Character classes and the trimming operations built on them.

use vstd::prelude::*;
use vstd::string::*;

verus! {

/// The characters that `str::trim` removes: those with the Unicode
/// `White_Space` property.
pub open spec fn is_white_space(c: char) -> bool {
    ||| ('\u{9}' <= c && c <= '\u{d}')
    ||| c == ' '
    ||| c == '\u{85}'
    ||| c == '\u{a0}'
    ||| c == '\u{1680}'
    ||| ('\u{2000}' <= c && c <= '\u{200a}')
    ||| c == '\u{2028}'
    ||| c == '\u{2029}'
    ||| c == '\u{202f}'
    ||| c == '\u{205f}'
    ||| c == '\u{3000}'
}

/// Among ASCII characters, white space is exactly the space and the
/// controls tab, line feed, vertical tab, form feed and carriage return;
/// no letter, digit or punctuation mark is white space.
pub proof fn lemma_ascii_white_space(c: char)
    requires
        c <= '\u{7f}',
    ensures
        is_white_space(c) <==> c == ' ' || c == '\t' || c == '\n' || c == '\u{b}' || c == '\u{c}'
            || c == '\r',
{
}

/// A class of characters that can be stripped from the ends of a string.
#[derive(Clone, Copy, Debug, PartialEq, Eq)]
pub enum CharClass {
    WhiteSpace,
    Slash,
}

pub open spec fn in_class(c: char, class: CharClass) -> bool {
    match class {
        CharClass::WhiteSpace => is_white_space(c),
        CharClass::Slash => c == '/',
    }
}

/// `s` without its leading characters of `class`.
pub open spec fn strip_leading(s: Seq<char>, class: CharClass) -> Seq<char>
    decreases s.len(),
{
    if s.len() > 0 && in_class(s[0], class) {
        strip_leading(s.drop_first(), class)
    } else {
        s
    }
}

/// `s` without its trailing characters of `class`.
pub open spec fn strip_trailing(s: Seq<char>, class: CharClass) -> Seq<char>
    decreases s.len(),
{
    if s.len() > 0 && in_class(s.last(), class) {
        strip_trailing(s.drop_last(), class)
    } else {
        s
    }
}

/// `s` without the characters of `class` at either end.
pub open spec fn strip_both(s: Seq<char>, class: CharClass) -> Seq<char> {
    strip_trailing(strip_leading(s, class), class)
}

/// `s` without white space at either end, as `str::trim` gives it.
pub open spec fn trimmed(s: Seq<char>) -> Seq<char> {
    strip_both(s, CharClass::WhiteSpace)
}

/// What `strip_leading` leaves is a suffix of `s` that does not start with a
/// character of `class`.
pub proof fn lemma_strip_leading_shape(s: Seq<char>, class: CharClass)
    ensures
        strip_leading(s, class).len() <= s.len(),
        strip_leading(s, class) == s.skip(s.len() - strip_leading(s, class).len()),
        strip_leading(s, class).len() > 0 ==> !in_class(strip_leading(s, class)[0], class),
        forall|k: int|
            0 <= k < s.len() - strip_leading(s, class).len() ==> in_class(#[trigger] s[k], class),
    decreases s.len(),
{
    if s.len() > 0 && in_class(s[0], class) {
        lemma_strip_leading_shape(s.drop_first(), class);
        let r = strip_leading(s.drop_first(), class);
        assert(s.drop_first().skip(s.drop_first().len() - r.len()) =~= s.skip(s.len() - r.len()));
        assert forall|k: int| 0 <= k < s.len() - r.len() implies in_class(#[trigger] s[k], class) by {
            if k > 0 {
                assert(s[k] == s.drop_first()[k - 1]);
            }
        }
    } else {
        assert(s.skip(0) =~= s);
    }
}

/// What `strip_trailing` leaves is a prefix of `s` that does not end with a
/// character of `class`.
pub proof fn lemma_strip_trailing_shape(s: Seq<char>, class: CharClass)
    ensures
        strip_trailing(s, class).len() <= s.len(),
        strip_trailing(s, class) == s.take(strip_trailing(s, class).len() as int),
        strip_trailing(s, class).len() > 0 ==> !in_class(strip_trailing(s, class).last(), class),
        forall|k: int|
            strip_trailing(s, class).len() <= k < s.len() ==> in_class(#[trigger] s[k], class),
    decreases s.len(),
{
    if s.len() > 0 && in_class(s.last(), class) {
        lemma_strip_trailing_shape(s.drop_last(), class);
        let r = strip_trailing(s.drop_last(), class);
        assert(s.drop_last().take(r.len() as int) =~= s.take(r.len() as int));
        assert forall|k: int| r.len() <= k < s.len() implies in_class(#[trigger] s[k], class) by {
            if k < s.len() - 1 {
                assert(s[k] == s.drop_last()[k]);
            }
        }
    } else {
        assert(s.take(s.len() as int) =~= s);
    }
}

/// After stripping both ends, neither end holds a character of `class`.
pub proof fn lemma_strip_both_ends(s: Seq<char>, class: CharClass)
    ensures
        strip_both(s, class).len() > 0 ==> !in_class(strip_both(s, class)[0], class),
        strip_both(s, class).len() > 0 ==> !in_class(strip_both(s, class).last(), class),
{
    let u = strip_leading(s, class);
    lemma_strip_leading_shape(s, class);
    lemma_strip_trailing_shape(u, class);
    let t = strip_trailing(u, class);
    if t.len() > 0 {
        assert(t[0] == u[0]);
    }
}

/// What stripping both ends does: the result is the part of `s` between
/// some `i` and `j` such that everything before `i` and from `j` on is of
/// `class`, and, when the result is not empty, it neither starts nor ends
/// with a character of `class`. (These determine the result.)
pub proof fn lemma_strip_both_meaning(s: Seq<char>, class: CharClass)
    ensures
        exists|i: int, j: int|
            0 <= i <= j <= s.len() && strip_both(s, class) == s.subrange(i, j) && (forall|k: int|
                0 <= k < i ==> in_class(#[trigger] s[k], class)) && (forall|k: int|
                j <= k < s.len() ==> in_class(#[trigger] s[k], class)) && (i < j ==> !in_class(
                s[i],
                class,
            ) && !in_class(s[j - 1], class)),
{
    let u = strip_leading(s, class);
    lemma_strip_leading_shape(s, class);
    lemma_strip_trailing_shape(u, class);
    let t = strip_trailing(u, class);
    let i = s.len() - u.len();
    let j = i + t.len();
    assert(u == s.skip(i));
    assert(t =~= s.subrange(i, j));
    assert forall|k: int| j <= k < s.len() implies in_class(#[trigger] s[k], class) by {
        assert(s[k] == u[k - i]);
    }
    if i < j {
        assert(s[i] == t[0]);
        assert(s[j - 1] == t.last());
    }
}

/// A string with no character of `class` at either end is left unchanged.
pub proof fn lemma_strip_both_unchanged(s: Seq<char>, class: CharClass)
    requires
        s.len() > 0 ==> !in_class(s[0], class) && !in_class(s.last(), class),
    ensures
        strip_leading(s, class) == s,
        strip_trailing(s, class) == s,
        strip_both(s, class) == s,
{
}

pub fn is_white_space_char(c: char) -> (b: bool)
    ensures
        b == is_white_space(c),
{
    ('\u{9}' <= c && c <= '\u{d}') || c == ' ' || c == '\u{85}' || c == '\u{a0}' || c
        == '\u{1680}' || ('\u{2000}' <= c && c <= '\u{200a}') || c == '\u{2028}' || c
        == '\u{2029}' || c == '\u{202f}' || c == '\u{205f}' || c == '\u{3000}'
}

fn class_contains(c: char, class: CharClass) -> (b: bool)
    ensures
        b == in_class(c, class),
{
    match class {
        CharClass::WhiteSpace => is_white_space_char(c),
        CharClass::Slash => c == '/',
    }
}

/// The number of characters of `class` that `s` starts with.
fn leading_run(s: &str, class: CharClass) -> (i: usize)
    ensures
        i <= s@.len(),
        s@.skip(i as int) == strip_leading(s@, class),
{
    let n = s.unicode_len();
    let mut i: usize = 0;
    assert(s@.skip(0) =~= s@);
    while i < n && class_contains(s.get_char(i), class)
        invariant
            i <= n,
            n == s@.len(),
            strip_leading(s@.skip(i as int), class) == strip_leading(s@, class),
        decreases n - i,
    {
        assert(s@.skip(i as int).drop_first() =~= s@.skip(i + 1));
        i = i + 1;
    }
    i
}

/// The length of `s` once its trailing characters of `class` are removed.
fn trailing_run_start(s: &str, class: CharClass) -> (j: usize)
    ensures
        j <= s@.len(),
        s@.take(j as int) == strip_trailing(s@, class),
{
    let n = s.unicode_len();
    let mut j: usize = n;
    assert(s@.take(n as int) =~= s@);
    while j > 0 && class_contains(s.get_char(j - 1), class)
        invariant
            j <= n,
            n == s@.len(),
            strip_trailing(s@.take(j as int), class) == strip_trailing(s@, class),
        decreases j,
    {
        assert(s@.take(j as int).drop_last() =~= s@.take(j - 1));
        j = j - 1;
    }
    j
}

/// `s` without its leading characters of `class` (`str::trim_start_matches`).
pub fn strip_start(s: &str, class: CharClass) -> (r: String)
    ensures
        r@ == strip_leading(s@, class),
{
    let i = leading_run(s, class);
    let n = s.unicode_len();
    let rest = s.substring_char(i, n);
    assert(rest@ =~= s@.skip(i as int));
    rest.to_owned()
}

/// `s` without its trailing characters of `class` (`str::trim_end_matches`).
pub fn strip_end(s: &str, class: CharClass) -> (r: String)
    ensures
        r@ == strip_trailing(s@, class),
{
    let j = trailing_run_start(s, class);
    let head = s.substring_char(0, j);
    assert(head@ =~= s@.take(j as int));
    head.to_owned()
}

/// `s` without the characters of `class` at either end (`str::trim_matches`).
pub fn strip(s: &str, class: CharClass) -> (r: String)
    ensures
        r@ == strip_both(s@, class),
{
    let rest = strip_start(s, class);
    strip_end(rest.as_str(), class)
}

/// `s` without white space at either end (`str::trim`).
pub fn trim(s: &str) -> (r: String)
    ensures
        r@ == trimmed(s@),
{
    strip(s, CharClass::WhiteSpace)
}

} // verus!
