//! Image tags: which strings are valid tags, and how a comma-separated list
//! of tags is read.

use vstd::prelude::*;
use vstd::string::*;
use crate::tagset::{strictly_increasing, TagSet};
use crate::text::{trim, trimmed};

verus! {

pub open spec fn is_ascii_alphanumeric(c: char) -> bool {
    ('0' <= c && c <= '9') || ('A' <= c && c <= 'Z') || ('a' <= c && c <= 'z')
}

/// The characters a tag may start with.
pub open spec fn is_tag_start(c: char) -> bool {
    is_ascii_alphanumeric(c) || c == '_'
}

/// The characters a tag may hold after its first one.
pub open spec fn is_tag_char(c: char) -> bool {
    is_ascii_alphanumeric(c) || c == '-' || c == '_' || c == '.'
}

/// The shape of an OCI image tag: one to 128 characters, the first a letter,
/// a digit or `_`, the others letters, digits, `-`, `_` or `.`. All these
/// characters are ASCII, so the bound holds of the length in bytes as well.
pub open spec fn valid_tag(t: Seq<char>) -> bool {
    &&& 0 < t.len() <= 128
    &&& is_tag_start(t[0])
    &&& forall|k: int| 1 <= k < t.len() ==> is_tag_char(#[trigger] t[k])
}

fn is_ascii_alphanumeric_char(c: char) -> (b: bool)
    ensures
        b == is_ascii_alphanumeric(c),
{
    ('0' <= c && c <= '9') || ('A' <= c && c <= 'Z') || ('a' <= c && c <= 'z')
}

/// The OCI tag grammar, `[A-Za-z0-9_][A-Za-z0-9_.-]{0,127}`, character by
/// character: a tag is valid exactly when it has 1 to 128 characters, its
/// first is an ASCII letter of either case, a digit or `_`, and each later
/// one is an ASCII letter of either case, a digit, `_`, `.` or `-`.
pub proof fn lemma_valid_tag_grammar(t: Seq<char>)
    ensures
        valid_tag(t) <==> {
            &&& 1 <= t.len() <= 128
            &&& ('A' <= t[0] <= 'Z' || 'a' <= t[0] <= 'z' || '0' <= t[0] <= '9' || t[0] == '_')
            &&& forall|k: int|
                1 <= k < t.len() ==> ('A' <= #[trigger] t[k] <= 'Z' || 'a' <= t[k] <= 'z' || '0'
                    <= t[k] <= '9' || t[k] == '_' || t[k] == '.' || t[k] == '-')
        },
{
}

/// Whether `tag` has the shape of an OCI image tag.
pub fn is_valid_tag(tag: &str) -> (r: bool)
    ensures
        r == valid_tag(tag@),
        r <==> {
            &&& 1 <= tag@.len() <= 128
            &&& ('A' <= tag@[0] <= 'Z' || 'a' <= tag@[0] <= 'z' || '0' <= tag@[0] <= '9' || tag@[0]
                == '_')
            &&& forall|k: int|
                1 <= k < tag@.len() ==> ('A' <= #[trigger] tag@[k] <= 'Z' || 'a' <= tag@[k] <= 'z'
                    || '0' <= tag@[k] <= '9' || tag@[k] == '_' || tag@[k] == '.' || tag@[k] == '-')
        },
{
    proof {
        lemma_valid_tag_grammar(tag@);
    }
    let n = tag.unicode_len();
    if n == 0 || n > 128 {
        return false;
    }
    let first = tag.get_char(0);
    if !(is_ascii_alphanumeric_char(first) || first == '_') {
        return false;
    }
    let mut i: usize = 1;
    while i < n
        invariant
            1 <= i <= n,
            n == tag@.len(),
            forall|k: int| 1 <= k < i ==> is_tag_char(#[trigger] tag@[k]),
        decreases n - i,
    {
        let c = tag.get_char(i);
        if !(is_ascii_alphanumeric_char(c) || c == '-' || c == '_' || c == '.') {
            return false;
        }
        i = i + 1;
    }
    true
}

/// The pieces of `s` between the occurrences of `sep`, as `str::split` gives
/// them: one more piece than there are separators.
pub open spec fn split_at_char(s: Seq<char>, sep: char) -> Seq<Seq<char>>
    decreases s.len(),
{
    if s.len() == 0 {
        seq![Seq::<char>::empty()]
    } else {
        let before = split_at_char(s.drop_last(), sep);
        if s.last() == sep {
            before.push(Seq::<char>::empty())
        } else {
            before.update(before.len() - 1, before.last().push(s.last()))
        }
    }
}

/// The pieces joined back together, with `sep` between each two.
pub open spec fn join_with(pieces: Seq<Seq<char>>, sep: char) -> Seq<char>
    decreases pieces.len(),
{
    if pieces.len() == 0 {
        Seq::empty()
    } else if pieces.len() == 1 {
        pieces[0]
    } else {
        join_with(pieces.drop_last(), sep) + seq![sep] + pieces.last()
    }
}

/// What splitting does: there is at least one piece, no piece holds the
/// separator, and joining the pieces with the separator gives the text
/// back. (These determine the pieces.)
pub proof fn lemma_split_meaning(s: Seq<char>, sep: char)
    ensures
        split_at_char(s, sep).len() >= 1,
        join_with(split_at_char(s, sep), sep) == s,
        forall|i: int|
            0 <= i < split_at_char(s, sep).len() ==> !(#[trigger] split_at_char(s, sep)[i]).contains(
                sep,
            ),
    decreases s.len(),
{
    if s.len() == 0 {
        assert(!Seq::<char>::empty().contains(sep));
    } else {
        let rest = s.drop_last();
        let before = split_at_char(rest, sep);
        lemma_split_meaning(rest, sep);
        let after = split_at_char(s, sep);
        let c = s.last();
        if c == sep {
            assert(after == before.push(Seq::<char>::empty()));
            assert(after.drop_last() =~= before);
            assert(join_with(after, sep) =~= s);
            assert forall|i: int| 0 <= i < after.len() implies !(#[trigger] after[i]).contains(
                sep,
            ) by {
                if i < before.len() {
                    assert(after[i] == before[i]);
                } else {
                    assert(after[i] =~= Seq::<char>::empty());
                }
            }
        } else {
            let n = before.len();
            let grown = before.last().push(c);
            assert(after == before.update(n - 1, grown));
            if n == 1 {
                assert(join_with(after, sep) =~= s);
            } else {
                assert(after.drop_last() =~= before.drop_last());
                assert(after.last() == grown);
                let head = join_with(before.drop_last(), sep);
                assert(join_with(before, sep) == head + seq![sep] + before.last());
                assert(join_with(after, sep) == head + seq![sep] + grown);
                assert(s =~= rest.push(c));
                assert(head + seq![sep] + grown =~= (head + seq![sep] + before.last()).push(c));
            }
            assert forall|i: int| 0 <= i < after.len() implies !(#[trigger] after[i]).contains(
                sep,
            ) by {
                if i < n - 1 {
                    assert(after[i] == before[i]);
                } else {
                    assert(after[i] == grown);
                    assert(!before[n - 1].contains(sep));
                    if grown.contains(sep) {
                        let k = choose|k: int| 0 <= k < grown.len() && grown[k] == sep;
                        if k < grown.len() - 1 {
                            assert(before[n - 1][k] == sep);
                        }
                    }
                }
            }
        }
    }
}

/// The tags that a list of pieces names: each piece trimmed, and only those
/// of the shape of a tag kept.
pub open spec fn accepted_tags(pieces: Seq<Seq<char>>) -> Set<Seq<char>>
    decreases pieces.len(),
{
    if pieces.len() == 0 {
        Set::empty()
    } else {
        let rest = accepted_tags(pieces.drop_last());
        let t = trimmed(pieces.last());
        if valid_tag(t) {
            rest.insert(t)
        } else {
            rest
        }
    }
}

/// The tag every image gets.
pub open spec fn default_tag() -> Seq<char> {
    "latest"@
}

/// The tags named by the optional comma-separated list `value`, with
/// `latest` always among them.
pub open spec fn tags_of(value: Option<Seq<char>>) -> Set<Seq<char>> {
    match value {
        Some(v) => accepted_tags(split_at_char(v, ',')).insert(default_tag()),
        None => Set::empty().insert(default_tag()),
    }
}

pub open spec fn opt_view(value: Option<&str>) -> Option<Seq<char>> {
    match value {
        Some(v) => Some(v@),
        None => None,
    }
}

/// A tag is accepted from a list of pieces exactly when it has the shape of
/// a tag and some piece, trimmed, is that tag.
pub proof fn lemma_accepted_tags_members(pieces: Seq<Seq<char>>, t: Seq<char>)
    ensures
        accepted_tags(pieces).contains(t) <==> valid_tag(t) && exists|i: int|
            0 <= i < pieces.len() && trimmed(#[trigger] pieces[i]) == t,
    decreases pieces.len(),
{
    if pieces.len() > 0 {
        let rest = pieces.drop_last();
        lemma_accepted_tags_members(rest, t);
        if accepted_tags(pieces).contains(t) {
            if accepted_tags(rest).contains(t) {
                let i = choose|i: int| 0 <= i < rest.len() && trimmed(#[trigger] rest[i]) == t;
                assert(pieces[i] == rest[i]);
            } else {
                assert(trimmed(pieces[pieces.len() - 1]) == t);
            }
        }
        if valid_tag(t) && exists|i: int| 0 <= i < pieces.len() && trimmed(#[trigger] pieces[i])
            == t {
            let i = choose|i: int| 0 <= i < pieces.len() && trimmed(#[trigger] pieces[i]) == t;
            if i < rest.len() {
                assert(rest[i] == pieces[i]);
            }
        }
    }
}

/// `latest` itself has the shape of a tag.
pub proof fn lemma_default_tag_is_valid()
    ensures
        valid_tag(default_tag()),
{
    reveal_strlit("latest");
}

/// Every tag that a tag list yields has the shape of a tag, and `latest` is
/// always among them.
pub proof fn lemma_tags_are_valid(value: Option<Seq<char>>)
    ensures
        tags_of(value).contains(default_tag()),
        forall|t: Seq<char>| #[trigger] tags_of(value).contains(t) ==> valid_tag(t),
{
    lemma_default_tag_is_valid();
    assert forall|t: Seq<char>| #[trigger] tags_of(value).contains(t) implies valid_tag(t) by {
        if let Some(v) = value {
            if t != default_tag() {
                lemma_accepted_tags_members(split_at_char(v, ','), t);
            }
        }
    }
}

/// Adds the tag that `piece` names, if it names one.
fn accept_piece(tags: &mut TagSet, piece: &str)
    ensures
        final(tags)@.to_set() == (if valid_tag(trimmed(piece@)) {
            old(tags)@.to_set().insert(trimmed(piece@))
        } else {
            old(tags)@.to_set()
        }),
        strictly_increasing(old(tags)@) ==> strictly_increasing(final(tags)@),
{
    let t = trim(piece);
    if is_valid_tag(t.as_str()) {
        tags.insert(t);
    }
}

/// The set of tags named by the comma-separated list `value`: each piece is
/// trimmed, pieces that are not valid tags are skipped, and `latest` is
/// always included.
pub fn parse_tags(value: Option<&str>) -> (tags: TagSet)
    ensures
        tags@.to_set() == tags_of(opt_view(value)),
        strictly_increasing(tags@),
{
    let mut tags = TagSet::new();
    let latest = "latest".to_owned();
    tags.insert(latest);
    assert(Seq::<Seq<char>>::empty().to_set() =~= Set::<Seq<char>>::empty());
    match value {
        None => {
            tags
        },
        Some(v) => {
            let n = v.unicode_len();
            let mut start: usize = 0;
            let mut i: usize = 0;
            assert(v@.take(0) =~= Seq::<char>::empty());
            assert(split_at_char(v@.take(0), ',').drop_last() =~= Seq::<Seq<char>>::empty());
            while i < n
                invariant
                    start <= i <= n,
                    n == v@.len(),
                    split_at_char(v@.take(i as int), ',').len() >= 1,
                    split_at_char(v@.take(i as int), ',').last() == v@.subrange(
                        start as int,
                        i as int,
                    ),
                    tags@.to_set() == accepted_tags(
                        split_at_char(v@.take(i as int), ',').drop_last(),
                    ).insert(default_tag()),
                    strictly_increasing(tags@),
                decreases n - i,
            {
                let ghost before = split_at_char(v@.take(i as int), ',');
                let c = v.get_char(i);
                assert(v@.take(i + 1).drop_last() =~= v@.take(i as int));
                assert(v@.take(i + 1).last() == c);
                if c == ',' {
                    let piece = v.substring_char(start, i);
                    accept_piece(&mut tags, piece);
                    proof {
                        let after = split_at_char(v@.take(i + 1), ',');
                        assert(after == before.push(Seq::<char>::empty()));
                        assert(after.drop_last() =~= before);
                        assert(before.drop_last().push(before.last()) =~= before);
                        assert(accepted_tags(before) == (if valid_tag(trimmed(piece@)) {
                            accepted_tags(before.drop_last()).insert(trimmed(piece@))
                        } else {
                            accepted_tags(before.drop_last())
                        }));
                        assert(after.last() =~= v@.subrange(i + 1, i + 1));
                        assert(tags@.to_set() =~= accepted_tags(after.drop_last()).insert(
                            default_tag(),
                        ));
                    }
                    start = i + 1;
                } else {
                    proof {
                        let after = split_at_char(v@.take(i + 1), ',');
                        assert(after == before.update(
                            before.len() - 1,
                            before.last().push(c),
                        ));
                        assert(after.drop_last() =~= before.drop_last());
                        assert(after.last() =~= v@.subrange(start as int, i + 1));
                    }
                }
                i = i + 1;
            }
            let piece = v.substring_char(start, n);
            accept_piece(&mut tags, piece);
            proof {
                let all = split_at_char(v@.take(n as int), ',');
                assert(v@.take(n as int) =~= v@);
                assert(all.drop_last().push(all.last()) =~= all);
                assert(tags@.to_set() =~= accepted_tags(all).insert(default_tag()));
            }
            tags
        },
    }
}

} // verus!
