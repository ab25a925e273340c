//! The image reference that destinations name.

use vstd::prelude::*;
use vstd::string::*;
use crate::text::{
    lemma_strip_both_ends, lemma_strip_both_unchanged, strip, strip_both, strip_end,
    strip_leading, strip_start, strip_trailing, CharClass,
};

verus! {

/// The image reference made of a repository and a name: the repository
/// without trailing slashes, a slash, the name without leading slashes, and
/// then no slash left at either end of the whole.
pub open spec fn image_reference(repository: Seq<char>, name: Seq<char>) -> Seq<char> {
    strip_both(
        strip_trailing(repository, CharClass::Slash) + seq!['/'] + strip_leading(
            name,
            CharClass::Slash,
        ),
        CharClass::Slash,
    )
}

/// Joins `repository` and `name` into an image reference.
pub fn build_image(repository: &str, name: &str) -> (image: String)
    ensures
        image@ == image_reference(repository@, name@),
{
    let mut joined = strip_end(repository, CharClass::Slash);
    let slash = "/";
    proof {
        reveal_strlit("/");
    }
    joined.append(slash);
    let rest = strip_start(name, CharClass::Slash);
    joined.append(rest.as_str());
    assert(slash@ =~= seq!['/']);
    strip(joined.as_str(), CharClass::Slash)
}

/// An image reference never starts or ends with a slash.
pub proof fn lemma_image_has_no_outer_slash(repository: Seq<char>, name: Seq<char>)
    ensures
        image_reference(repository, name).len() > 0 ==> image_reference(repository, name)[0]
            != '/',
        image_reference(repository, name).len() > 0 ==> image_reference(repository, name).last()
            != '/',
{
    let joined = strip_trailing(repository, CharClass::Slash) + seq!['/'] + strip_leading(
        name,
        CharClass::Slash,
    );
    lemma_strip_both_ends(joined, CharClass::Slash);
}

/// A repository and a name that are non-empty and have no slash at either end
/// are joined with exactly one slash between them.
pub proof fn lemma_image_of_clean_parts(repository: Seq<char>, name: Seq<char>)
    requires
        repository.len() > 0,
        name.len() > 0,
        repository[0] != '/',
        repository.last() != '/',
        name[0] != '/',
        name.last() != '/',
    ensures
        image_reference(repository, name) == repository + seq!['/'] + name,
{
    lemma_strip_both_unchanged(repository, CharClass::Slash);
    lemma_strip_both_unchanged(name, CharClass::Slash);
    let joined = repository + seq!['/'] + name;
    assert(joined[0] == repository[0]);
    assert(joined.last() == name.last());
    lemma_strip_both_unchanged(joined, CharClass::Slash);
}

} // verus!
