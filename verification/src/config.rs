//! The settings read from the environment and the kaniko arguments made
//! from them.

use vstd::prelude::*;
use vstd::string::*;
use crate::image::{build_image, image_reference};
use crate::tags::{default_tag, opt_view, parse_tags, tags_of};
use crate::tagset::{string_views, strictly_increasing, TagSet};
use crate::order::lemma_lex_irreflexive;
use crate::text::{trim, trimmed};

verus! {

/// The kaniko executable used when none is configured.
pub open spec fn default_kaniko_bin() -> Seq<char> {
    "/kaniko/executor"@
}

/// The value of an optional setting, or `default` when it is absent.
pub open spec fn setting_or(value: Option<Seq<char>>, default: Seq<char>) -> Seq<char> {
    match value {
        Some(v) => v,
        None => default,
    }
}

/// What kaniko is run with.
#[derive(Debug)]
pub struct KanikoConfig {
    pub kaniko_bin: String,
    pub image: String,
    pub tags: TagSet,
}

/// Builds the configuration from the optional settings: the kaniko
/// executable (trimmed, `/kaniko/executor` when absent), the image reference
/// made of the trimmed repository and name (each empty when absent), and
/// the tags of the tag list.
pub fn build_config(
    kaniko_bin: Option<&str>,
    repository: Option<&str>,
    name: Option<&str>,
    tags: Option<&str>,
) -> (config: KanikoConfig)
    ensures
        config.kaniko_bin@ == trimmed(setting_or(opt_view(kaniko_bin), default_kaniko_bin())),
        config.image@ == image_reference(
            trimmed(setting_or(opt_view(repository), Seq::empty())),
            trimmed(setting_or(opt_view(name), Seq::empty())),
        ),
        config.tags@.to_set() == tags_of(opt_view(tags)),
        strictly_increasing(config.tags@),
{
    let empty = "";
    proof {
        reveal_strlit("");
    }
    assert(empty@ =~= Seq::<char>::empty());
    let bin = match kaniko_bin {
        Some(b) => b,
        None => "/kaniko/executor",
    };
    let repository = match repository {
        Some(r) => r,
        None => empty,
    };
    let name = match name {
        Some(n) => n,
        None => empty,
    };
    let repository = trim(repository);
    let name = trim(name);
    KanikoConfig {
        kaniko_bin: trim(bin),
        image: build_image(repository.as_str(), name.as_str()),
        tags: parse_tags(tags),
    }
}

/// The kaniko argument that pushes `image` under `tag`.
pub open spec fn destination_arg(image: Seq<char>, tag: Seq<char>) -> Seq<char> {
    "--destination="@ + image + ":"@ + tag
}

/// The kaniko arguments for `image` and the tags in order: none when the
/// image is empty, otherwise one per tag.
pub open spec fn destination_args_of(image: Seq<char>, tags: Seq<Seq<char>>) -> Seq<Seq<char>> {
    if image.len() == 0 {
        Seq::empty()
    } else {
        Seq::new(tags.len(), |i: int| destination_arg(image, tags[i]))
    }
}

/// One destination per tag: for a non-empty image there are exactly as many
/// arguments as tags, the argument at each position is
/// `--destination=IMAGE:TAG` for the tag at that position, every tag of the
/// set has its argument, and every argument is that of some tag. For an
/// empty image there are none.
pub proof fn lemma_one_destination_per_tag(image: Seq<char>, tags: Seq<Seq<char>>)
    ensures
        image.len() == 0 ==> destination_args_of(image, tags).len() == 0,
        image.len() > 0 ==> destination_args_of(image, tags).len() == tags.len(),
        image.len() > 0 ==> forall|i: int|
            0 <= i < tags.len() ==> #[trigger] destination_args_of(image, tags)[i]
                == "--destination="@ + image + ":"@ + tags[i],
        image.len() > 0 ==> forall|t: Seq<char>|
            tags.contains(t) ==> #[trigger] destination_args_of(image, tags).contains(
                "--destination="@ + image + ":"@ + t,
            ),
        forall|a: Seq<char>|
            #[trigger] destination_args_of(image, tags).contains(a) ==> exists|t: Seq<char>|
                tags.contains(t) && a == "--destination="@ + image + ":"@ + t,
{
    let args = destination_args_of(image, tags);
    if image.len() > 0 {
        assert forall|t: Seq<char>| tags.contains(t) implies #[trigger] args.contains(
            "--destination="@ + image + ":"@ + t,
        ) by {
            let i = choose|i: int| 0 <= i < tags.len() && tags[i] == t;
            assert(args[i] == "--destination="@ + image + ":"@ + t);
        }
    }
    assert forall|a: Seq<char>| #[trigger] args.contains(a) implies exists|t: Seq<char>|
        tags.contains(t) && a == "--destination="@ + image + ":"@ + t by {
        let i = choose|i: int| 0 <= i < args.len() && args[i] == a;
        assert(tags.contains(tags[i]));
    }
}

/// One `--destination=IMAGE:TAG` argument per tag, in ascending tag order;
/// none when the image is empty.
pub fn destination_args(image: &str, tags: &TagSet) -> (args: Vec<String>)
    ensures
        string_views(args@) == destination_args_of(image@, tags@),
        image@.len() == 0 ==> args@.len() == 0,
        image@.len() > 0 ==> args@.len() == tags@.len(),
        image@.len() > 0 ==> forall|i: int|
            0 <= i < tags@.len() ==> (#[trigger] args@[i])@ == "--destination="@ + image@ + ":"@
                + tags@[i],
{
    proof {
        lemma_one_destination_per_tag(image@, tags@);
    }
    let mut args: Vec<String> = Vec::new();
    if image.is_empty() {
        assert(string_views(args@) =~= destination_args_of(image@, tags@));
        return args;
    }
    let n = tags.len();
    let mut i: usize = 0;
    while i < n
        invariant
            i <= n,
            n == tags@.len(),
            image@.len() > 0,
            string_views(args@) == destination_args_of(image@, tags@).take(i as int),
        decreases n - i,
    {
        let mut arg = "--destination=".to_owned();
        arg.append(image);
        arg.append(":");
        arg.append(tags.get(i).as_str());
        let ghost before = args@;
        assert(string_views(before).len() == before.len());
        args.push(arg);
        assert forall|k: int| 0 <= k < i + 1 implies #[trigger] string_views(args@)[k]
            == destination_args_of(image@, tags@).take(i + 1)[k] by {
            if k < i {
                assert(args@[k] == before[k]);
                assert(string_views(before)[k] == destination_args_of(image@, tags@).take(
                    i as int,
                )[k]);
            }
        }
        assert(string_views(args@) =~= destination_args_of(image@, tags@).take(i + 1));
        i = i + 1;
    }
    assert(destination_args_of(image@, tags@).take(n as int) =~= destination_args_of(
        image@,
        tags@,
    ));
    assert forall|i: int| 0 <= i < args@.len() implies (#[trigger] args@[i])@ == string_views(
        args@,
    )[i] by {}
    args
}

/// The arguments kaniko is run with: the given ones first and unchanged,
/// then the destinations of the configuration.
pub fn kaniko_arguments(given: Vec<String>, config: &KanikoConfig) -> (args: Vec<String>)
    ensures
        string_views(args@) == string_views(given@) + destination_args_of(
            config.image@,
            config.tags@,
        ),
{
    let mut args = given;
    let ghost first = args@;
    let mut destinations = destination_args(config.image.as_str(), &config.tags);
    let ghost rest = destinations@;
    args.append(&mut destinations);
    assert(args@ == first + rest);
    assert(string_views(args@) =~= string_views(first) + string_views(rest));
    args
}

/// Two destinations for one image are equal only when their tags are.
proof fn lemma_destination_arg_injective(image: Seq<char>, a: Seq<char>, b: Seq<char>)
    requires
        destination_arg(image, a) == destination_arg(image, b),
    ensures
        a == b,
{
    let prefix = "--destination="@ + image + ":"@;
    assert(destination_arg(image, a) =~= prefix + a);
    assert(destination_arg(image, b) =~= prefix + b);
    assert((prefix + a).skip(prefix.len() as int) =~= a);
    assert((prefix + b).skip(prefix.len() as int) =~= b);
}

/// No destination is handed to kaniko twice: distinct tags in ascending
/// order give pairwise different arguments.
pub proof fn lemma_destinations_distinct(image: Seq<char>, tags: Seq<Seq<char>>)
    requires
        strictly_increasing(tags),
    ensures
        forall|i: int, j: int|
            0 <= i < j < destination_args_of(image, tags).len() ==> #[trigger] destination_args_of(
                image,
                tags,
            )[i] != #[trigger] destination_args_of(image, tags)[j],
{
    assert forall|i: int, j: int|
        0 <= i < j < destination_args_of(image, tags).len() implies #[trigger] destination_args_of(
        image,
        tags,
    )[i] != #[trigger] destination_args_of(image, tags)[j] by {
        if destination_args_of(image, tags)[i] == destination_args_of(image, tags)[j] {
            lemma_destination_arg_injective(image, tags[i], tags[j]);
            lemma_lex_irreflexive(tags[i]);
            assert(crate::order::lex_lt(tags[i], tags[j]));
        }
    }
}

/// The tags of any configuration give at least one destination whenever the
/// image is not empty, and none when it is.
pub proof fn lemma_destinations_present(
    image: Seq<char>,
    tags: Seq<Seq<char>>,
    value: Option<Seq<char>>,
)
    requires
        tags.to_set() == tags_of(value),
    ensures
        image.len() == 0 <==> destination_args_of(image, tags).len() == 0,
{
    assert(tags_of(value).contains(default_tag()));
    assert(tags.contains(default_tag()));
}

} // verus!
