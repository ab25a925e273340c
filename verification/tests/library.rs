use kwd::checks::{
    check_resolved_destination, create_dir_failure, ensure_not_same_file, plan_destination,
    resolve_source, DestinationFacts, FileIdentity, SameFileFacts, SourceFacts,
};
use kwd::order::{compare_text, TextOrder};
use kwd::text::{strip, strip_end, strip_start, trim, CharClass};
use kwd::walk::{
    walk_step, OpenFrom, PathComponent, WalkError, WalkStep, O_CLOEXEC, O_DIRECTORY,
    O_NOFOLLOW, O_PATH, O_RDONLY, O_WRONLY,
};
use kwd::{
    build_config, build_image, destination_args, is_valid_tag, normalize_path_result, parse_tags,
    TagSet,
};

#[test]
fn normalize_path_result_requires_path() {
    assert_eq!(
        normalize_path_result(None),
        Err("path not provided".to_string())
    );
}

#[test]
fn normalize_path_result_cleans_absolute_paths() {
    assert_eq!(
        normalize_path_result(Some("/a/./b/../c//d/".to_string())),
        Ok("/a/c/d".to_string())
    );
    assert_eq!(
        normalize_path_result(Some("/../x".to_string())),
        Ok("/x".to_string())
    );
}

#[test]
fn normalize_path_result_makes_relative_paths_absolute() {
    let normalized = normalize_path_result(Some("some/dir/../file".to_string())).unwrap();
    assert!(normalized.starts_with('/'));
    assert!(normalized.ends_with("/some/file"));
}

#[test]
fn normalize_path_result_is_idempotent() {
    for path in ["/a/./b/../c//d/", "x/../y/z", "/", "/.."] {
        let once = normalize_path_result(Some(path.to_string())).unwrap();
        assert!(once.starts_with('/'));
        assert_eq!(normalize_path_result(Some(once.clone())), Ok(once));
    }
}

#[test]
fn normalize_path_result_rejects_empty_path() {
    let err = normalize_path_result(Some(String::new())).unwrap_err();
    assert!(err.starts_with("failed to make absolute path(): "));
}

#[test]
fn is_valid_tag_checks_shape_and_length() {
    assert!(!is_valid_tag(""));
    assert!(is_valid_tag("a"));
    assert!(is_valid_tag("_x"));
    assert!(is_valid_tag("9.ok-1_2"));
    assert!(!is_valid_tag(".x"));
    assert!(!is_valid_tag("-x"));
    assert!(!is_valid_tag("a/b"));
    assert!(!is_valid_tag("caf\u{e9}"));
    assert!(!is_valid_tag(" a"));
    assert!(is_valid_tag(&"a".repeat(128)));
    assert!(!is_valid_tag(&"a".repeat(129)));
}

#[test]
fn trim_removes_unicode_white_space_only() {
    assert_eq!(trim("\u{3000} x y\t\n\u{85}"), "x y");
    assert_eq!(trim("\u{a0}\u{2028}"), "");
    assert_eq!(trim("\u{200b}x\u{200b}"), "\u{200b}x\u{200b}");
    assert_eq!(trim(""), "");
}

#[test]
fn strip_functions_remove_slashes_at_the_right_ends() {
    assert_eq!(strip_start("//a/b//", CharClass::Slash), "a/b//");
    assert_eq!(strip_end("//a/b//", CharClass::Slash), "//a/b");
    assert_eq!(strip("//a/b//", CharClass::Slash), "a/b");
    assert_eq!(strip("///", CharClass::Slash), "");
}

#[test]
fn compare_text_orders_by_code_point() {
    assert_eq!(compare_text("a", "b"), TextOrder::Less);
    assert_eq!(compare_text("a", "ab"), TextOrder::Less);
    assert_eq!(compare_text("ab", "a"), TextOrder::Greater);
    assert_eq!(compare_text("B", "a"), TextOrder::Less);
    assert_eq!(compare_text("latest", "latest"), TextOrder::Equal);
    assert_eq!(compare_text("", ""), TextOrder::Equal);
}

#[test]
fn tag_set_keeps_tags_sorted_and_once() {
    let mut set = TagSet::new();
    assert_eq!(set.len(), 0);
    set.insert("z".to_string());
    set.insert("b".to_string());
    set.insert("z".to_string());
    set.insert("a".to_string());
    assert_eq!(set.len(), 3);
    assert_eq!(set.get(0), "a");
    assert_eq!(set.get(2), "z");
    assert_eq!(
        set.to_vec(),
        vec!["a".to_string(), "b".to_string(), "z".to_string()]
    );
    assert!(set.contains("b"));
    assert!(!set.contains("c"));
}

#[test]
fn parse_tags_always_holds_latest() {
    assert_eq!(parse_tags(None).to_vec(), vec!["latest".to_string()]);
    assert_eq!(parse_tags(Some("")).to_vec(), vec!["latest".to_string()]);
    assert_eq!(parse_tags(Some(" , ,")).to_vec(), vec!["latest".to_string()]);
    assert_eq!(
        parse_tags(Some("v2,\u{3000}v1\t,v2")).to_vec(),
        vec!["latest".to_string(), "v1".to_string(), "v2".to_string()]
    );
}

#[test]
fn build_image_joins_with_one_slash() {
    assert_eq!(build_image("/repo/", "app/"), "repo/app");
    assert_eq!(build_image("registry:5000/team", "app"), "registry:5000/team/app");
}

#[test]
fn build_config_defaults_when_nothing_is_set() {
    let config = build_config(None, None, None, None);
    assert_eq!(config.kaniko_bin, "/kaniko/executor");
    assert_eq!(config.image, "");
    assert_eq!(config.tags.to_vec(), vec!["latest".to_string()]);
    assert!(destination_args(&config.image, &config.tags).is_empty());
}

#[test]
fn build_config_reads_every_setting() {
    let config = build_config(Some("kaniko"), Some("reg/"), Some("/img"), Some("b, a"));
    assert_eq!(config.kaniko_bin, "kaniko");
    assert_eq!(
        destination_args(&config.image, &config.tags),
        vec![
            "--destination=reg/img:a".to_string(),
            "--destination=reg/img:b".to_string(),
            "--destination=reg/img:latest".to_string(),
        ]
    );
}

#[test]
fn kaniko_arguments_keep_given_ones_first() {
    let config = build_config(None, Some("reg"), Some("img"), Some("v1,v1"));
    assert_eq!(
        kwd::config::kaniko_arguments(
            vec!["--context=.".to_string(), "--no-push=false".to_string()],
            &config
        ),
        vec![
            "--context=.".to_string(),
            "--no-push=false".to_string(),
            "--destination=reg/img:latest".to_string(),
            "--destination=reg/img:v1".to_string(),
        ]
    );
    let unnamed = build_config(None, None, None, Some("v1"));
    assert_eq!(
        kwd::config::kaniko_arguments(vec!["-v".to_string()], &unnamed),
        vec!["-v".to_string()]
    );
}

#[test]
fn destination_args_of_empty_tag_set_are_empty() {
    assert!(destination_args("repo/app", &TagSet::new()).is_empty());
}

#[test]
fn resolve_source_reports_each_problem() {
    let facts = |is_symlink, exists, is_file| SourceFacts { is_symlink, exists, is_file };
    assert_eq!(
        resolve_source("/s".to_string(), facts(true, true, true)),
        Err("source(/s) is a symlink!".to_string())
    );
    assert_eq!(
        resolve_source("/s".to_string(), facts(false, false, false)),
        Err("source(/s) not exists!".to_string())
    );
    assert_eq!(
        resolve_source("/s".to_string(), facts(false, true, false)),
        Err("source(/s) is not a file!".to_string())
    );
    assert_eq!(
        resolve_source("/s".to_string(), facts(false, true, true)),
        Ok("/s".to_string())
    );
}

#[test]
fn plan_destination_covers_each_case() {
    let facts = |has_symlink_component, exists, is_dir| DestinationFacts {
        has_symlink_component,
        exists,
        is_dir,
    };
    assert_eq!(
        plan_destination("/d/x".to_string(), "f.txt", facts(true, true, true)).unwrap_err(),
        "destination path contains a symlink component: /d/x"
    );
    let missing = plan_destination("/d/x/out.txt".to_string(), "f.txt", facts(false, false, false))
        .unwrap();
    assert_eq!(missing.resolved, "/d/x/out.txt");
    assert_eq!(missing.create_dir, Some("/d/x".to_string()));
    let root = plan_destination("/".to_string(), "f.txt", facts(false, false, false)).unwrap();
    assert_eq!(root.create_dir, None);
    let dir = plan_destination("/d".to_string(), "f.txt", facts(false, true, true)).unwrap();
    assert_eq!(dir.resolved, "/d/f.txt");
    assert_eq!(dir.create_dir, None);
    let file = plan_destination("/d/g".to_string(), "f.txt", facts(false, true, false)).unwrap();
    assert_eq!(file.resolved, "/d/g");
    assert_eq!(file.create_dir, None);
}

#[test]
fn resolved_destination_must_not_pass_through_a_link() {
    assert_eq!(
        check_resolved_destination("/d/f".to_string(), true),
        Err("destination path contains a symlink component: /d/f".to_string())
    );
    assert_eq!(
        check_resolved_destination("/d/f".to_string(), false),
        Ok("/d/f".to_string())
    );
    assert_eq!(
        create_dir_failure("/d", "denied"),
        "failed to create destination directory(/d): denied"
    );
}

fn same_file_facts(
    destination_exists: bool,
    canonical_source: Result<&str, &str>,
    canonical_destination: Result<&str, &str>,
    source_identity: Result<(u64, u64), &str>,
    destination_identity: Result<(u64, u64), &str>,
) -> SameFileFacts {
    let path = |r: Result<&str, &str>| r.map(|p| p.as_bytes().to_vec()).map_err(|e| e.to_string());
    let id = |r: Result<(u64, u64), &str>| {
        r.map(|(device, inode)| FileIdentity { device, inode }).map_err(|e| e.to_string())
    };
    SameFileFacts {
        destination_exists,
        canonical_source: path(canonical_source),
        canonical_destination: path(canonical_destination),
        source_identity: id(source_identity),
        destination_identity: id(destination_identity),
    }
}

#[test]
fn ensure_not_same_file_decides_in_order() {
    let same = Err("source and destination is same!".to_string());
    let missing = same_file_facts(false, Err("x"), Err("y"), Err("z"), Err("w"));
    assert_eq!(ensure_not_same_file("/s", "/d", &missing), Ok(()));
    let alias = same_file_facts(true, Ok("/s"), Ok("/s"), Ok((1, 2)), Ok((1, 3)));
    assert_eq!(ensure_not_same_file("/s", "/./s", &alias), same);
    let hard_link = same_file_facts(true, Ok("/s"), Ok("/h"), Ok((1, 2)), Ok((1, 2)));
    assert_eq!(ensure_not_same_file("/s", "/h", &hard_link), same);
    let other = same_file_facts(true, Ok("/s"), Ok("/h"), Ok((1, 2)), Ok((1, 3)));
    assert_eq!(ensure_not_same_file("/s", "/h", &other), Ok(()));
    let bad_src = same_file_facts(true, Err("gone"), Err("gone too"), Ok((1, 2)), Ok((1, 3)));
    assert_eq!(
        ensure_not_same_file("/s", "/h", &bad_src),
        Err("failed to canonicalize source(/s): gone".to_string())
    );
    let bad_dst = same_file_facts(true, Ok("/s"), Err("gone"), Ok((1, 2)), Ok((1, 3)));
    assert_eq!(
        ensure_not_same_file("/s", "/h", &bad_dst),
        Err("failed to canonicalize destination(/h): gone".to_string())
    );
    let bad_stat = same_file_facts(true, Ok("/s"), Ok("/h"), Err("io"), Err("io too"));
    assert_eq!(
        ensure_not_same_file("/s", "/h", &bad_stat),
        Err("failed to stat source(/s): io".to_string())
    );
    let bad_dst_stat = same_file_facts(true, Ok("/s"), Ok("/h"), Ok((1, 2)), Err("io"));
    assert_eq!(
        ensure_not_same_file("/s", "/h", &bad_dst_stat),
        Err("failed to stat destination(/h): io".to_string())
    );
}

fn normal(name: &str) -> PathComponent {
    PathComponent::Normal(name.to_string())
}

fn expect_open(step: WalkStep, from: OpenFrom, name: &str, flags: i32, mode: u32) {
    match step {
        WalkStep::Open(req) => {
            assert_eq!(req.from, from);
            assert_eq!(req.name, name);
            assert_eq!(req.flags, flags);
            assert_eq!(req.mode, mode);
        }
        other => panic!("expected an open, got {:?}", other),
    }
}

#[test]
fn walk_opens_absolute_path_component_by_component() {
    let components = vec![PathComponent::RootDir, normal("d"), normal("f")];
    let dir_flags = O_PATH | O_DIRECTORY | O_NOFOLLOW | O_CLOEXEC;
    expect_open(walk_step(&components, 0, O_RDONLY, 0), OpenFrom::WorkingDirectory, "/", dir_flags, 0);
    expect_open(walk_step(&components, 1, O_RDONLY, 0), OpenFrom::PreviousStep, "d", dir_flags, 0);
    expect_open(
        walk_step(&components, 2, O_WRONLY, 0o666),
        OpenFrom::PreviousStep,
        "f",
        O_WRONLY | O_NOFOLLOW | O_CLOEXEC,
        0o666,
    );
    assert!(matches!(walk_step(&components, 3, O_RDONLY, 0), WalkStep::Done));
}

#[test]
fn walk_opens_single_relative_name_with_given_flags() {
    let components = vec![normal("f")];
    expect_open(
        walk_step(&components, 0, O_RDONLY, 0),
        OpenFrom::WorkingDirectory,
        "f",
        O_RDONLY | O_NOFOLLOW | O_CLOEXEC,
        0,
    );
    assert!(matches!(walk_step(&components, 1, O_RDONLY, 0), WalkStep::Done));
}

#[test]
fn walk_refuses_unsupported_paths() {
    let fail = |step: WalkStep| match step {
        WalkStep::Fail(e) => e,
        other => panic!("expected a failure, got {:?}", other),
    };
    assert_eq!(fail(walk_step(&vec![], 0, O_RDONLY, 0)), WalkError::NotAbsoluteOrNormal);
    assert_eq!(
        fail(walk_step(&vec![PathComponent::CurDir, normal("f")], 0, O_RDONLY, 0)),
        WalkError::NotAbsoluteOrNormal
    );
    assert_eq!(
        fail(walk_step(&vec![PathComponent::RootDir, PathComponent::ParentDir], 1, O_RDONLY, 0)),
        WalkError::UnsupportedComponent
    );
    assert_eq!(
        fail(walk_step(&vec![PathComponent::RootDir, normal("a\0b")], 1, O_RDONLY, 0)),
        WalkError::InteriorNul
    );
    assert_eq!(
        WalkError::InteriorNul.message(),
        "path component contains an interior NUL byte"
    );
    assert_eq!(
        WalkError::UnsupportedComponent.message(),
        "path contains unsupported component"
    );
    assert_eq!(
        WalkError::NotAbsoluteOrNormal.message(),
        "path must be absolute or contain normal components"
    );
}
