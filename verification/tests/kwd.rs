use std::collections::BTreeSet;

use kwd::{build_config, build_image, destination_args, parse_tags};

#[test]
fn build_config_uses_defaults_and_trims_inputs() {
    let config = build_config(
        Some("  /custom/kaniko  "),
        Some(" repo/example/ "),
        Some(" /app "),
        None,
    );

    assert_eq!(config.kaniko_bin, "/custom/kaniko");
    assert_eq!(config.image, "repo/example/app");
    assert_eq!(
        config.tags.to_vec().into_iter().collect::<BTreeSet<String>>(),
        BTreeSet::from(["latest".to_string()])
    );
    assert_eq!(
        destination_args(&config.image, &config.tags),
        vec!["--destination=repo/example/app:latest".to_string()]
    );
}

#[test]
fn build_image_handles_empty_and_slash_only_inputs() {
    assert_eq!(build_image("", ""), "");
    assert_eq!(build_image("///", "///"), "");
    assert_eq!(build_image("repo/example", ""), "repo/example");
    assert_eq!(build_image("", "app"), "app");
}

#[test]
fn build_image_normalizes_repository_and_name_slashes() {
    assert_eq!(build_image("repo/example/", "/app"), "repo/example/app");
    assert_eq!(
        build_image("repo/example///", "///team/app"),
        "repo/example/team/app"
    );
}

#[test]
fn parse_tags_trims_dedupes_and_skips_invalid_values() {
    let tags = parse_tags(Some(" latest, v1 ,v1,bad/tag,,tag.two, ok_1 "));

    assert_eq!(
        tags.to_vec().into_iter().collect::<BTreeSet<String>>(),
        BTreeSet::from([
            "latest".to_string(),
            "v1".to_string(),
            "tag.two".to_string(),
            "ok_1".to_string(),
        ])
    );
}

#[test]
fn parse_tags_requires_valid_oci_tag_shape() {
    let too_long = "a".repeat(129);
    let input = format!(".,-,.tag,-tag,_ok,9.ok,A.tag,a-b,c_d,{}", too_long);
    let tags = parse_tags(Some(&input));

    assert_eq!(
        tags.to_vec().into_iter().collect::<BTreeSet<String>>(),
        BTreeSet::from([
            "9.ok".to_string(),
            "A.tag".to_string(),
            "_ok".to_string(),
            "a-b".to_string(),
            "c_d".to_string(),
            "latest".to_string(),
        ])
    );
}

#[test]
fn parse_tags_accepts_128_byte_tag_and_rejects_longer_tags() {
    let max_len = "a".repeat(128);
    let too_long = "b".repeat(129);
    let input = format!("{},{}", max_len, too_long);
    let tags = parse_tags(Some(&input));

    assert!(tags.contains(&max_len));
    assert!(!tags.contains(&too_long));
}

#[test]
fn destination_args_follow_sorted_tag_order() {
    let tags = parse_tags(Some("z,a,latest,b"));

    assert_eq!(
        destination_args("repo/app", &tags),
        vec![
            "--destination=repo/app:a".to_string(),
            "--destination=repo/app:b".to_string(),
            "--destination=repo/app:latest".to_string(),
            "--destination=repo/app:z".to_string(),
        ]
    );
}

#[test]
fn destination_args_are_empty_for_empty_image_after_slash_trimming() {
    let image = build_image("///", "///");
    let tags = parse_tags(Some("stable"));

    assert!(image.is_empty());
    assert!(destination_args(&image, &tags).is_empty());
}
