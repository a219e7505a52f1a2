use content_paulmcbride_com::config::EnvValue;
use content_paulmcbride_com::media_mirror::{
    content_type_essence, extension_from_content_type, extension_from_path, extension_from_url,
    sanitize_key_segment, validate_endpoint_url, MediaMirrorConfig, MediaMirrorConfigError,
    MediaMirrorEnv, MediaMirrorTargetConfig,
};

fn config() -> MediaMirrorTargetConfig {
    MediaMirrorTargetConfig::from_env(
        EnvValue::Present("https://cdn.example.com".to_string()),
        EnvValue::Present("mastodon".to_string()),
    )
    .expect("target is complete")
}

fn present(value: &str) -> EnvValue {
    EnvValue::Present(value.to_string())
}

fn full_env() -> MediaMirrorEnv {
    MediaMirrorEnv {
        endpoint: present("https://s3.us-west-004.backblazeb2.com/"),
        bucket: present("media"),
        region: EnvValue::NotPresent,
        key_id: present("key-id"),
        application_key: present("SECRET-REDACTED"),
        public_base_url: present("https://cdn.example.com//"),
        key_prefix: EnvValue::NotPresent,
    }
}

#[test]
fn builds_public_url_from_source_id_and_media_index() {
    let url = config().public_url_for(
        "123456789",
        1,
        "https://cdn.masto.host/example/original/image.jpeg",
    );

    assert_eq!(url, "https://cdn.example.com/mastodon/123456789/2.jpeg");
}

#[test]
fn detects_already_mirrored_urls() {
    assert!(config().is_mirrored_url("https://cdn.example.com/mastodon/123/1.jpg"));
    assert!(!config().is_mirrored_url("https://cdn.masto.host/example/image.jpg"));
}

#[test]
fn falls_back_to_content_type_for_extension() {
    let key = config().object_key(
        "source/id",
        0,
        "https://example.com/media",
        Some("image/jpeg"),
    );

    assert_eq!(key, "mastodon/source-id/1.jpg");
}

#[test]
fn validates_s3_endpoint_url_shape() {
    assert_eq!(
        validate_endpoint_url(
            "B2_S3_ENDPOINT",
            "https://s3.us-west-004.backblazeb2.com".to_string(),
        )
        .unwrap(),
        "https://s3.us-west-004.backblazeb2.com"
    );
    assert_eq!(
        validate_endpoint_url(
            "B2_S3_ENDPOINT",
            "https://s3.us-west-004.backblazeb2.com/".to_string(),
        )
        .unwrap(),
        "https://s3.us-west-004.backblazeb2.com"
    );
    assert!(validate_endpoint_url(
        "B2_S3_ENDPOINT",
        "s3.us-west-004.backblazeb2.com/media.paulmcbride.com".to_string(),
    )
    .is_err());
    assert!(validate_endpoint_url(
        "B2_S3_ENDPOINT",
        "https://s3.us-west-004.backblazeb2.com/media.paulmcbride.com".to_string(),
    )
    .is_err());
}

#[test]
fn endpoint_errors_give_their_reason() {
    let reason = |value: &str| match validate_endpoint_url("B2_S3_ENDPOINT", value.to_string()) {
        Err(MediaMirrorConfigError::InvalidEndpointUrl { reason, .. }) => reason,
        other => panic!("unexpected result {:?}", other),
    };
    assert_eq!(
        reason("not a url"),
        "expected an absolute URL such as https://s3.us-west-004.backblazeb2.com"
    );
    assert_eq!(reason("ftp://example.com/"), "expected http or https scheme");
    assert_eq!(
        reason("https://example.com/?x=1"),
        "expected the S3 service root without a bucket path, query, or fragment"
    );
    assert_eq!(
        reason("https://example.com/#top"),
        "expected the S3 service root without a bucket path, query, or fragment"
    );
}

#[test]
fn finds_extensions_in_url_paths() {
    assert_eq!(extension_from_url("https://x.test/a/b.tar.gz?size=1"), Some("gz".to_string()));
    assert_eq!(extension_from_url("https://x.test/a.verylongext"), None);
    assert_eq!(extension_from_url("https://x.test/a.b-c"), None);
    assert_eq!(extension_from_url("https://x.test/dir.d/file"), None);
    assert_eq!(extension_from_url("not a url"), None);
    assert_eq!(extension_from_path("/photo.PNG"), Some("PNG".to_string()));
    assert_eq!(extension_from_path("relative.png"), None);
    assert_eq!(extension_from_path("/name."), None);
}

#[test]
fn guesses_extensions_for_other_types() {
    assert_eq!(extension_from_content_type("video/webm"), Some("webm".to_string()));
    assert_eq!(extension_from_content_type("application/pdf"), Some("pdf".to_string()));
    assert_eq!(extension_from_content_type("application/x-not-a-type"), None);
}

#[test]
fn uses_bin_without_any_extension() {
    let key = config().object_key("1", 4, "https://example.com/media", None);
    assert_eq!(key, "mastodon/1/5.bin");
}

#[test]
fn sanitizes_key_segments() {
    assert_eq!(sanitize_key_segment("a b/c_d-é9"), "a-b-c_d--9");
}

#[test]
fn reads_the_media_type_of_a_header() {
    assert_eq!(content_type_essence(" image/png ; charset=binary"), "image/png");
    assert_eq!(content_type_essence("image/gif"), "image/gif");
}

#[test]
fn trims_prefix_slashes_in_object_keys() {
    let target = MediaMirrorTargetConfig::from_env(
        present("https://cdn.example.com/"),
        present("/notes/media/"),
    )
    .expect("target is complete");
    assert_eq!(target.public_base_url, "https://cdn.example.com");
    assert_eq!(
        target.object_url(&target.object_key("9", 0, "https://x.test/a.webp", None)),
        "https://cdn.example.com/notes/media/9/1.webp"
    );
}

#[test]
fn reads_mirror_config_with_defaults() {
    let config = MediaMirrorConfig::from_env(full_env()).expect("config is complete");
    assert_eq!(config.endpoint_url, "https://s3.us-west-004.backblazeb2.com");
    assert_eq!(config.region, "us-west-004");
    assert_eq!(config.target.key_prefix, "mastodon");
    assert_eq!(config.target.public_base_url, "https://cdn.example.com");
    assert!(config.is_mirrored_url("https://cdn.example.com/mastodon/1/1.jpg"));
    assert_eq!(
        config.public_url_for("1", 0, "https://x.test/a.jpg"),
        "https://cdn.example.com/mastodon/1/1.jpg"
    );
}

#[test]
fn mirror_config_reports_the_first_missing_variable() {
    let mut env = full_env();
    env.bucket = EnvValue::NotPresent;
    env.key_id = EnvValue::NotPresent;
    let error = MediaMirrorConfig::from_env(env).expect_err("bucket is missing");
    assert!(matches!(error, MediaMirrorConfigError::MissingEnv { name: "B2_BUCKET" }));
    assert_eq!(error.message(), "missing B2_BUCKET environment variable");
}

#[test]
fn optional_mirror_config_is_absent_without_variables() {
    let env = MediaMirrorEnv {
        endpoint: EnvValue::NotPresent,
        bucket: EnvValue::Unreadable("bad".to_string()),
        region: present("eu"),
        key_id: EnvValue::NotPresent,
        application_key: EnvValue::NotPresent,
        public_base_url: EnvValue::NotPresent,
        key_prefix: present("x"),
    };
    assert!(matches!(MediaMirrorConfig::optional_from_env(env), Ok(None)));
    assert!(matches!(MediaMirrorConfig::optional_from_env(full_env()), Ok(Some(_))));
}

#[test]
fn invalid_endpoint_message_names_value_and_reason() {
    let error = validate_endpoint_url("B2_S3_ENDPOINT", "ftp://x.test/".to_string())
        .expect_err("scheme is wrong");
    assert_eq!(
        error.message(),
        "invalid B2_S3_ENDPOINT environment variable `ftp://x.test/`: expected http or https scheme"
    );
}

#[test]
fn plans_uploads_from_the_content_type_header() {
    let upload = config().upload_plan("7", 2, "https://example.com/media", Some("image/webp; q=1"));
    assert_eq!(upload.content_type, Some("image/webp".to_string()));
    assert_eq!(upload.object_key, "mastodon/7/3.webp");
    assert_eq!(upload.public_url, "https://cdn.example.com/mastodon/7/3.webp");

    let upload = config().upload_plan("7", 0, "https://example.com/a.gif", None);
    assert_eq!(upload.content_type, None);
    assert_eq!(upload.object_key, "mastodon/7/1.gif");
}

#[test]
fn accepted_endpoints_lose_only_trailing_slashes() {
    let url = validate_endpoint_url("B2_S3_ENDPOINT", "http://localhost:9000/".to_string())
        .expect("root endpoint is accepted");
    assert_eq!(url, "http://localhost:9000");
    assert!(!url.ends_with('/'));
}

#[test]
fn published_urls_count_as_mirrored() {
    let target = config();
    let url = target.public_url_for("42", 0, "https://x.test/a.png");
    assert!(target.is_mirrored_url(&url));
}
