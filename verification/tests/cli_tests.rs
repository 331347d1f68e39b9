use website_mirror::MirrorCommand;

fn args_of(parts: &[&str]) -> Vec<String> {
    let mut v = Vec::new();
    for p in parts {
        v.push((*p).to_string());
    }
    v
}

#[test]
fn test_parse_basic_args() {
    let args = MirrorCommand::try_parse_from(&args_of(&[
        "website-mirror",
        "https://example.com",
        "-o",
        "./output",
    ]))
    .unwrap();

    assert_eq!(args.url, "https://example.com");
    assert_eq!(args.output_dir, "./output");
    assert_eq!(args.max_depth, 3);
    assert_eq!(args.max_concurrent, 10);
    assert_eq!(args.ignore_robots, false);
    assert_eq!(args.download_external, false);
    assert_eq!(args.convert_to_webp, false);
}

#[test]
fn test_parse_all_args() {
    let args = MirrorCommand::try_parse_from(&args_of(&[
        "website-mirror",
        "https://example.com",
        "-o",
        "./output",
        "-d",
        "5",
        "-c",
        "20",
        "--ignore-robots",
        "--download-external",
        "--convert-to-webp",
    ]))
    .unwrap();

    assert_eq!(args.url, "https://example.com");
    assert_eq!(args.output_dir, "./output");
    assert_eq!(args.max_depth, 5);
    assert_eq!(args.max_concurrent, 20);
    assert_eq!(args.ignore_robots, true);
    assert_eq!(args.download_external, true);
    assert_eq!(args.convert_to_webp, true);
}

#[test]
fn test_parse_only_resources() {
    let args = MirrorCommand::try_parse_from(&args_of(&[
        "website-mirror",
        "https://example.com",
        "-o",
        "./output",
        "--only-resources",
        "images,css",
    ]))
    .unwrap();

    assert_eq!(
        args.only_resources,
        Some(vec!["images".to_string(), "css".to_string()])
    );
}

#[test]
fn test_parse_single_resource() {
    let args = MirrorCommand::try_parse_from(&args_of(&[
        "website-mirror",
        "https://example.com",
        "-o",
        "./output",
        "--only-resources",
        "js",
    ]))
    .unwrap();

    assert_eq!(args.only_resources, Some(vec!["js".to_string()]));
}

#[test]
fn test_parse_full_mirror() {
    let args = MirrorCommand::try_parse_from(&args_of(&[
        "website-mirror",
        "https://example.com",
        "-o",
        "./output",
        "--full-mirror",
    ]))
    .unwrap();

    assert_eq!(args.max_depth, 100);
    assert_eq!(args.max_concurrent, 50);
    assert_eq!(args.ignore_robots, true);
    assert_eq!(args.download_external, true);
}

#[test]
fn test_parse_missing_url() {
    let result = MirrorCommand::try_parse_from(&args_of(&["website-mirror", "-o", "./output"]));
    assert!(result.is_err());
}

#[test]
fn test_parse_missing_output() {
    let result = MirrorCommand::try_parse_from(&args_of(&["website-mirror", "https://example.com"]));
    assert!(result.is_err());
}

#[test]
fn test_parse_invalid_depth() {
    let result = MirrorCommand::try_parse_from(&args_of(&[
        "website-mirror",
        "https://example.com",
        "-o",
        "./output",
        "-d",
        "0",
    ]));
    assert!(result.is_err());
}

#[test]
fn test_parse_invalid_concurrent() {
    let result = MirrorCommand::try_parse_from(&args_of(&[
        "website-mirror",
        "https://example.com",
        "-o",
        "./output",
        "-c",
        "0",
    ]));
    assert!(result.is_err());
}

#[test]
fn test_parse_args() {
    let args = vec![
        "website-mirror".to_string(),
        "https://example.com".to_string(),
        "-o".to_string(),
        "./output".to_string(),
    ];

    let result = MirrorCommand::try_parse_from(&args);
    assert!(result.is_ok());

    let cmd = result.unwrap();
    assert_eq!(cmd.url, "https://example.com");
    assert_eq!(cmd.output_dir, "./output");
}

#[test]
fn test_parse_args_with_full_mirror() {
    let args = vec![
        "website-mirror".to_string(),
        "https://example.com".to_string(),
        "-o".to_string(),
        "./output".to_string(),
        "--full-mirror".to_string(),
    ];

    let result = MirrorCommand::try_parse_from(&args);
    assert!(result.is_ok());

    let cmd = result.unwrap();
    assert_eq!(cmd.url, "https://example.com");
    assert_eq!(cmd.output_dir, "./output");
    assert!(cmd.full_mirror);
}

#[test]
fn test_parse_args_with_convert_to_webp() {
    let args = vec![
        "website-mirror".to_string(),
        "https://example.com".to_string(),
        "-o".to_string(),
        "./output".to_string(),
        "--convert-to-webp".to_string(),
    ];

    let result = MirrorCommand::try_parse_from(&args);
    assert!(result.is_ok());

    let cmd = result.unwrap();
    assert_eq!(cmd.url, "https://example.com");
    assert_eq!(cmd.output_dir, "./output");
    assert!(cmd.convert_to_webp);
}

#[test]
fn test_parse_args_with_only_resources() {
    let args = vec![
        "website-mirror".to_string(),
        "https://example.com".to_string(),
        "-o".to_string(),
        "./output".to_string(),
        "--only-resources".to_string(),
        "images,css".to_string(),
    ];

    let result = MirrorCommand::try_parse_from(&args);
    assert!(result.is_ok());

    let cmd = result.unwrap();
    assert_eq!(cmd.url, "https://example.com");
    assert_eq!(cmd.output_dir, "./output");
    assert_eq!(
        cmd.only_resources,
        Some(vec!["images".to_string(), "css".to_string()])
    );
}

#[test]
fn test_parse_args_with_depth_and_concurrent() {
    let args = vec![
        "website-mirror".to_string(),
        "https://example.com".to_string(),
        "-o".to_string(),
        "./output".to_string(),
        "-d".to_string(),
        "5".to_string(),
        "-c".to_string(),
        "20".to_string(),
    ];

    let result = MirrorCommand::try_parse_from(&args);
    assert!(result.is_ok());

    let cmd = result.unwrap();
    assert_eq!(cmd.url, "https://example.com");
    assert_eq!(cmd.output_dir, "./output");
    assert_eq!(cmd.max_depth, 5);
    assert_eq!(cmd.max_concurrent, 20);
}

#[test]
fn test_parse_args_with_ignore_robots() {
    let args = vec![
        "website-mirror".to_string(),
        "https://example.com".to_string(),
        "-o".to_string(),
        "./output".to_string(),
        "--ignore-robots".to_string(),
    ];

    let result = MirrorCommand::try_parse_from(&args);
    assert!(result.is_ok());

    let cmd = result.unwrap();
    assert_eq!(cmd.url, "https://example.com");
    assert_eq!(cmd.output_dir, "./output");
    assert!(cmd.ignore_robots);
}

#[test]
fn test_parse_args_with_download_external() {
    let args = vec![
        "website-mirror".to_string(),
        "https://example.com".to_string(),
        "-o".to_string(),
        "./output".to_string(),
        "--download-external".to_string(),
    ];

    let result = MirrorCommand::try_parse_from(&args);
    assert!(result.is_ok());

    let cmd = result.unwrap();
    assert_eq!(cmd.url, "https://example.com");
    assert_eq!(cmd.output_dir, "./output");
    assert!(cmd.download_external);
}

#[test]
fn test_parse_args_missing_url() {
    let args = vec![
        "website-mirror".to_string(),
        "-o".to_string(),
        "./output".to_string(),
    ];

    let result = MirrorCommand::try_parse_from(&args);
    assert!(result.is_err());
}

#[test]
fn test_parse_args_missing_output() {
    let args = vec![
        "website-mirror".to_string(),
        "https://example.com".to_string(),
    ];

    let result = MirrorCommand::try_parse_from(&args);
    assert!(result.is_err());
}

#[test]
fn test_parse_args_invalid_depth() {
    let args = vec![
        "website-mirror".to_string(),
        "https://example.com".to_string(),
        "-o".to_string(),
        "./output".to_string(),
        "-d".to_string(),
        "0".to_string(),
    ];

    let result = MirrorCommand::try_parse_from(&args);
    assert!(result.is_err());
}

#[test]
fn test_parse_args_invalid_concurrent() {
    let args = vec![
        "website-mirror".to_string(),
        "https://example.com".to_string(),
        "-o".to_string(),
        "./output".to_string(),
        "-c".to_string(),
        "0".to_string(),
    ];

    let result = MirrorCommand::try_parse_from(&args);
    assert!(result.is_err());
}

#[test]
fn test_parse_unknown_flag_rejected() {
    let result = MirrorCommand::try_parse_from(&args_of(&[
        "website-mirror",
        "https://example.com",
        "-o",
        "./output",
        "--no-such-flag",
    ]));
    assert!(result.is_err());
}

#[test]
fn test_parse_user_agent_and_timeout() {
    let args = MirrorCommand::try_parse_from(&args_of(&[
        "website-mirror",
        "https://example.com",
        "-o",
        "./output",
        "--user-agent",
        "Probe/2.0",
        "--timeout",
        "90",
    ]))
    .unwrap();
    assert_eq!(args.user_agent, "Probe/2.0");
    assert_eq!(args.timeout, 90);
    assert_eq!(args.follow_redirects, true);
}

#[test]
fn test_parse_non_numeric_depth_rejected() {
    let result = MirrorCommand::try_parse_from(&args_of(&[
        "website-mirror",
        "https://example.com",
        "-o",
        "./output",
        "-d",
        "three",
    ]));
    assert!(result.is_err());
}

#[test]
fn test_parse_depth_beyond_machine_limit_rejected() {
    let result = MirrorCommand::try_parse_from(&args_of(&[
        "website-mirror",
        "https://example.com",
        "-o",
        "./output",
        "-d",
        "999999999999999999999999",
    ]));
    assert!(result.is_err());
}
