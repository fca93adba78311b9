use bootc_verified::runner::{
    display_duration, excerpt_of, excerpt_output, result_line, run_dir_candidate, run_dir_step,
    run_result, sanitized_argv, status_details, tail_window, timed_out, timeout_argv, window_start,
    Creation, RunDirStep, RunOutcome, RunRequest, FAILURE_EXCERPT_BYTES, FAILURE_EXCERPT_LINES,
};

/// The excerpt of a whole log.
fn excerpt(log: &[u8]) -> String {
    let start = window_start(log.len() as u64, FAILURE_EXCERPT_BYTES) as usize;
    tail_window(
        &log[start..].to_vec(),
        FAILURE_EXCERPT_BYTES as usize,
        FAILURE_EXCERPT_LINES,
    )
}

#[test]
fn bounds_failure_excerpt_and_redacts_flag_values() {
    let excerpt = excerpt("x\n".repeat(10_000).as_bytes());
    assert!(excerpt.len() <= FAILURE_EXCERPT_BYTES as usize);
    assert!(excerpt.lines().count() <= FAILURE_EXCERPT_LINES);
    assert_eq!(
        sanitized_argv(&["--password".into(), "value".into(), "safe".into()]),
        ["--password", "<redacted>", "safe"]
    );
}

#[test]
fn bounds_lossy_and_multibyte_failure_excerpts() {
    let mut bytes = vec![0xff; FAILURE_EXCERPT_BYTES as usize];
    bytes.push(b'\n');
    bytes.extend(
        std::iter::repeat_n(b"x\n".as_slice(), FAILURE_EXCERPT_LINES - 3)
            .flatten()
            .copied(),
    );
    bytes.extend_from_slice("🦀\nLAST-DIAGNOSTIC".as_bytes());
    let shown = excerpt(&bytes);
    assert!(shown.len() <= FAILURE_EXCERPT_BYTES as usize);
    assert!(shown.lines().count() <= FAILURE_EXCERPT_LINES);
    assert!(shown.ends_with("LAST-DIAGNOSTIC"));

    let mut boundary = vec![b'x'; 3];
    boundary.extend(
        std::iter::repeat_n("🦀".as_bytes(), FAILURE_EXCERPT_BYTES as usize / 4 + 2)
            .flatten()
            .copied(),
    );
    boundary.extend_from_slice(b"\nLAST-DIAGNOSTIC");
    let shown = excerpt(&boundary);
    assert!(shown.len() <= FAILURE_EXCERPT_BYTES as usize);
    assert!(shown.ends_with("LAST-DIAGNOSTIC"));
}

#[test]
fn excerpts_are_exact() {
    assert_eq!(excerpt_of("a\nb\r\nc\n", 100, 2), "b\nc");
    assert_eq!(excerpt_of("a\nb\nc", 3, 3), "b\nc");
    assert_eq!(excerpt_of("é🦀x", 5, 1), "🦀x");
    assert_eq!(excerpt_of("é🦀x", 4, 1), "x");
    assert_eq!(excerpt_of("abc", 0, 1), "");
    assert_eq!(excerpt_of("abc", 9, 0), "");
    assert_eq!(tail_window(&b"a\xff\xfeb".to_vec(), 100, 1), "a\u{fffd}\u{fffd}b");
    assert_eq!(excerpt_output(""), None);
    assert_eq!(
        excerpt_output("x").unwrap(),
        "--- final log excerpt ---\nx"
    );
    assert_eq!(window_start(10, 4), 6);
    assert_eq!(window_start(3, 4), 0);
}

#[test]
fn secrets_are_redacted() {
    let argv: Vec<String> = [
        "env",
        "api_token=abc",
        "--Token",
        "--password",
        "x",
        "--private-key",
    ]
    .map(String::from)
    .to_vec();
    assert_eq!(
        sanitized_argv(&argv),
        [
            "env",
            "<redacted>",
            "--Token",
            "<redacted>",
            "x",
            "--private-key"
        ]
    );
    assert_eq!(
        sanitized_argv(&["PRIVATE_KEY=1".into(), "mySecret=2".into(), "secret".into()]),
        ["<redacted>", "<redacted>", "secret"]
    );
}

#[test]
fn statuses_and_timeouts() {
    assert_eq!(status_details(Some(124), None), (124, None));
    assert_eq!(status_details(None, Some(15)), (143, Some(15)));
    assert_eq!(status_details(None, None), (1, None));
    assert!(timed_out(true, 124));
    assert!(timed_out(true, 137));
    assert!(!timed_out(true, 1));
    assert!(!timed_out(true, 0));
    assert!(!timed_out(false, 124));
}

#[test]
fn durations_and_lines() {
    assert_eq!(display_duration(12, 7), "12.007s");
    assert_eq!(display_duration(0, 999), "0.999s");
    assert_eq!(
        result_line(0, false, "1.000s", "/l"),
        "PASS: exit=0 time=1.000s log=/l"
    );
    assert_eq!(
        result_line(-1, false, "1.000s", "/l"),
        "FAIL: exit=-1 time=1.000s log=/l"
    );
    assert_eq!(
        result_line(124, true, "1.000s", "/l"),
        "TIMEOUT: exit=124 time=1.000s log=/l"
    );
}

#[test]
fn run_directories() {
    assert_eq!(run_dir_candidate("target/run", 5, 6, 0), "target/run/run-5-6-0");
    assert_ne!(
        run_dir_candidate("r", 5, 6, 1),
        run_dir_candidate("r", 5, 6, 2)
    );
    assert_eq!(run_dir_step(0, Creation::Created), RunDirStep::Use);
    assert_eq!(run_dir_step(0, Creation::Failed), RunDirStep::Fail);
    assert_eq!(run_dir_step(0, Creation::AlreadyExists), RunDirStep::Try(1));
    assert_eq!(
        run_dir_step(999, Creation::AlreadyExists),
        RunDirStep::Exhausted
    );
}

#[test]
fn results_hold_no_secrets() {
    let request = RunRequest {
        command: vec!["just".into(), "TOKEN=x".into()],
        timeout: "2h".into(),
        kill_after: "30s".into(),
        run_dir: "logs/run-1".into(),
        workdir: "/w".into(),
    };
    assert_eq!(
        timeout_argv("30s", "2h", &request.command),
        [
            "--verbose",
            "--kill-after=30s",
            "2h",
            "/bin/sh",
            "-c",
            "exec \"$@\" 2>&1",
            "bootc-runner",
            "just",
            "TOKEN=x"
        ]
    );
    let result = run_result(
        &request,
        RunOutcome {
            code: None,
            signal: Some(9),
            timeout_reported: true,
            duration_ms: 1500,
        },
    );
    assert_eq!(result.argv, ["just", "<redacted>"]);
    assert_eq!(result.exit_code, 137);
    assert_eq!(result.signal, Some(9));
    assert!(result.timed_out);
    assert_eq!(result.log_path, "logs/run-1/output.log");
    assert_eq!(result.timeout_log_path, "logs/run-1/timeout.log");
    assert_eq!(result.tmt_log_dir, "logs/run-1/tmt");
}
