use vesper::diagnostics::{last_screen, newest_log, redact, report, tail_lines, LogReport, LogTail, Screen};

#[test]
fn redact_query_string_tokens() {
    assert_eq!(
        redact("GET /_matrix/client/v3/sync?access_token=syt_Abc123&since=xyz"),
        "GET /_matrix/client/v3/sync?access_token=[REDACTED]&since=xyz"
    );
}

#[test]
fn redact_json_tokens() {
    assert_eq!(
        redact(r#"{"access_token":"syt_secret","expires_in":3607}"#),
        r#"{"access_token":"[REDACTED]","expires_in":3607}"#
    );
}

#[test]
fn redact_bearer_headers() {
    assert_eq!(
        redact("Authorization: Bearer syt_aaaaaaaaaaaa"),
        "Authorization: Bearer [REDACTED]"
    );
}

#[test]
fn redact_keeps_mxids_and_room_ids() {
    let line = "@user:matrix.org in !roomid:matrix.org said nothing logged";
    assert_eq!(redact(line), line);
}

#[test]
fn redact_multiple_markers_in_one_line() {
    assert_eq!(
        redact("access_token=abc refresh_token=def"),
        "access_token=[REDACTED] refresh_token=[REDACTED]"
    );
}

#[test]
fn redact_is_idempotent_on_its_output() {
    let once = redact("access_token=abc refresh_token=def");
    assert_eq!(redact(&once), once);
}

#[test]
fn tail_takes_last_lines() {
    assert_eq!(tail_lines("1\n2\n3\n4\n5", 2), "4\n5");
    assert_eq!(tail_lines("1\n2\n3\n4\n5", 10), "1\n2\n3\n4\n5");
}

#[test]
fn screen_round_trip() {
    assert_eq!(last_screen(Screen::Room.as_u8()), "room");
    assert_eq!(last_screen(Screen::Startup.as_u8()), "startup");
}

#[test]
fn unknown_screen_code_reads_startup() {
    assert_eq!(last_screen(200), "startup");
    assert_eq!(last_screen(Screen::Settings.as_u8()), "settings");
}

#[test]
fn newest_log_prefers_lexically_largest() {
    let names = vec!["vesper.log.2026-08-14".to_string(), "vesper.log.2026-08-15".to_string()];
    let k = newest_log(&names).expect("some file");
    assert!(names[k].ends_with("2026-08-15"));
    let reversed = vec!["vesper.log.2026-08-15".to_string(), "vesper.log.2026-08-14".to_string()];
    assert_eq!(newest_log(&reversed), Some(0));
    assert_eq!(newest_log(&Vec::new()), None);
}

#[test]
fn report_redacts_the_log_tail() {
    let log = LogReport::Found {
        path: "/logs/vesper.log".to_string(),
        size: 2,
        tail: LogTail::Lines("GET /sync?access_token=abc\n".to_string()),
    };
    assert_eq!(
        report("0.1.0", "linux", "room", "file", &log),
        "Vesper diagnostics\nversion: 0.1.0\nos: linux\nscreen: room\nsecrets: file\n\
         log: /logs/vesper.log (2 B)\n--- log tail (redacted) ---\nGET /sync?access_token=[REDACTED]\n"
    );
}

#[test]
fn report_says_when_there_is_no_log() {
    assert_eq!(
        report("0.1.0", "linux", "startup", "keyring", &LogReport::NoneYet),
        "Vesper diagnostics\nversion: 0.1.0\nos: linux\nscreen: startup\nsecrets: keyring\nlog: none yet\n"
    );
    assert!(report("v", "o", "s", "k", &LogReport::DirUnavailable("denied".to_string()))
        .ends_with("log dir unavailable: denied\n"));
    let unreadable = LogReport::Found { path: "p".to_string(), size: 2000, tail: LogTail::Unreadable("gone".to_string()) };
    assert!(report("v", "o", "s", "k", &unreadable).ends_with("log: p (2 KB)\n(log unreadable: gone)\n"));
}

#[test]
fn a_comma_does_not_end_a_token_value() {
    assert_eq!(redact("access_token=ab,cd"), "access_token=[REDACTED]");
    assert_eq!(redact("Bearer ab,cd done"), "Bearer [REDACTED] done");
}
