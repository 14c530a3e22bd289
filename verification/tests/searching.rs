use github_code_searching::json::JsonValue;
use github_code_searching::messages::{
    allowance_line, completed_search, cooldown_line, failed_search, pause_announcement,
    pause_countdown, searching_page, starting_search, waiting_to_search,
};
use github_code_searching::messages::{allowance_renewed, allowance_unknown};
use github_code_searching::page::{
    bearer_authorization, is_success, keep_record, page_outcome, page_records, page_step,
    reached_search_limit, search_url, PageStep,
};
use github_code_searching::pagination::{PageCursor, WalkStep};
use github_code_searching::rate_limit::{
    countdown_tick, percent_remaining, rate_limit_plan, rate_limit_plan_now, Allowance,
    CountdownTick,
};
use github_code_searching::searcher::{
    outcome_line, run_result, SearchError, TaskOutcome, DEFAULT_CONCURRENCY, DEFAULT_OUTPUT,
};
use github_code_searching::text::{is_blank, parse_u32, parse_u64, u64_to_decimal};
use github_code_searching::{Args, GitHubSearcher};

fn num(n: u64) -> JsonValue {
    JsonValue::Number(serde_json::Number::from(n))
}

fn s(text: &str) -> JsonValue {
    JsonValue::Str(text.to_string())
}

fn obj(members: Vec<(&str, JsonValue)>) -> JsonValue {
    JsonValue::Object(members.into_iter().map(|(k, v)| (k.to_string(), v)).collect())
}

fn full_item(name: &str) -> JsonValue {
    obj(vec![
        ("name", s(name)),
        ("path", s("src/lib.rs")),
        ("html_url", s("https://github.com/o/r/blob/main/src/lib.rs")),
        ("sha", s("abc123")),
        (
            "repository",
            obj(vec![
                ("full_name", s("o/r")),
                (
                    "owner",
                    obj(vec![
                        ("login", s("o")),
                        ("avatar_url", s("https://avatars.example/o")),
                        ("html_url", s("https://github.com/o")),
                    ]),
                ),
            ]),
        ),
        (
            "text_matches",
            JsonValue::Array(vec![obj(vec![("fragment", s("fn main"))])]),
        ),
        ("score", num(1)),
    ])
}

fn args(token: Option<&str>) -> Args {
    Args {
        words: vec!["rust".to_string()],
        output: "out.json".to_string(),
        max_pages: Some(3),
        token: token.map(|t| t.to_string()),
        concurrency: 2,
    }
}

#[test]
fn parses_unsigned_numbers_as_str_parse_does() {
    assert_eq!(parse_u32("42"), Some(42));
    assert_eq!(parse_u32("+7"), Some(7));
    assert_eq!(parse_u32("007"), Some(7));
    assert_eq!(parse_u32("4294967295"), Some(u32::MAX));
    assert_eq!(parse_u32("4294967296"), None);
    assert_eq!(parse_u32("-1"), None);
    assert_eq!(parse_u32(""), None);
    assert_eq!(parse_u32("+"), None);
    assert_eq!(parse_u32(" 1"), None);
    assert_eq!(parse_u32("1x"), None);
    assert_eq!(parse_u64("18446744073709551615"), Some(u64::MAX));
    assert_eq!(parse_u64("18446744073709551616"), None);
    assert_eq!(parse_u64("1725029869"), Some(1725029869));
    for text in ["42", "+7", "", "-3", "99999999999", "12a"] {
        assert_eq!(parse_u32(text), text.parse::<u32>().ok());
    }
}

#[test]
fn writes_numbers_in_decimal() {
    assert_eq!(u64_to_decimal(0), "0");
    assert_eq!(u64_to_decimal(7), "7");
    assert_eq!(u64_to_decimal(1234), "1234");
    assert_eq!(u64_to_decimal(u64::MAX), u64::MAX.to_string());
}

#[test]
fn decimal_text_reads_back() {
    for n in [0u64, 9, 10, 4242, u32::MAX as u64, u64::MAX] {
        assert_eq!(parse_u64(&u64_to_decimal(n)), Some(n));
    }
    assert_eq!(parse_u32(&u64_to_decimal(65535)), Some(65535));
}

#[test]
fn blank_means_trimmed_to_nothing() {
    for text in ["", " ", "\t\n\r", "\u{3000}\u{a0}", "\u{2028}"] {
        assert!(is_blank(text));
        assert!(text.trim().is_empty());
    }
    for text in ["a", " a ", "\u{200b}"] {
        assert!(!is_blank(text));
        assert_eq!(is_blank(text), text.trim().is_empty());
    }
}

#[test]
fn builds_the_search_request() {
    assert_eq!(
        search_url("rust concurrency", 2),
        "https://api.github.com/search/code?q=rust%20concurrency&page=2&per_page=100"
    );
    assert_eq!(
        search_url("a&b#c", 1),
        "https://api.github.com/search/code?q=a%26b%23c&page=1&per_page=100"
    );
    assert_eq!(
        search_url("café_-.~", 1),
        "https://api.github.com/search/code?q=caf%C3%A9_-.~&page=1&per_page=100"
    );
    assert_eq!(
        search_url("tokio", 10),
        "https://api.github.com/search/code?q=tokio&page=10&per_page=100"
    );
    assert_eq!(bearer_authorization("SECRET-REDACTED"), "Bearer SECRET-REDACTED");
}

#[test]
fn status_verdicts() {
    assert!(reached_search_limit(422));
    assert!(!reached_search_limit(200));
    assert!(!reached_search_limit(403));
    assert!(is_success(200));
    assert!(is_success(299));
    assert!(!is_success(300));
    assert!(!is_success(199));
    assert!(!is_success(422));
}

#[test]
fn json_reads_as_serde_json_does() {
    let v = obj(vec![("a", s("x")), ("b", JsonValue::Bool(true)), ("a", s("y"))]);
    assert_eq!(v.get("a"), Some(&s("x")));
    assert_eq!(v.get("b").and_then(|b| b.as_str()), None);
    assert_eq!(v.get("c"), None);
    assert_eq!(s("x").get("a"), None);
    assert_eq!(v.get("a").and_then(|a| a.as_str()).map(|t| t.as_str()), Some("x"));
    let arr = JsonValue::Array(vec![JsonValue::Null]);
    assert_eq!(arr.as_array().map(|a| a.len()), Some(1));
    assert_eq!(s("x").as_array(), None);
    let taken = obj(vec![("k", num(3))]).take("k");
    assert_eq!(taken, Some(num(3)));
    assert_eq!(JsonValue::Null.take("k"), None);
}

#[test]
fn keeps_the_fields_of_a_result() {
    let record = keep_record(full_item("lib.rs"), "fn main");
    let expected = obj(vec![
        ("name", s("lib.rs")),
        ("html_url", s("https://github.com/o/r/blob/main/src/lib.rs")),
        ("sha", s("abc123")),
        ("search_term", s("fn main")),
        (
            "repository_owner",
            obj(vec![
                ("login", s("o")),
                ("avatar_url", s("https://avatars.example/o")),
                ("html_url", s("https://github.com/o")),
            ]),
        ),
        (
            "text_matches",
            JsonValue::Array(vec![obj(vec![("fragment", s("fn main"))])]),
        ),
    ]);
    assert_eq!(record, expected);
}

#[test]
fn missing_fields_become_empty() {
    let item = obj(vec![
        ("name", num(5)),
        ("repository", obj(vec![("owner", s("not an object"))])),
    ]);
    let record = keep_record(item, "w");
    let expected = obj(vec![
        ("name", s("")),
        ("html_url", s("")),
        ("sha", s("")),
        ("search_term", s("w")),
        (
            "repository_owner",
            obj(vec![("login", s("")), ("avatar_url", s("")), ("html_url", s(""))]),
        ),
        ("text_matches", JsonValue::Array(vec![])),
    ]);
    assert_eq!(record, expected);
    let record = keep_record(JsonValue::Null, "w");
    assert_eq!(record.get("text_matches"), Some(&JsonValue::Array(vec![])));
    assert_eq!(record.get("search_term"), Some(&s("w")));
}

#[test]
fn a_page_without_items_ends_the_search() {
    assert_eq!(page_records(obj(vec![("total_count", num(0))]), "w"), None);
    assert_eq!(page_records(obj(vec![("items", JsonValue::Array(vec![]))]), "w"), None);
    assert_eq!(page_records(obj(vec![("items", s("none"))]), "w"), None);
    assert_eq!(page_records(JsonValue::Null, "w"), None);
}

#[test]
fn a_page_keeps_one_record_per_item_in_order() {
    let answer = obj(vec![
        ("total_count", num(2)),
        ("items", JsonValue::Array(vec![full_item("a.rs"), full_item("b.rs")])),
    ]);
    let records = page_records(answer, "rust").expect("records");
    assert_eq!(records.len(), 2);
    assert_eq!(records[0].get("name"), Some(&s("a.rs")));
    assert_eq!(records[1].get("name"), Some(&s("b.rs")));
    assert_eq!(records[1].get("search_term"), Some(&s("rust")));
    assert_eq!(records[0], keep_record(full_item("a.rs"), "rust"));
}

#[test]
fn pages_are_walked_in_order_until_no_more() {
    let mut cursor = PageCursor::new(None);
    assert_eq!(cursor.start(), WalkStep::Ask(1));
    assert_eq!(cursor.advance(Ok(true)), WalkStep::Ask(2));
    assert_eq!(cursor.advance(Ok(true)), WalkStep::Ask(3));
    assert_eq!(cursor.advance(Ok(false)), WalkStep::Done);
    assert_eq!(cursor.start(), WalkStep::Done);
}

#[test]
fn an_error_ends_the_walk() {
    let mut cursor = PageCursor::new(Some(5));
    assert_eq!(cursor.advance(Ok(true)), WalkStep::Ask(2));
    assert_eq!(
        cursor.advance(Err(SearchError::InvalidJson)),
        WalkStep::Failed(SearchError::InvalidJson)
    );
}

#[test]
fn the_page_limit_bounds_the_walk() {
    let mut cursor = PageCursor::new(Some(3));
    let mut asked = 0;
    let mut step = cursor.start();
    while let WalkStep::Ask(_) = step {
        asked += 1;
        step = cursor.advance(Ok(true));
    }
    assert_eq!(asked, 3);

    let mut cursor = PageCursor::new(Some(1));
    assert_eq!(cursor.start(), WalkStep::Ask(1));
    assert_eq!(cursor.advance(Ok(true)), WalkStep::Done);
}

#[test]
fn a_page_limit_of_zero_asks_for_nothing() {
    let cursor = PageCursor::new(Some(0));
    assert_eq!(cursor.start(), WalkStep::Done);
}

#[test]
fn rate_limit_percentages() {
    assert_eq!(percent_remaining(50, 100), 50);
    assert_eq!(percent_remaining(1, 3), 33);
    assert_eq!(percent_remaining(5000, 5000), 100);
    assert_eq!(percent_remaining(7, 0), 100);
    assert_eq!(percent_remaining(50_000_000, 100_000_000), 50);
    assert_eq!(percent_remaining(u32::MAX, 1), u32::MAX as u64 * 100);
}

#[test]
fn rate_limit_plan_shows_the_allowance() {
    let plan = rate_limit_plan(Some("25"), Some("30"), Some("1700000000"), 1_600_000_000);
    assert_eq!(plan.allowance, Some(Allowance { remaining: 25, limit: 30, percent: 83 }));
    assert_eq!(plan.wait_secs, None);
    let plan = rate_limit_plan(Some("50000000"), Some("100000000"), None, 0);
    assert_eq!(plan.allowance, Some(Allowance { remaining: 50_000_000, limit: 100_000_000, percent: 50 }));
    let plan = rate_limit_plan(Some("25"), None, None, 0);
    assert_eq!(plan.allowance, None);
    let plan = rate_limit_plan(Some("x"), Some("30"), None, 0);
    assert_eq!(plan.allowance, None);
    assert_eq!(plan.wait_secs, None);
}

#[test]
fn rate_limit_plan_pauses_until_the_reset() {
    let plan = rate_limit_plan(Some("0"), Some("30"), Some("1000"), 940);
    assert_eq!(plan.allowance, Some(Allowance { remaining: 0, limit: 30, percent: 0 }));
    assert_eq!(plan.wait_secs, Some(60));
    let plan = rate_limit_plan(Some("0"), Some("30"), Some("1000"), 1000);
    assert_eq!(plan.wait_secs, None);
    let plan = rate_limit_plan(Some("0"), Some("30"), None, 10);
    assert_eq!(plan.wait_secs, None);
    let plan = rate_limit_plan(Some("1"), Some("30"), Some("1000"), 10);
    assert_eq!(plan.wait_secs, None);
    let plan = rate_limit_plan(Some("0"), Some("18446744073709551615"), Some("18446744073709551615"), 0);
    assert_eq!(plan.wait_secs, Some(u64::MAX));
}

#[test]
fn a_pause_needs_no_limit_header() {
    let plan = rate_limit_plan(Some("0"), None, Some("1000"), 10);
    assert_eq!(plan.allowance, None);
    assert_eq!(plan.wait_secs, Some(990));
    let plan = rate_limit_plan(Some("0"), Some("lots"), Some("1000"), 10);
    assert_eq!(plan.wait_secs, Some(990));
}

#[test]
fn rate_limit_plan_at_the_current_time() {
    let (plan, now) = rate_limit_plan_now(Some("0"), Some("30"), Some("1"));
    assert!(now > 1);
    assert_eq!(plan, rate_limit_plan(Some("0"), Some("30"), Some("1"), now));
    assert_eq!(plan.wait_secs, None);
}

#[test]
fn countdown_through_a_pause() {
    assert_eq!(
        countdown_tick(0, 0),
        Some(CountdownTick { secs_remaining: 1, percent_elapsed: 0 })
    );
    assert_eq!(
        countdown_tick(0, 500_000_000),
        Some(CountdownTick { secs_remaining: 0, percent_elapsed: 50 })
    );
    assert_eq!(
        countdown_tick(59, 30_250_000_000),
        Some(CountdownTick { secs_remaining: 29, percent_elapsed: 50 })
    );
    assert_eq!(countdown_tick(0, 1_000_000_000), None);
    assert_eq!(countdown_tick(59, 61_000_000_000), None);
    assert_eq!(
        countdown_tick(u64::MAX, 0),
        Some(CountdownTick { secs_remaining: u64::MAX as u128 + 1, percent_elapsed: 0 })
    );
}

#[test]
fn countdown_share_never_goes_back() {
    let mut last = 0;
    for elapsed in (0..60_000_000_000u128).step_by(499_999_999) {
        let tick = countdown_tick(59, elapsed).expect("within the pause");
        assert!(tick.percent_elapsed >= last);
        assert!(tick.percent_elapsed < 100);
        last = tick.percent_elapsed;
    }
}

#[test]
fn progress_lines() {
    assert_eq!(waiting_to_search("rust"), "Waiting to search for 'rust'");
    assert_eq!(starting_search("rust"), "Starting search for 'rust'");
    assert_eq!(completed_search("rust"), "✓ Completed 'rust'");
    assert_eq!(failed_search("rust"), "✗ Failed 'rust'");
    assert_eq!(searching_page("rust", 4), "Searching rust - page 4");
    assert_eq!(allowance_line(12, 30), "Rate limit: 12/30");
    assert_eq!(pause_announcement(59), "Rate limited - waiting 60 seconds");
    assert_eq!(cooldown_line(17), "Rate limit cooldown: 17s remaining");
    assert_eq!(pause_countdown(17), "Rate limited - waiting 17s");
    assert_eq!(pause_announcement(u64::MAX), "Rate limited - waiting 18446744073709551616 seconds");
    assert_eq!(allowance_unknown(), "Rate limit status: OK");
    assert_eq!(allowance_renewed(), "Rate limit status: Ready");
}

#[test]
fn token_from_the_command_line_first() {
    let searcher = GitHubSearcher::new(&args(Some("cli-token")), Some("env-token".to_string()))
        .expect("searcher");
    assert_eq!(searcher.token(), "cli-token");
    assert_eq!(searcher.output_path(), "out.json");
    assert_eq!(searcher.max_page_limit(), Some(3));
    assert_eq!(searcher.concurrency(), 2);
}

#[test]
fn token_from_the_environment_otherwise() {
    let searcher =
        GitHubSearcher::new(&args(Some("  ")), Some("env-token".to_string())).expect("searcher");
    assert_eq!(searcher.token(), "env-token");
    let searcher = GitHubSearcher::new(&args(None), Some("env-token".to_string())).expect("searcher");
    assert_eq!(searcher.token(), "env-token");
}

#[test]
fn no_token_is_an_error() {
    let err = GitHubSearcher::new(&args(None), None).err().expect("error");
    assert_eq!(err, SearchError::TokenRequired);
    assert_eq!(err.message(), "GitHub token is required");
    let err = GitHubSearcher::new(&args(Some("")), Some(" \t".to_string())).err().expect("error");
    assert_eq!(err, SearchError::TokenRequired);
}

#[test]
fn error_messages() {
    assert_eq!(
        SearchError::Api { status: 404, reason: Some("Not Found".to_string()), word: "rust".to_string(), page: 2 }
            .message(),
        "API error: 404 Not Found on word 'rust' page 2"
    );
    assert_eq!(
        SearchError::Api { status: 599, reason: None, word: "x".to_string(), page: 1 }.message(),
        "API error: 599 <unknown status code> on word 'x' page 1"
    );
    assert_eq!(SearchError::InvalidJson.message(), "error decoding response body");
    assert_eq!(SearchError::Outside("connection refused".to_string()).message(), "connection refused");
}

#[test]
fn page_steps() {
    assert_eq!(page_step(422, Some(5)), PageStep::NoMorePages);
    assert_eq!(page_step(403, Some(5)), PageStep::PauseAndRetry(5));
    assert_eq!(page_step(200, Some(5)), PageStep::PauseAndRead(5));
    assert_eq!(page_step(200, None), PageStep::Read);
    assert_eq!(page_step(500, None), PageStep::Read);
}

#[test]
fn page_outcome_on_status() {
    assert_eq!(page_outcome(422, b"{}", "w", 3), Ok(None));
    assert_eq!(
        page_outcome(404, b"not json", "rust", 2),
        Err(SearchError::Api {
            status: 404,
            reason: Some("Not Found".to_string()),
            word: "rust".to_string(),
            page: 2
        })
    );
    let err = page_outcome(403, b"{}", "rust", 1).err().expect("error");
    assert_eq!(err.message(), "API error: 403 Forbidden on word 'rust' page 1");
    let err = page_outcome(599, b"{}", "x", 1).err().expect("error");
    assert_eq!(err.message(), "API error: 599 <unknown status code> on word 'x' page 1");
}

#[test]
fn page_outcome_on_body() {
    assert_eq!(page_outcome(200, b"not json", "w", 1), Err(SearchError::InvalidJson));
    assert_eq!(page_outcome(200, br#"{"total_count": 0}"#, "w", 1), Ok(None));
    assert_eq!(page_outcome(200, br#"{"items": []}"#, "w", 1), Ok(None));
    let body = br#"{"total_count": 1, "items": [{"name": "a.rs", "sha": "s1",
        "html_url": "https://github.com/o/r/blob/main/a.rs",
        "repository": {"owner": {"login": "o", "avatar_url": "av", "html_url": "https://github.com/o"}},
        "text_matches": [{"fragment": "fn \"main\"", "matches": [{"indices": [0, 2]}]}]}]}"#;
    let line = page_outcome(200, body, "fn", 1).expect("ok").expect("a line");
    let expected: serde_json::Value = serde_json::from_str(
        r#"[{
        "name": "a.rs",
        "html_url": "https://github.com/o/r/blob/main/a.rs",
        "sha": "s1",
        "search_term": "fn",
        "repository_owner": {"login": "o", "avatar_url": "av", "html_url": "https://github.com/o"},
        "text_matches": [{"fragment": "fn \"main\"", "matches": [{"indices": [0, 2]}]}]
    }]"#,
    )
    .unwrap();
    assert_eq!(line, serde_json::to_string(&expected).unwrap());
    let line = page_outcome(201, br#"{"items": [{}, {"name": 3}]}"#, "w", 1).expect("ok").expect("line");
    let parsed: serde_json::Value = serde_json::from_str(&line).unwrap();
    assert_eq!(parsed.as_array().map(|a| a.len()), Some(2));
    assert_eq!(parsed[1]["name"], serde_json::Value::String(String::new()));
    assert_eq!(parsed[0]["text_matches"], serde_json::Value::Array(vec![]));
}

#[test]
fn the_first_failure_decides_the_run() {
    let outcomes = vec![
        TaskOutcome::Finished(Ok(())),
        TaskOutcome::Lost,
        TaskOutcome::Finished(Err(SearchError::Outside("first".to_string()))),
        TaskOutcome::Finished(Err(SearchError::Outside("second".to_string()))),
    ];
    assert_eq!(run_result(outcomes), Err(SearchError::Outside("first".to_string())));
    assert_eq!(
        run_result(vec![TaskOutcome::Finished(Ok(())), TaskOutcome::Lost]),
        Ok(())
    );
    assert_eq!(run_result(vec![]), Ok(()));
}

#[test]
fn outcome_lines() {
    assert_eq!(outcome_line("w", &Ok(())), "✓ Completed 'w'");
    assert_eq!(outcome_line("w", &Err(SearchError::TokenRequired)), "✗ Failed 'w'");
}

#[test]
fn documented_defaults() {
    assert_eq!(DEFAULT_OUTPUT, "search_results.json");
    assert_eq!(DEFAULT_CONCURRENCY, 2);
}
