use herdr_chrome::api::schema::{
    PluginActionInfo, StatusClearParams, StatusOutcome, StatusSetParams,
};
use herdr_chrome::app::api::{
    normalize_status_source, normalize_status_ttl, sanitize_status_text, STATUS_SOURCE_MAX_CHARS,
    STATUS_TTL_MAX_MS,
};
use herdr_chrome::app::slots::MAX_STATUS_SLOT_SOURCES;
use herdr_chrome::app::App;
use herdr_chrome::strip::StatusConfig;
use herdr_chrome::time::{Duration, Instant};

fn now() -> Instant {
    Instant {
        nanos: 3_000_000_000,
    }
}

fn set(source: &str, text: &str, seq: Option<u64>, ttl_ms: Option<u64>) -> StatusSetParams {
    StatusSetParams {
        source: source.into(),
        text: text.into(),
        seq,
        ttl_ms,
    }
}

fn clear(source: &str) -> StatusClearParams {
    StatusClearParams {
        source: source.into(),
    }
}

fn code(outcome: &StatusOutcome) -> Option<&'static str> {
    match outcome {
        StatusOutcome::Done => None,
        StatusOutcome::Error { code, .. } => Some(code),
    }
}

#[test]
fn status_set_writes_store_and_sanitizes() {
    let mut app = App::new();
    // Control bytes (ESC, BEL) are stripped, so only printable text survives.
    let reply = app.handle_status_set(
        "s1".into(),
        set("git", "\u{1b}main\u{7}", None, None),
        now(),
    );
    assert_eq!(reply.id, "s1");
    assert_eq!(reply.outcome, StatusOutcome::Done);
    assert_eq!(app.state.status_slots.get("git", now()), Some("main"));
}

#[test]
fn status_set_honors_seq_and_clear_removes() {
    let mut app = App::new();
    app.handle_status_set("s1".into(), set("git", "main", Some(5), None), now());
    // Older seq is ignored.
    app.handle_status_set("s2".into(), set("git", "old", Some(4), None), now());
    assert_eq!(app.state.status_slots.get("git", now()), Some("main"));

    let reply = app.handle_status_clear("c1".into(), clear("git"), now());
    assert_eq!(reply.outcome, StatusOutcome::Done);
    assert_eq!(app.state.status_slots.get("git", now()), None);
}

#[test]
fn status_set_rejects_invalid_source() {
    let mut app = App::new();
    let reply = app.handle_status_set("s1".into(), set("bad source!", "x", None, None), now());
    assert_eq!(code(&reply.outcome), Some("invalid_status_source"));
    let reply = app.handle_status_clear("c1".into(), clear("  "), now());
    assert_eq!(
        reply.outcome,
        StatusOutcome::Error {
            code: "invalid_status_source",
            message: "status source must not be empty",
        }
    );
}

#[test]
fn status_set_rejects_out_of_range_ttl() {
    let mut app = App::new();
    for ttl_ms in [0, STATUS_TTL_MAX_MS + 1] {
        let reply = app.handle_status_set("s1".into(), set("git", "x", None, Some(ttl_ms)), now());
        assert_eq!(code(&reply.outcome), Some("invalid_status_ttl"));
    }
    assert_eq!(app.state.status_slots.get("git", now()), None);
}

#[test]
fn sources_are_trimmed_and_checked() {
    assert_eq!(
        normalize_status_source("  a:B.9_-  ".into()),
        Ok("a:B.9_-".to_string())
    );
    assert_eq!(
        normalize_status_source("\t".into()),
        Err("status source must not be empty")
    );
    let longest = "x".repeat(STATUS_SOURCE_MAX_CHARS);
    assert_eq!(normalize_status_source(longest.clone()), Ok(longest.clone()));
    assert_eq!(
        normalize_status_source(format!("{longest}x")),
        Err("status source must be 80 characters or fewer")
    );
    assert_eq!(
        normalize_status_source("é".into()),
        Err("status source may contain only ASCII letters, digits, colon, dot, underscore, and hyphen")
    );
}

#[test]
fn ttls_are_bounded() {
    assert_eq!(normalize_status_ttl(None), Ok(None));
    assert_eq!(
        normalize_status_ttl(Some(1)),
        Ok(Some(Duration::from_millis(1)))
    );
    assert_eq!(
        normalize_status_ttl(Some(STATUS_TTL_MAX_MS)),
        Ok(Some(Duration::from_millis(86_400_000)))
    );
    assert_eq!(
        normalize_status_ttl(Some(0)),
        Err("status ttl_ms must be at least 1")
    );
    assert_eq!(
        normalize_status_ttl(Some(STATUS_TTL_MAX_MS + 1)),
        Err("status ttl_ms must be 86400000 or less")
    );
}

#[test]
fn the_lane_refuses_a_source_beyond_its_ceiling() {
    let mut app = App::new();
    for index in 0..MAX_STATUS_SLOT_SOURCES {
        let reply = app.handle_status_set(
            "s".into(),
            set(&format!("s{index}"), "x", None, None),
            now(),
        );
        assert_eq!(reply.outcome, StatusOutcome::Done);
    }
    let reply = app.handle_status_set("s".into(), set("more", "x", None, None), now());
    assert_eq!(
        reply.outcome,
        StatusOutcome::Error {
            code: "status_slot_limit",
            message: "the status strip holds at most 32 pushed sources",
        }
    );
    assert_eq!(app.state.status_slots.get("more", now()), None);
    let reply = app.handle_status_set("s".into(), set("s0", "y", None, None), now());
    assert_eq!(reply.outcome, StatusOutcome::Done);
    assert_eq!(app.state.status_slots.get("s0", now()), Some("y"));
}

#[test]
fn only_a_rendered_change_asks_for_a_repaint() {
    let mut app = App::new();
    app.configure_status_strip(
        &StatusConfig {
            status_right: "#{slot:git}".into(),
            status_right_length: 20,
            status_interval: 5,
        },
        true,
        now(),
    );
    app.handle_status_set("1".into(), set("other", "x", None, None), now());
    assert!(!app.take_repaint_request());
    app.handle_status_set("2".into(), set("git", "main", None, None), now());
    assert!(app.take_repaint_request());
    app.handle_status_set("3".into(), set("git", "main", None, None), now());
    assert!(!app.take_repaint_request());
    app.handle_status_clear("4".into(), clear("git"), now());
    assert!(app.take_repaint_request());
    app.handle_status_clear("5".into(), clear("git"), now());
    assert!(!app.take_repaint_request());
}

#[test]
fn a_pushed_blank_empties_the_slot() {
    let mut app = App::new();
    app.handle_status_set("1".into(), set("git", "main", None, None), now());
    app.handle_status_set("2".into(), set("git", " \u{7} ", None, None), now());
    assert_eq!(app.state.status_slots.get("git", now()), Some(""));
    assert_eq!(sanitize_status_text(" a\u{1b}b\nc").as_deref(), Some("ab"));
    assert_eq!(sanitize_status_text(" \u{7} "), None);
}

#[test]
fn plugin_actions_have_a_full_id() {
    let action = PluginActionInfo {
        plugin_id: "myplugin".into(),
        action_id: "dosomething".into(),
        title: "Do".into(),
        description: None,
    };
    assert_eq!(action.qualified_id(), "myplugin.dosomething");
}
