use autovoice::args::{Args, ConfigError};
use autovoice::event::{process_event, Event, EventError};
use autovoice::promote::{check_promotion, find_next_promotee, random_jitter_millis};
use autovoice::store::Users;
use autovoice::text::{has_special_role, split_spaces, str_eq};

fn args_with(
    seconds: Option<u64>,
    minutes: Option<u64>,
    hours: Option<u64>,
) -> Args {
    Args {
        verbose: 0,
        server: "irc.example.net".to_string(),
        nickname: "voicebot".to_string(),
        password: None,
        channel: "#mod".to_string(),
        promote_after_seconds: seconds,
        promote_after_minutes: minutes,
        promote_after_hours: hours,
    }
}

fn join(nick: &str) -> Event {
    Event::Join { nick: Some(nick.to_string()) }
}

fn part(nick: &str) -> Event {
    Event::Part { nick: Some(nick.to_string()) }
}

fn names_reply(channel: &str, names: &str) -> Event {
    Event::NamesReply {
        args: vec![
            "voicebot".to_string(),
            "=".to_string(),
            channel.to_string(),
            names.to_string(),
        ],
    }
}

#[test]
fn replay_join_part_net_presence() {
    let mut users = Users::new();
    process_event(&mut users, &join("alice"), 0).unwrap();
    process_event(&mut users, &join("bob"), 1).unwrap();
    process_event(&mut users, &part("alice"), 2).unwrap();
    process_event(&mut users, &join("carol"), 3).unwrap();
    process_event(&mut users, &part("carol"), 4).unwrap();
    process_event(&mut users, &join("carol"), 5).unwrap();
    assert!(!users.contains("alice"));
    assert!(users.contains("bob"));
    assert!(users.contains("carol"));
    assert_eq!(users.len(), 2);
}

#[test]
fn part_of_absent_identity_is_noop() {
    let mut users = Users::new();
    process_event(&mut users, &part("ghost"), 0).unwrap();
    assert_eq!(users.len(), 0);
}

#[test]
fn join_without_originator_is_ignored() {
    let mut users = Users::new();
    process_event(&mut users, &Event::Join { nick: None }, 0).unwrap();
    process_event(&mut users, &Event::Part { nick: None }, 0).unwrap();
    process_event(&mut users, &Event::Other, 0).unwrap();
    assert_eq!(users.len(), 0);
}

#[test]
fn snapshot_inserts_unprefixed_names_at_now() {
    let mut users = Users::new();
    let r = process_event(&mut users, &names_reply("#mod", "@admin user1 user2"), 7);
    assert_eq!(r, Ok(()));
    assert!(!users.contains("admin"));
    assert!(!users.contains("@admin"));
    assert!(users.contains("user1"));
    assert!(users.contains("user2"));
    for (name, joined_at) in users.snapshot() {
        assert_eq!(*joined_at, 7, "identity {name:?} was not stamped with now");
    }
}

#[test]
fn snapshot_skips_every_marker() {
    let mut users = Users::new();
    let r = process_event(
        &mut users,
        &names_reply("#mod", "@a +b ~c &d %e plain"),
        1,
    );
    assert_eq!(r, Ok(()));
    assert_eq!(users.len(), 1);
    assert!(users.contains("plain"));
}

#[test]
fn malformed_names_reply_is_reported_and_dropped() {
    let mut users = Users::new();
    process_event(&mut users, &join("alice"), 0).unwrap();
    let malformed = Event::NamesReply {
        args: vec!["voicebot".to_string(), "=".to_string(), "#mod".to_string()],
    };
    let r = process_event(&mut users, &malformed, 5);
    assert_eq!(r, Err(EventError::MalformedNamesReply));
    assert_eq!(users.len(), 1);
    assert!(users.contains("alice"));
}

#[test]
fn snapshot_resets_clock_of_listed_identity() {
    let mut users = Users::new();
    process_event(&mut users, &join("alice"), 0).unwrap();
    process_event(&mut users, &names_reply("#mod", "alice"), 50).unwrap();
    // joined_at was reset to 50, so at now = 100 only 50 units have elapsed.
    assert!(find_next_promotee(&users, 60, 100).is_none());
    assert_eq!(find_next_promotee(&users, 40, 100), Some("alice".to_string()));
}

#[test]
fn select_returns_none_on_empty_store() {
    let users = Users::new();
    assert!(find_next_promotee(&users, 0, 1_000_000).is_none());
}

#[test]
fn select_returns_none_below_cooldown() {
    let mut users = Users::new();
    process_event(&mut users, &join("alice"), 100).unwrap();
    // Dwell equal to the cooldown is not enough: it must be exceeded.
    assert!(find_next_promotee(&users, 300, 400).is_none());
    assert!(find_next_promotee(&users, 300, 399).is_none());
    // A timestamp in the future never qualifies either.
    assert!(find_next_promotee(&users, 300, 50).is_none());
}

#[test]
fn scheduler_never_promotes_the_bot() {
    let mut users = Users::new();
    // The bot joins first, so it is the longest-present identity.
    process_event(&mut users, &join("voicebot"), 0).unwrap();
    process_event(&mut users, &join("alice"), 10).unwrap();
    let mut promoted = Vec::new();
    // Drain the store through repeated checks; the bot must never come out.
    for _ in 0..4 {
        if let Some(n) = check_promotion(&mut users, 100, 100_000, "voicebot") {
            promoted.push(n);
        }
    }
    assert_eq!(users.len(), 0);
    assert_eq!(promoted, vec!["alice".to_string()]);
}

#[test]
fn promotion_scenario_five_minute_cooldown() {
    let cooldown = args_with(None, Some(5), None).cooldown_seconds().unwrap();
    assert_eq!(cooldown, 300);
    let mut users = Users::new();
    process_event(&mut users, &join("alice"), 0).unwrap();
    // At t = 4 min nobody has dwelled past the cooldown.
    assert!(check_promotion(&mut users, cooldown, 240, "voicebot").is_none());
    assert!(users.contains("alice"));
    // At t = 6 min alice qualifies, is returned, and is consumed.
    let r = check_promotion(&mut users, cooldown, 360, "voicebot");
    assert_eq!(r, Some("alice".to_string()));
    assert_eq!(users.len(), 0);
    assert!(check_promotion(&mut users, cooldown, 360, "voicebot").is_none());
}

#[test]
fn failed_promotion_is_not_reinserted_and_snapshot_restores_clock() {
    let mut users = Users::new();
    process_event(&mut users, &join("alice"), 0).unwrap();
    let r = check_promotion(&mut users, 300, 400, "voicebot");
    assert_eq!(r, Some("alice".to_string()));
    // The promotion command fails downstream: nothing is re-inserted.
    assert_eq!(users.len(), 0);
    assert!(check_promotion(&mut users, 300, 500, "voicebot").is_none());
    // A later snapshot re-observes alice; her clock starts at that time.
    process_event(&mut users, &names_reply("#mod", "alice"), 1000).unwrap();
    assert!(find_next_promotee(&users, 300, 1200).is_none());
    assert_eq!(
        find_next_promotee(&users, 300, 1301),
        Some("alice".to_string())
    );
}

#[test]
fn repeated_join_resets_the_clock() {
    let mut users = Users::new();
    process_event(&mut users, &join("alice"), 0).unwrap();
    process_event(&mut users, &join("alice"), 250).unwrap();
    assert_eq!(users.len(), 1);
    // Only 50 units since the second join: not eligible at cooldown 100.
    assert!(find_next_promotee(&users, 100, 300).is_none());
    assert_eq!(find_next_promotee(&users, 100, 351), Some("alice".to_string()));
}

#[test]
fn cooldown_prefers_seconds_then_minutes_then_hours() {
    assert_eq!(args_with(Some(42), None, None).cooldown_seconds(), Ok(42));
    assert_eq!(args_with(None, Some(2), None).cooldown_seconds(), Ok(120));
    assert_eq!(args_with(None, None, Some(3)).cooldown_seconds(), Ok(10800));
    assert_eq!(
        args_with(None, None, None).cooldown_seconds(),
        Err(ConfigError::MissingPromoteAfter)
    );
}

#[test]
fn split_spaces_matches_single_character_split() {
    let cases = [
        "@admin user1 user2",
        "",
        " ",
        "a  b",
        " lead",
        "trail ",
        "one",
    ];
    for s in cases {
        let got = split_spaces(s);
        let expected: Vec<String> = s.split(' ').map(|t| t.to_string()).collect();
        assert_eq!(got, expected, "splitting {s:?}");
    }
}

#[test]
fn special_role_markers() {
    for marker in ["@", "+", "~", "&", "%"] {
        let name = format!("{marker}admin");
        assert!(has_special_role(&name), "marker {marker:?}");
    }
    assert!(!has_special_role("admin"));
    assert!(!has_special_role(""));
    assert!(!has_special_role("ad@min"));
}

#[test]
fn str_eq_agrees_with_equality() {
    assert!(str_eq("alice", "alice"));
    assert!(!str_eq("alice", "alicia"));
    assert!(!str_eq("alice", "Alice"));
    assert!(str_eq("", ""));
    assert!(!str_eq("", "a"));
}

#[test]
fn jitter_stays_in_range() {
    for _ in 0..200 {
        let j = random_jitter_millis();
        assert!((100..250).contains(&j), "jitter {j} out of range");
    }
}

#[test]
fn store_remove_and_contains() {
    let mut users = Users::new();
    users.record_present("alice", 1);
    users.record_present("bob", 2);
    assert!(users.contains("alice"));
    users.remove("alice");
    assert!(!users.contains("alice"));
    assert!(users.contains("bob"));
    users.remove("alice");
    assert_eq!(users.len(), 1);
}
