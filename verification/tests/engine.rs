use jukebox::config::AppConfig;
use jukebox::engine::bans::{ban_error, ban_expiry_at, remaining_text};
use jukebox::engine::queue::{
    advance, clean_name, cooldown_error, downvote, enqueue_check, enqueue_position, shuffle_pick, limit_error, minutes_ago_at,
    next_song, pick_standby_track, player_event, rate_limit_error_at, remove_entry, reorder,
    starts_after_add, vote_view, CooldownFacts, DownvoteDecision, EventDecision, NextInputs,
    NextSong, RemoveAction,
};
use jukebox::engine::stats::{
    clean_name as stats_clean_name, merge_users, redact, sort_by_activity, source_from_name,
    source_name, user_stats, GuestCount,
};
use jukebox::engine::{EngineError, QueueRow, Runtime, MAX_FAILURES_IN_A_ROW};
use jukebox::player::PlayerEvent;
use jukebox::types::{BanEntry, PlaySource};

fn row(id: i64, track_id: i64, ip: &str, playing: bool) -> QueueRow {
    QueueRow {
        id,
        track_id,
        added_by_ip: ip.to_string(),
        added_by_name: None,
        playing,
    }
}

fn rejected(r: Result<(), EngineError>) -> (u16, String) {
    match r {
        Err(EngineError::Rejected { status, message }) => (status, message),
        Ok(()) => panic!("expected a rejection"),
    }
}

#[test]
fn guests_come_first_then_standby_then_random_fill() {
    let mut config = AppConfig::defaults();
    config.standby_enabled = true;
    config.standby_random_enabled = true;
    let mut rt = Runtime::new();
    let guest = next_song(
        &mut rt,
        NextInputs { next_pending: Some(row(1, 10, "10.0.0.2", false)), standby_ids: vec![7, 8], random_pick: Some(3) },
        &config,
    );
    assert!(matches!(guest, NextSong::Guest { row } if row.id == 1));
    let inputs = || NextInputs { next_pending: None, standby_ids: vec![7, 8], random_pick: Some(3) };
    assert!(matches!(next_song(&mut rt, inputs(), &config), NextSong::Filler { track_id: 7, source: PlaySource::Standby }));
    assert!(matches!(next_song(&mut rt, inputs(), &config), NextSong::Filler { track_id: 8, source: PlaySource::Standby }));
    assert!(matches!(next_song(&mut rt, inputs(), &config), NextSong::Filler { track_id: 7, source: PlaySource::Standby }), "the playlist wraps round");
    let no_standby = NextInputs { next_pending: None, standby_ids: Vec::new(), random_pick: Some(3) };
    assert!(matches!(next_song(&mut rt, no_standby, &config), NextSong::Filler { track_id: 3, source: PlaySource::Random }));
    config.standby_random_enabled = false;
    let nothing = NextInputs { next_pending: None, standby_ids: Vec::new(), random_pick: Some(3) };
    assert!(matches!(next_song(&mut rt, nothing, &config), NextSong::Stop));
    assert!(rt.playing.is_none());
}

#[test]
fn shuffled_standby_avoids_repeating_when_it_can() {
    let mut rt = Runtime::new();
    let ids = vec![4];
    assert_eq!(pick_standby_track(&mut rt, &ids, true), Some(4));
    assert_eq!(pick_standby_track(&mut rt, &ids, true), Some(4), "one track has to repeat");
    let ids = vec![1, 2, 3];
    for _ in 0..20 {
        let pick = pick_standby_track(&mut rt, &ids, true).unwrap();
        assert!(ids.contains(&pick));
        assert_eq!(rt.last_standby, Some(pick));
    }
    assert_eq!(pick_standby_track(&mut rt, &Vec::new(), true), None);
}

#[test]
fn player_reports_about_replaced_songs_are_ignored() {
    let mut rt = Runtime::new();
    rt.now_playing(2, 50, "Song".into());
    assert!(matches!(player_event(&mut rt, PlayerEvent::Ended { load: 1 }, Some(2)), EventDecision::Ignored));
    assert!(matches!(player_event(&mut rt, PlayerEvent::Started { load: 2 }, Some(2)), EventDecision::Started { broadcast: false }));
    assert!(rt.playing.as_ref().unwrap().started);
    assert!(matches!(player_event(&mut rt, PlayerEvent::Ended { load: 2 }, Some(2)), EventDecision::Advance));
}

#[test]
fn five_failures_in_a_row_stop_playback() {
    let mut rt = Runtime::new();
    for i in 1..MAX_FAILURES_IN_A_ROW as u64 {
        rt.now_playing(i, 100 + i as i64, format!("Song {i}"));
        let d = player_event(&mut rt, PlayerEvent::Failed { load: i, reason: "bad".into() }, Some(i));
        assert!(matches!(d, EventDecision::Skip { forget_history: Some(h) } if h == 100 + i as i64));
    }
    rt.now_playing(5, 105, "Last".into());
    let d = player_event(&mut rt, PlayerEvent::Failed { load: 5, reason: "no such file".into() }, Some(5));
    assert!(matches!(d, EventDecision::Stop { forget_history: Some(105) }));
    assert_eq!(
        rt.problem.as_deref(),
        Some("Playback stopped: the last 5 songs couldn't be played. The last was \u{201c}Last\u{201d}: no such file.")
    );
    let config = AppConfig::defaults();
    let inputs = NextInputs { next_pending: Some(row(9, 9, "g", false)), standby_ids: Vec::new(), random_pick: None };
    assert!(matches!(advance(&mut rt, inputs, &config), NextSong::Guest { .. }));
    assert_eq!(rt.failures, 0);
    assert!(rt.problem.is_none());
}

#[test]
fn a_failed_song_that_played_keeps_its_history() {
    let mut rt = Runtime::new();
    rt.now_playing(1, 70, "Song".into());
    player_event(&mut rt, PlayerEvent::Started { load: 1 }, Some(1));
    let d = player_event(&mut rt, PlayerEvent::Failed { load: 1, reason: "x".into() }, Some(1));
    assert!(matches!(d, EventDecision::Skip { forget_history: None }));
    let d = player_event(&mut rt, PlayerEvent::Failed { load: 1, reason: "x".into() }, Some(1));
    assert!(matches!(d, EventDecision::NotQueued));
}

#[test]
fn each_guest_downvotes_once_and_enough_votes_skip() {
    let mut rt = Runtime::new();
    let playing = row(5, 50, "10.0.0.9", true);
    assert!(matches!(downvote(&mut rt, Some(&playing), 0, "a"), DownvoteDecision::Ignored), "votes off");
    assert!(matches!(downvote(&mut rt, Some(&playing), 2, "a"), DownvoteDecision::Counted { track_id: 50, skip: false }));
    assert!(matches!(downvote(&mut rt, Some(&playing), 2, "a"), DownvoteDecision::Ignored), "counted once");
    let view = vote_view(&rt, Some(&playing), 2, "a");
    assert_eq!((view.downvotes, view.downvoted_by_me, view.is_standby), (1, true, false));
    let hidden = vote_view(&rt, Some(&playing), -2, "b");
    assert_eq!((hidden.downvotes, hidden.downvoted_by_me), (0, false));
    assert!(matches!(downvote(&mut rt, Some(&playing), -2, "b"), DownvoteDecision::Counted { track_id: 50, skip: true }));
    let next = row(6, 60, "__random__", true);
    assert!(matches!(downvote(&mut rt, Some(&next), 2, "a"), DownvoteDecision::Counted { track_id: 60, skip: false }), "a new song's votes start over");
    assert_eq!(rt.downvote_entry, Some(6));
    assert_eq!(rt.downvoters, vec!["a".to_string()]);
    let standby = row(7, 70, "__standby__", true);
    assert!(matches!(downvote(&mut rt, Some(&standby), 2, "c"), DownvoteDecision::Ignored));
    assert!(vote_view(&rt, Some(&standby), 2, "c").is_standby);
    assert!(matches!(downvote(&mut rt, None, 2, "c"), DownvoteDecision::Ignored));
}

#[test]
fn only_your_own_songs_can_be_removed() {
    let mine = row(1, 1, "10.0.0.2", false);
    let playing = row(2, 2, "10.0.0.2", true);
    let err = remove_entry(None, "10.0.0.2", false);
    assert!(matches!(err, Err(EngineError::Rejected { status: 404, message }) if message == "Entry not found"));
    let err = remove_entry(Some(&mine), "10.0.0.3", false);
    assert!(matches!(err, Err(EngineError::Rejected { status: 403, message }) if message == "You can only remove songs you added."));
    assert!(matches!(remove_entry(Some(&mine), "10.0.0.3", true), Ok(RemoveAction::Delete)));
    assert!(matches!(remove_entry(Some(&mine), "10.0.0.2", false), Ok(RemoveAction::Delete)));
    assert!(matches!(remove_entry(Some(&playing), "10.0.0.2", false), Ok(RemoveAction::Skip)));
}

#[test]
fn reordering_moves_one_entry_and_clamps() {
    let ids = vec![10, 20, 30, 40];
    assert_eq!(reorder(&ids, 30, 0), Some(vec![30, 10, 20, 40]));
    assert_eq!(reorder(&ids, 10, 99), Some(vec![20, 30, 40, 10]));
    assert_eq!(reorder(&ids, 10, -3), Some(vec![10, 20, 30, 40]));
    assert_eq!(reorder(&ids, 20, 2), Some(vec![10, 30, 20, 40]));
    assert_eq!(reorder(&ids, 99, 0), None);
}

#[test]
fn adds_are_refused_with_the_most_decisive_reason_first() {
    let s = |t: &str| Some(t.to_string());
    assert_eq!(rejected(enqueue_check(false, s("ban"), None, None, None)), (404, "Track not found".into()));
    assert_eq!(rejected(enqueue_check(true, s("ban"), s("wait"), s("cool"), s("limit"))), (403, "ban".into()));
    assert_eq!(rejected(enqueue_check(true, None, s("wait"), s("cool"), s("limit"))), (429, "wait".into()));
    assert_eq!(rejected(enqueue_check(true, None, None, s("cool"), s("limit"))), (409, "cool".into()));
    assert_eq!(rejected(enqueue_check(true, None, None, None, s("limit"))), (409, "limit".into()));
    assert!(enqueue_check(true, None, None, None, None).is_ok());
}

#[test]
fn limits_and_waits_are_worded_like_the_web_ui() {
    assert_eq!(limit_error(3, 2), None);
    assert_eq!(limit_error(3, 3).as_deref(), Some("You can have at most 3 songs in the queue."));
    assert_eq!(limit_error(-1, 1).as_deref(), Some("You can have at most 1 song in the queue."));
    assert_eq!(limit_error(0, 100), None);
    assert_eq!(rate_limit_error_at(0, Some(0), 1), None);
    assert_eq!(rate_limit_error_at(5, None, 1), None);
    assert_eq!(
        rate_limit_error_at(5, Some(0), 60_000).as_deref(),
        Some("You're adding songs too quickly \u{2014} try again in 4 min.")
    );
    assert_eq!(
        rate_limit_error_at(1, Some(0), 58_500).as_deref(),
        Some("You're adding songs too quickly \u{2014} try again in 2 s.")
    );
    assert_eq!(rate_limit_error_at(1, Some(0), 60_000), None);
}

#[test]
fn cooldowns_block_songs_and_artists_on_their_own_windows() {
    let facts = |sq, sr, aq, ar| CooldownFacts {
        song_queued: sq,
        song_played_recently: sr,
        artist_queued: aq,
        artist_played_recently: ar,
    };
    assert_eq!(
        cooldown_error(30, 60, "One", Some("Daft Punk"), &facts(true, true, true, true)).as_deref(),
        Some("\"One\" is already in the queue.")
    );
    assert_eq!(
        cooldown_error(30, 60, "One", Some("Daft Punk"), &facts(false, true, true, true)).as_deref(),
        Some("\"One\" was played in the last 30 min \u{2014} pick something else.")
    );
    assert_eq!(
        cooldown_error(0, 60, "One", Some("Daft Punk"), &facts(true, true, true, true)).as_deref(),
        Some("Daft Punk is already in the queue \u{2014} try another artist.")
    );
    assert_eq!(
        cooldown_error(0, 60, "One", Some("Daft Punk"), &facts(true, true, false, true)).as_deref(),
        Some("Daft Punk was played in the last 60 min \u{2014} try another artist.")
    );
    assert_eq!(cooldown_error(0, 60, "One", Some(""), &facts(true, true, true, true)), None);
    assert_eq!(cooldown_error(0, 0, "One", None, &facts(true, true, true, true)), None);
}

#[test]
fn names_are_trimmed_or_dropped() {
    assert_eq!(clean_name(Some("  Laptop ")).as_deref(), Some("Laptop"));
    assert_eq!(clean_name(Some(" \t ")), None);
    assert_eq!(clean_name(None), None);
    assert_eq!(stats_clean_name(Some(" x ")), Some("x"));
    assert_eq!(stats_clean_name(Some("")), None);
}

#[test]
fn a_guest_song_takes_over_from_filler() {
    assert!(starts_after_add(None));
    assert!(starts_after_add(Some("__standby__")));
    assert!(starts_after_add(Some("__random__")));
    assert!(!starts_after_add(Some("10.0.0.2")));
}

#[test]
fn cooldown_windows_count_back_from_now() {
    assert_eq!(minutes_ago_at(1, 60_000), "1970-01-01T00:00:00.000Z");
    assert_eq!(minutes_ago_at(0, 1_500), "1970-01-01T00:00:01.500Z");
}

#[test]
fn ban_time_left_is_rounded_like_the_web_ui() {
    assert_eq!(remaining_text(Some(1)), "1 min");
    assert_eq!(remaining_text(Some(-5)), "1 min");
    assert_eq!(remaining_text(None), "1 min");
    assert_eq!(remaining_text(Some(59 * 60_000)), "59 min");
    assert_eq!(remaining_text(Some(60 * 60_000)), "1 hour");
    assert_eq!(remaining_text(Some(90 * 60_000)), "2 hours");
    assert_eq!(remaining_text(Some(47 * 3_600_000)), "47 hours");
    assert_eq!(remaining_text(Some(48 * 3_600_000)), "2 days");
    assert_eq!(remaining_text(Some(84 * 3_600_000)), "4 days");
}

#[test]
fn bans_say_how_long_they_last() {
    assert_eq!(ban_error(None), Ok(None));
    let permanent = BanEntry { ip: "1".into(), name: None, banned_at: "t".into(), expires_at: None };
    assert_eq!(ban_error(Some(&permanent)).unwrap().as_deref(), Some("You have been blocked from adding songs."));
    let timed = BanEntry { ip: "1".into(), name: None, banned_at: "t".into(), expires_at: Some("2999-01-01T00:00:00.000Z".into()) };
    let message = ban_error(Some(&timed)).unwrap().unwrap();
    assert!(message.starts_with("You have been blocked from adding songs for another "), "{message}");
    assert!(message.ends_with(" days."), "{message}");
    assert_eq!(ban_expiry_at(0, 5), None);
    assert_eq!(ban_expiry_at(1, 0).as_deref(), Some("1970-01-01T00:01:00.000Z"));
}

fn count(ip: &str, name: Option<&str>, count: i64) -> GuestCount {
    GuestCount { ip: ip.to_string(), name: name.map(str::to_string), count }
}

#[test]
fn guest_stats_merge_by_address_most_active_first() {
    let requests = vec![count("a", None, 2), count("b", Some("Bee"), 5)];
    let downvotes = vec![count("a", Some("Ay"), 3), count("c", None, 1)];
    let bans = vec![BanEntry { ip: "d".into(), name: Some("Dee".into()), banned_at: "t".into(), expires_at: Some("x".into()) }];
    let users = merge_users(&requests, &downvotes, &bans);
    let ids: Vec<&str> = users.iter().map(|u| u.id.as_str()).collect();
    assert_eq!(ids, vec!["a", "b", "c", "d"]);
    assert_eq!(users[0].name.as_deref(), Some("Ay"));
    assert_eq!((users[0].requests, users[0].downvotes), (2, 3));
    assert!(users[3].banned && users[3].banned_until.as_deref() == Some("x"));
    let sorted = sort_by_activity(users);
    let ids: Vec<&str> = sorted.iter().map(|u| u.id.as_str()).collect();
    assert_eq!(ids, vec!["b", "a", "c", "d"]);
    let admin = user_stats(&requests, &downvotes, &bans, true);
    assert_eq!(admin[0].ip.as_deref(), Some("b"));
    let guests = user_stats(&requests, &downvotes, &bans, false);
    assert_eq!(guests.len(), 4);
    assert!(guests.iter().all(|u| u.ip.is_none() && !u.banned && u.banned_until.is_none() && u.id.len() == 8));
    assert_eq!(guests[0].requests, 5);
    let redacted = redact(sort_by_activity(merge_users(&vec![count("abc", None, 1)], &Vec::new(), &Vec::new())));
    assert_eq!(redacted[0].id, "a9993e36");
}

#[test]
fn play_sources_round_trip_through_their_column() {
    for source in [PlaySource::Guest, PlaySource::Standby, PlaySource::Random] {
        assert_eq!(source_from_name(source_name(source)), source);
    }
    assert_eq!(source_from_name("something else"), PlaySource::Guest);
}

#[test]
fn shuffle_takes_the_first_draw_that_is_not_the_previous_track() {
    let ids = vec![10, 20, 30];
    assert_eq!(shuffle_pick(&ids, &vec![0, 0, 2, 1, 0, 0, 0, 0, 0], Some(10)), 30);
    assert_eq!(shuffle_pick(&ids, &vec![1, 0, 0, 0, 0, 0, 0, 0, 0], Some(10)), 20);
    assert_eq!(shuffle_pick(&ids, &vec![0; 9], Some(10)), 10, "nine repeats: the ninth draw stands");
    assert_eq!(shuffle_pick(&ids, &vec![0, 0, 0, 0, 0, 0, 0, 0, 1], Some(10)), 20);
    assert_eq!(shuffle_pick(&ids, &vec![2; 9], None), 30);
}

#[test]
fn an_accepted_add_goes_one_past_the_end_and_a_refused_one_nowhere() {
    assert_eq!(enqueue_position(true, None, None, None, None, Some(7)).ok(), Some(8));
    assert_eq!(enqueue_position(true, None, None, None, None, None).ok(), Some(1));
    let refused = enqueue_position(true, Some("banned".into()), Some("wait".into()), None, None, Some(7));
    assert_eq!(rejected(refused.map(|_| ())), (403, "banned".to_string()));
    let refused = enqueue_position(false, Some("banned".into()), None, None, None, Some(7));
    assert_eq!(rejected(refused.map(|_| ())), (404, "Track not found".to_string()));
}
