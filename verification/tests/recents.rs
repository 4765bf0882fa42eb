use vela_core::config::AppConfig;
use vela_core::recents::{
    complete_clean_session, finish, finish_session, hide_from_continue, hide_with_undo, list,
    record, record_play_start, restore_hidden, resume_stamp_ms, unrecord, untombstone,
    MAX_HIDDEN, MAX_RECENTS,
};
use vela_core::source::ItemDto;

fn item(key: &str, duration_ms: Option<u64>) -> ItemDto {
    ItemDto {
        rating_key: key.into(),
        title: key.into(),
        year: None,
        summary: None,
        duration_ms,
        media_type: Some("movie".into()),
        poster: None,
        series_poster: None,
        backdrop: None,
        view_offset_ms: None,
        played: None,
        last_watched_at_ms: None,
        added_at_ms: None,
        index: None,
        parent_index: None,
        grandparent_title: None,
        parent_title: None,
        parent_rating_key: None,
        grandparent_rating_key: None,
        source_id: "local".into(),
        provider_ids: vec![],
        backing: None,
        canonical_id: None,
        watch_key: None,
        detail_key: None,
    }
}

#[test]
fn record_dedups_fronts_and_caps() {
    let mut cfg = AppConfig::default();
    for i in 0..(MAX_RECENTS + 5) {
        record(&mut cfg, item(&format!("k{i}"), None));
    }
    assert_eq!(cfg.recents.len(), MAX_RECENTS, "capped");
    // Re-playing an older item moves it to the front, no duplicate.
    record(&mut cfg, item("k10", None));
    assert_eq!(cfg.recents[0].item.rating_key, "k10");
    assert_eq!(
        cfg.recents
            .iter()
            .filter(|r| r.item.rating_key == "k10")
            .count(),
        1
    );
}

#[test]
fn record_play_start_resets_only_for_an_explicit_beginning() {
    let mut cfg = AppConfig::default();
    let mut progressed = item("movie", Some(100_000));
    progressed.view_offset_ms = Some(30_000);

    record_play_start(&mut cfg, progressed.clone(), false, "resume".into(), 10);
    assert_eq!(
        cfg.recents[0].item.view_offset_ms,
        Some(30_000),
        "Resume keeps the known position until playback reports a newer one"
    );

    record_play_start(&mut cfg, progressed, true, "beginning".into(), 20);
    assert_eq!(
        cfg.recents[0].item.view_offset_ms,
        Some(0),
        "Play from Beginning must not advertise stale progress"
    );
    assert_eq!(cfg.recents[0].ended_at_ms, 0, "the session is still open");
}

#[test]
fn exact_session_finish_updates_the_current_play() {
    let mut cfg = AppConfig::default();
    record_play_start(
        &mut cfg,
        item("movie", Some(100_000)),
        false,
        "session".into(),
        10,
    );
    finish_session(&mut cfg, "movie", "session", 30_000, 20);
    assert_eq!(cfg.recents[0].item.view_offset_ms, Some(30_000));
    assert_eq!(cfg.recents[0].ended_at_ms, 20);
}

#[test]
fn older_different_key_finish_stays_behind_the_newer_play() {
    let mut cfg = AppConfig::default();
    record_play_start(
        &mut cfg,
        item("older", Some(100_000)),
        false,
        "older-session".into(),
        10,
    );
    record_play_start(
        &mut cfg,
        item("newer", Some(100_000)),
        false,
        "newer-session".into(),
        20,
    );
    finish_session(&mut cfg, "older", "older-session", 30_000, 30);

    assert_eq!(cfg.recents[0].item.rating_key, "newer");
    assert_eq!(cfg.recents[1].item.rating_key, "older");
    assert_eq!(cfg.recents[1].item.view_offset_ms, Some(30_000));
    assert_eq!(
        list(&cfg)[1].last_watched_at_ms,
        Some(10),
        "the delayed finish must not acquire newer recency"
    );
}

#[test]
fn stale_same_key_finish_cannot_stamp_the_replacement_session() {
    let mut cfg = AppConfig::default();
    let mut replay = item("movie", Some(100_000));
    replay.view_offset_ms = Some(40_000);
    record_play_start(&mut cfg, replay.clone(), false, "old".into(), 10);
    record_play_start(&mut cfg, replay, true, "new".into(), 20);

    finish_session(&mut cfg, "movie", "old", 75_000, 30);
    assert_eq!(cfg.recents.len(), 1);
    assert_eq!(cfg.recents[0].session_id.as_deref(), Some("new"));
    assert_eq!(cfg.recents[0].item.view_offset_ms, Some(0));
    assert_eq!(cfg.recents[0].ended_at_ms, 0);
}

#[test]
fn clean_completion_removes_the_exact_session_and_tombstones_every_identity() {
    let mut cfg = AppConfig::default();
    let mut merged = item("local:/shows/one.mkv", Some(100_000));
    merged.watch_key = Some("plex:42".into());
    record_play_start(&mut cfg, merged, false, "completed".into(), 10);

    assert!(complete_clean_session(
        &mut cfg,
        "local:/shows/one.mkv",
        Some("plex:42"),
        "completed",
        10,
    ));
    assert!(cfg.recents.is_empty());
    assert_eq!(
        cfg.hidden_from_continue,
        vec!["local:/shows/one.mkv".to_string(), "plex:42".to_string()]
    );
}

#[test]
fn clean_completion_tombstones_supplied_identities_after_threshold_removal() {
    let mut cfg = AppConfig::default();
    let mut older = item("jf:older-face", Some(100_000));
    older.watch_key = Some("plex:42".into());
    record_play_start(&mut cfg, older, false, "older".into(), 10);
    let mut merged = item("local:/shows/one.mkv", Some(100_000));
    merged.watch_key = Some("plex:42".into());
    record_play_start(&mut cfg, merged, false, "completed".into(), 20);
    finish_session(&mut cfg, "local:/shows/one.mkv", "completed", 96_000, 20);
    assert_eq!(cfg.recents.len(), 1, "only the completed snapshot was removed");
    assert_eq!(cfg.recents[0].session_id.as_deref(), Some("older"));

    assert!(complete_clean_session(
        &mut cfg,
        "local:/shows/one.mkv",
        Some("plex:42"),
        "completed",
        20,
    ));
    assert!(cfg.recents.is_empty(), "older matching snapshots are curated too");
    assert_eq!(
        cfg.hidden_from_continue,
        vec![
            "local:/shows/one.mkv".to_string(),
            "plex:42".to_string(),
            "jf:older-face".to_string(),
        ]
    );
}

#[test]
fn clean_completion_admits_a_newer_exact_session_over_an_older_watch_sibling() {
    let mut cfg = AppConfig::default();
    let mut older = item("jf:older-face", Some(100_000));
    older.watch_key = Some("plex:42".into());
    record_play_start(&mut cfg, older, false, "older".into(), 10);
    finish_session(&mut cfg, "jf:older-face", "older", 30_000, 15);

    let mut completed = item("local:/shows/one.mkv", Some(100_000));
    completed.watch_key = Some("plex:42".into());
    record_play_start(&mut cfg, completed, false, "completed".into(), 20);

    assert!(complete_clean_session(
        &mut cfg,
        "local:/shows/one.mkv",
        Some("plex:42"),
        "completed",
        20,
    ));
    assert!(cfg.recents.is_empty());
    assert_eq!(
        cfg.hidden_from_continue,
        vec![
            "local:/shows/one.mkv".to_string(),
            "plex:42".to_string(),
            "jf:older-face".to_string(),
        ]
    );
}

#[test]
fn stale_clean_completion_cannot_curate_a_newer_same_key_session() {
    let mut cfg = AppConfig::default();
    record_play_start(
        &mut cfg,
        item("plex:42", Some(100_000)),
        false,
        "old".into(),
        10,
    );
    record_play_start(
        &mut cfg,
        item("plex:42", Some(100_000)),
        false,
        "new".into(),
        20,
    );

    assert!(!complete_clean_session(
        &mut cfg,
        "plex:42",
        None,
        "old",
        10,
    ));
    assert_eq!(cfg.recents.len(), 1);
    assert_eq!(cfg.recents[0].session_id.as_deref(), Some("new"));
    assert!(cfg.hidden_from_continue.is_empty());
}

#[test]
fn stale_clean_completion_cannot_curate_a_newer_watch_key_session() {
    let mut cfg = AppConfig::default();
    let mut old = item("jf:old-face", Some(100_000));
    old.watch_key = Some("plex:42".into());
    record_play_start(&mut cfg, old, false, "old".into(), 10);
    let mut new = item("jf:new-face", Some(100_000));
    new.watch_key = Some("plex:42".into());
    record_play_start(&mut cfg, new, false, "new".into(), 20);

    assert!(!complete_clean_session(
        &mut cfg,
        "jf:old-face",
        Some("plex:42"),
        "old",
        10,
    ));
    assert_eq!(cfg.recents.len(), 2, "stale curation changes no snapshots");
    assert_eq!(cfg.recents[0].session_id.as_deref(), Some("new"));
    assert_eq!(cfg.recents[1].session_id.as_deref(), Some("old"));
    assert!(cfg.hidden_from_continue.is_empty());
}

#[test]
fn threshold_removed_completion_rejects_a_newer_open_replay() {
    let mut cfg = AppConfig::default();
    let mut completed = item("local:/shows/one.mkv", Some(100_000));
    completed.watch_key = Some("plex:42".into());
    record_play_start(&mut cfg, completed, false, "completed".into(), 10);
    finish_session(
        &mut cfg,
        "local:/shows/one.mkv",
        "completed",
        96_000,
        15,
    );
    assert!(cfg.recents.is_empty());

    let mut replay = item("jf:new-face", Some(100_000));
    replay.watch_key = Some("plex:42".into());
    record_play_start(&mut cfg, replay, false, "replay".into(), 20);
    assert!(!complete_clean_session(
        &mut cfg,
        "local:/shows/one.mkv",
        Some("plex:42"),
        "completed",
        10,
    ));
    assert_eq!(cfg.recents.len(), 1);
    assert_eq!(cfg.recents[0].session_id.as_deref(), Some("replay"));
    assert!(cfg.hidden_from_continue.is_empty());
}

#[test]
fn replay_clears_clean_completion_tombstones() {
    let mut cfg = AppConfig::default();
    let mut merged = item("local:/shows/one.mkv", Some(100_000));
    merged.watch_key = Some("plex:42".into());
    record_play_start(&mut cfg, merged.clone(), false, "completed".into(), 10);
    assert!(complete_clean_session(
        &mut cfg,
        "local:/shows/one.mkv",
        Some("plex:42"),
        "completed",
        10,
    ));

    record_play_start(&mut cfg, merged, false, "replay".into(), 20);
    assert!(cfg.hidden_from_continue.is_empty());
    assert_eq!(cfg.recents[0].session_id.as_deref(), Some("replay"));
}

#[test]
fn sampled_finish_never_tombstones_without_a_joined_clean_eof() {
    let mut cfg = AppConfig::default();
    record_play_start(
        &mut cfg,
        item("plex:42", Some(100_000)),
        false,
        "quit".into(),
        10,
    );
    finish_session(&mut cfg, "plex:42", "quit", 30_000, 20);
    assert!(cfg.hidden_from_continue.is_empty());
    assert_eq!(cfg.recents[0].session_id.as_deref(), Some("quit"));

    finish_session(&mut cfg, "plex:42", "quit", 96_000, 30);
    assert!(
        cfg.recents.is_empty(),
        "sampled threshold behavior stays intact"
    );
    assert!(
        cfg.hidden_from_continue.is_empty(),
        "a tracker tail alone is not proof of clean EOF"
    );
}

#[test]
fn finish_stamps_position_and_refronts_unfinished_plays() {
    let mut cfg = AppConfig::default();
    record(&mut cfg, item("movie", Some(100_000)));
    record(&mut cfg, item("other", None)); // now in front
    finish(&mut cfg, "movie", 30_000, 1111);
    assert_eq!(
        cfg.recents[0].item.rating_key, "movie",
        "just-ended session is the most recent"
    );
    assert_eq!(cfg.recents[0].item.view_offset_ms, Some(30_000));
    assert_eq!(cfg.recents[0].ended_at_ms, 1111);
}

#[test]
fn resume_stamp_reads_back_the_finished_position() {
    let mut cfg = AppConfig::default();
    record(&mut cfg, item("movie", Some(100_000)));
    finish(&mut cfg, "movie", 30_000, 1111);
    assert_eq!(resume_stamp_ms(&cfg, "movie"), 30_000);
    assert_eq!(
        resume_stamp_ms(&cfg, "unknown"),
        0,
        "no entry ⇒ start from 0"
    );
    // An open session (no finish yet) has no stamp to resume from.
    record(&mut cfg, item("playing", None));
    assert_eq!(resume_stamp_ms(&cfg, "playing"), 0);
}

#[test]
fn list_stamps_recency_only_on_ended_sessions() {
    let mut cfg = AppConfig::default();
    record(&mut cfg, item("movie", Some(100_000)));
    record(&mut cfg, item("playing", None)); // session still open
    finish(&mut cfg, "movie", 30_000, 1111);
    let listed = list(&cfg);
    assert_eq!(listed[0].rating_key, "movie");
    assert_eq!(
        listed[0].last_watched_at_ms,
        Some(1111),
        "ended session carries its stamp for recency interleaving"
    );
    assert_eq!(
        listed[1].last_watched_at_ms, None,
        "open session has no stamp yet"
    );
}

#[test]
fn unrecord_drops_only_the_named_entry() {
    let mut cfg = AppConfig::default();
    record(&mut cfg, item("keep", None));
    record(&mut cfg, item("watched", None));
    unrecord(&mut cfg, "watched");
    assert_eq!(cfg.recents.len(), 1);
    assert_eq!(cfg.recents[0].item.rating_key, "keep");
    // Unknown key is a no-op, not an error.
    unrecord(&mut cfg, "absent");
    assert_eq!(cfg.recents.len(), 1);
}

#[test]
fn unrecord_matches_watch_key_too() {
    // Merged card: plays under a local key, watch state lives on Plex.
    let mut cfg = AppConfig::default();
    let mut merged = item("local:/movies/Heat.mkv", None);
    merged.watch_key = Some("plex:42".into());
    record(&mut cfg, merged);
    unrecord(&mut cfg, "plex:42"); // mark-watched routes the server key
    assert!(
        cfg.recents.is_empty(),
        "a watch-key match must drop the local-keyed entry"
    );
}

#[test]
fn hide_tombstones_every_key_of_a_merged_entry() {
    let mut cfg = AppConfig::default();
    let mut merged = item("local:/movies/Heat.mkv", None);
    merged.watch_key = Some("plex:42".into());
    record(&mut cfg, merged);
    let server = hide_from_continue(&mut cfg, "local:/movies/Heat.mkv");
    assert_eq!(
        server, "plex:42",
        "server removal must target the watch key"
    );
    assert!(cfg.recents.is_empty());
    assert!(cfg
        .hidden_from_continue
        .contains(&"local:/movies/Heat.mkv".to_string()));
    assert!(
        cfg.hidden_from_continue.contains(&"plex:42".to_string()),
        "server hub copy shows under the watch key; it must be tombstoned too"
    );
    // Replaying the merged item clears BOTH tombstones.
    let mut again = item("local:/movies/Heat.mkv", None);
    again.watch_key = Some("plex:42".into());
    record(&mut cfg, again);
    assert!(cfg.hidden_from_continue.is_empty());
}

#[test]
fn hide_tombstones_and_drops_the_entry() {
    let mut cfg = AppConfig::default();
    record(&mut cfg, item("gone", None));
    hide_from_continue(&mut cfg, "gone");
    assert!(cfg.recents.is_empty(), "hidden entry leaves recents");
    assert_eq!(cfg.hidden_from_continue, vec!["gone".to_string()]);
    // Idempotent: hiding again doesn't duplicate the tombstone.
    hide_from_continue(&mut cfg, "gone");
    assert_eq!(cfg.hidden_from_continue.len(), 1);
}

#[test]
fn replaying_clears_the_tombstone() {
    let mut cfg = AppConfig::default();
    hide_from_continue(&mut cfg, "back");
    record(&mut cfg, item("back", None));
    assert!(
        cfg.hidden_from_continue.is_empty(),
        "playing again is the explicit opposite of 'stop suggesting it'"
    );
    assert_eq!(cfg.recents[0].item.rating_key, "back");
}

#[test]
fn hide_undo_restores_entry_position_and_only_added_tombstones() {
    let mut cfg = AppConfig::default();
    hide_from_continue(&mut cfg, "pre-existing"); // an older explicit removal
    record(&mut cfg, item("front", None));
    record(&mut cfg, item("target", Some(100_000)));
    record(&mut cfg, item("newest", None)); // target sits at index 1
    finish(&mut cfg, "target", 30_000, 1111); // re-fronts: index 0
    let undo = hide_with_undo(&mut cfg, "target");
    assert!(!cfg.recents.iter().any(|r| r.item.rating_key == "target"));
    assert!(cfg.hidden_from_continue.contains(&"target".to_string()));
    restore_hidden(&mut cfg, undo);
    assert_eq!(
        cfg.recents[0].item.rating_key, "target",
        "entry returns at its original position with its stamp"
    );
    assert_eq!(cfg.recents[0].item.view_offset_ms, Some(30_000));
    assert!(
        !cfg.hidden_from_continue.contains(&"target".to_string()),
        "the tombstone the hide added is removed on undo"
    );
    assert!(
        cfg.hidden_from_continue
            .contains(&"pre-existing".to_string()),
        "tombstones the hide did NOT add survive the undo"
    );
}

#[test]
fn restore_hidden_yields_to_newer_play_activity() {
    let mut cfg = AppConfig::default();
    record(&mut cfg, item("movie", Some(100_000)));
    finish(&mut cfg, "movie", 30_000, 1111);
    let undo = hide_with_undo(&mut cfg, "movie");
    // A replay lands between the hide and the failed server edit: it
    // clears the tombstone and records a fresh OPEN entry.
    record(&mut cfg, item("movie", Some(100_000)));
    restore_hidden(&mut cfg, undo);
    assert_eq!(cfg.recents.len(), 1, "no duplicate entry");
    assert_eq!(
        cfg.recents[0].ended_at_ms, 0,
        "the fresh open session wins over the restored snapshot"
    );
    assert!(cfg.hidden_from_continue.is_empty());
}

#[test]
fn untombstone_clears_only_the_named_key() {
    let mut cfg = AppConfig::default();
    hide_from_continue(&mut cfg, "played-from-queue");
    hide_from_continue(&mut cfg, "other");
    untombstone(&mut cfg, "played-from-queue");
    assert_eq!(cfg.hidden_from_continue, vec!["other".to_string()]);
    // Unknown key is a no-op, not an error.
    untombstone(&mut cfg, "absent");
    assert_eq!(cfg.hidden_from_continue, vec!["other".to_string()]);
}

#[test]
fn tombstone_list_is_bounded_fifo() {
    let mut cfg = AppConfig::default();
    for i in 0..(MAX_HIDDEN + 10) {
        hide_from_continue(&mut cfg, &format!("k{i}"));
    }
    assert_eq!(cfg.hidden_from_continue.len(), MAX_HIDDEN);
    assert_eq!(cfg.hidden_from_continue[0], "k10", "oldest pruned first");
}

#[test]
fn finish_drops_entries_past_the_watched_threshold() {
    let mut cfg = AppConfig::default();
    record(&mut cfg, item("movie", Some(100_000)));
    finish(&mut cfg, "movie", 96_000, 1111); // ≥ default 95%
    assert!(
        cfg.recents.is_empty(),
        "finished plays are not 'continue watching'"
    );

    // Unknown duration can never be judged finished: entry stays.
    record(&mut cfg, item("localfile", None));
    finish(&mut cfg, "localfile", 5_000, 2222);
    assert_eq!(cfg.recents.len(), 1);
}
