use gatefold::player::{cover_id, Cover, Effect, Event, Playback, PlayerEvent, Repeat, Slot};

fn uris(names: &[&str]) -> Vec<String> {
    names.iter().map(|n| format!("spotify:track:{n}")).collect()
}

fn loads(effects: &[Effect]) -> bool {
    effects.iter().any(|e| matches!(e, Effect::Load))
}

#[test]
fn playing_a_queue_starts_at_the_index() {
    let mut playback = Playback::new();
    let effects = playback.play_queue("Album", uris(&["a", "b", "c"]), 1);
    assert!(loads(&effects));
    assert_eq!(playback.current().as_deref(), Some("spotify:track:b"));
    assert_eq!(playback.queue(), (uris(&["a", "b", "c"]), 1));
}

#[test]
fn play_next_comes_before_earlier_queued_tracks() {
    let mut playback = Playback::new();
    playback.play_queue("Album", uris(&["a", "b"]), 0);
    playback.add_to_queue(uris(&["q1"]));
    playback.play_next(uris(&["n1", "n2"]));
    let snapshot = playback.snapshot();
    assert_eq!(snapshot.up_next, uris(&["n1", "n2", "q1"]));
    playback.next();
    assert_eq!(playback.current().as_deref(), Some("spotify:track:n1"));
    playback.next();
    assert_eq!(playback.current().as_deref(), Some("spotify:track:n2"));
    playback.next();
    assert_eq!(playback.current().as_deref(), Some("spotify:track:q1"));
    playback.next();
    assert_eq!(playback.current().as_deref(), Some("spotify:track:b"));
}

#[test]
fn next_at_the_end_stops_and_repeat_context_wraps() {
    let mut playback = Playback::new();
    playback.play_queue("Album", uris(&["a", "b"]), 1);
    let effects = playback.next();
    assert!(effects.iter().any(|e| matches!(e, Effect::Stop)));
    playback.set_repeat(Repeat::Context);
    let effects = playback.advance();
    assert!(loads(&effects));
    assert_eq!(playback.current().as_deref(), Some("spotify:track:a"));
}

#[test]
fn skipping_turns_track_repeat_into_context_repeat() {
    let mut playback = Playback::new();
    playback.play_queue("Album", uris(&["a", "b"]), 0);
    playback.set_repeat(Repeat::Track);
    let effects = playback.advance();
    assert!(loads(&effects));
    assert_eq!(playback.current().as_deref(), Some("spotify:track:a"));
    let effects = playback.next();
    assert!(effects
        .iter()
        .any(|e| matches!(e, Effect::Emit(Event::RepeatChanged { repeat: Repeat::Context }))));
    assert_eq!(playback.repeat(), Repeat::Context);
    assert_eq!(playback.current().as_deref(), Some("spotify:track:b"));
}

#[test]
fn previous_restarts_a_track_that_has_played_a_while() {
    let mut playback = Playback::new();
    playback.play_queue("Album", uris(&["a", "b"]), 1);
    playback.handle(
        PlayerEvent::Playing {
            uri: "spotify:track:b".into(),
            position_ms: 10_000,
        },
        false,
    );
    let effects = playback.previous();
    assert!(matches!(effects.as_slice(), [Effect::Seek(0)]));
    assert_eq!(playback.current().as_deref(), Some("spotify:track:b"));
    playback.handle(
        PlayerEvent::Position {
            uri: "spotify:track:b".into(),
            position_ms: 1_000,
        },
        false,
    );
    playback.previous();
    assert_eq!(playback.current().as_deref(), Some("spotify:track:a"));
}

#[test]
fn seeking_flushes_the_sink_first() {
    let playback = Playback::new();
    let effects = playback.seek(42);
    assert!(matches!(effects.as_slice(), [Effect::Flush, Effect::Seek(42)]));
}

#[test]
fn shuffling_keeps_the_current_track_and_every_track() {
    let mut playback = Playback::new();
    playback.play_queue("Album", uris(&["a", "b", "c", "d"]), 2);
    playback.set_shuffle(true);
    assert!(playback.shuffle());
    assert_eq!(playback.current().as_deref(), Some("spotify:track:c"));
    let (queued, position) = playback.queue();
    assert_eq!(position, 0);
    let mut sorted = queued.clone();
    sorted.sort();
    assert_eq!(sorted, uris(&["a", "b", "c", "d"]));
    playback.set_shuffle(false);
    assert_eq!(playback.queue(), (uris(&["a", "b", "c", "d"]), 2));
}

#[test]
fn moving_and_removing_queued_tracks() {
    let mut playback = Playback::new();
    playback.play_queue("Album", uris(&["a"]), 0);
    playback.add_to_queue(uris(&["x", "y", "z"]));
    playback.move_track(Slot::Queued(2), Slot::Queued(0));
    assert_eq!(playback.snapshot().up_next, uris(&["z", "x", "y"]));
    playback.remove_up_next(1);
    assert_eq!(playback.snapshot().up_next, uris(&["z", "y"]));
    playback.move_track(Slot::Queued(7), Slot::Queued(0));
    assert_eq!(playback.snapshot().up_next, uris(&["z", "y"]));
    playback.clear_up_next();
    assert!(playback.snapshot().up_next.is_empty());
}

#[test]
fn playing_a_queued_track_drops_those_before_it() {
    let mut playback = Playback::new();
    playback.play_queue("Album", uris(&["a", "b"]), 0);
    playback.add_to_queue(uris(&["x", "y", "z"]));
    playback.play_up_next(1);
    assert_eq!(playback.current().as_deref(), Some("spotify:track:y"));
    assert_eq!(playback.snapshot().up_next, uris(&["z"]));
}

#[test]
fn jumping_moves_within_the_play_order() {
    let mut playback = Playback::new();
    playback.play_queue("Album", uris(&["a", "b", "c"]), 0);
    playback.jump(2);
    assert_eq!(playback.current().as_deref(), Some("spotify:track:c"));
}

#[test]
fn player_reports_update_what_is_playing() {
    let mut playback = Playback::new();
    playback.play_queue("Album", uris(&["a"]), 0);
    playback.handle(
        PlayerEvent::Playing {
            uri: "spotify:track:a".into(),
            position_ms: 0,
        },
        false,
    );
    assert!(playback.is_playing());
    playback.handle(
        PlayerEvent::Paused {
            uri: "spotify:track:a".into(),
            position_ms: 5,
        },
        false,
    );
    assert!(!playback.is_playing());
    playback.handle(PlayerEvent::Stopped, false);
    assert!(playback.is_stopped());
}

#[test]
fn the_widest_cover_stands_for_a_track() {
    let covers = vec![
        Cover {
            width: 64,
            url: "https://i.scdn.co/image/small".into(),
        },
        Cover {
            width: 640,
            url: "https://i.scdn.co/image/0123456789abcdef0123456789abcdef01234567".into(),
        },
    ];
    assert_eq!(
        cover_id(&covers).as_deref(),
        Some("0123456789abcdef0123456789abcdef01234567")
    );
    let odd = vec![Cover {
        width: 10,
        url: "https://example.org/image/not-an-id".into(),
    }];
    assert_eq!(cover_id(&odd), None);
    assert_eq!(cover_id(&Vec::new()), None);
}

#[test]
fn moving_a_track_to_its_own_slot_changes_nothing() {
    let mut playback = Playback::new();
    playback.play_queue("Album", uris(&["a", "b", "c"]), 0);
    playback.add_to_queue(uris(&["x", "y"]));
    let before = playback.snapshot();
    playback.move_track(Slot::Queued(1), Slot::Queued(1));
    playback.move_track(Slot::Ahead(1), Slot::Ahead(1));
    let after = playback.snapshot();
    assert_eq!(after.up_next, before.up_next);
    assert_eq!(after.ahead, before.ahead);
    assert_eq!(playback.queue(), (uris(&["a", "b", "c"]), 0));
}

#[test]
fn shuffling_changes_the_order_of_a_long_queue() {
    let names: Vec<String> = (0..30).map(|i| format!("t{i}")).collect();
    let refs: Vec<&str> = names.iter().map(|s| s.as_str()).collect();
    let mut playback = Playback::new();
    playback.play_queue("Album", uris(&refs), 0);
    playback.set_shuffle(true);
    let (order, _) = playback.queue();
    assert_eq!(order[0], "spotify:track:t0");
    assert_ne!(order, uris(&refs));
}

#[test]
fn toggling_pauses_a_playing_track_and_resumes_a_paused_one() {
    let mut playback = Playback::new();
    playback.play_queue("Album", uris(&["a", "b"]), 0);
    playback.handle(
        PlayerEvent::Playing {
            uri: "spotify:track:a".into(),
            position_ms: 0,
        },
        false,
    );
    assert!(playback.is_playing());
    let effects = playback.toggle();
    assert!(matches!(effects.as_slice(), [Effect::Pause]));
    assert_eq!(playback.current().as_deref(), Some("spotify:track:a"));
}

#[test]
fn setting_the_volume_reports_it() {
    let playback = Playback::new();
    let effects = playback.set_volume(30_000);
    assert!(matches!(
        effects.as_slice(),
        [Effect::SetVolume(30_000), Effect::Emit(Event::Volume { volume: 30_000 })]
    ));
}

#[test]
fn moving_a_track_ahead_keeps_every_track_to_come() {
    let mut playback = Playback::new();
    playback.play_queue("Album", uris(&["a", "b", "c", "d"]), 1);
    playback.add_to_queue(uris(&["x"]));
    playback.move_track(Slot::Queued(0), Slot::Ahead(1));
    let snapshot = playback.snapshot();
    assert!(snapshot.up_next.is_empty());
    assert_eq!(snapshot.ahead, uris(&["c", "x", "d"]));
    assert_eq!(playback.current().as_deref(), Some("spotify:track:b"));
    playback.move_track(Slot::Ahead(0), Slot::Queued(0));
    let snapshot = playback.snapshot();
    assert_eq!(snapshot.up_next, uris(&["c"]));
    assert_eq!(snapshot.ahead, uris(&["x", "d"]));
    assert_eq!(playback.queue().0[..2], uris(&["a", "b"])[..]);
}

#[test]
fn a_jump_past_the_queue_changes_nothing() {
    let mut playback = Playback::new();
    playback.play_queue("Album", uris(&["a", "b"]), 0);
    playback.handle(
        PlayerEvent::Playing {
            uri: "spotify:track:a".into(),
            position_ms: 500,
        },
        false,
    );
    let effects = playback.jump(5);
    assert!(effects.is_empty());
    assert!(playback.is_playing());
    assert!(!playback.is_stopped());
    assert_eq!(playback.queue(), (uris(&["a", "b"]), 0));
}
