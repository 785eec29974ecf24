use radio_station::state_resumer::{
    determine_expected_current_state, SlidingWindow, StationExpectedState, SILENCE_INTERVAL_MS,
};
use radio_station::station_data::{Narration, SoundFile, Station, Track, STATION_EPOCH};

/// A track of the given derived duration in milliseconds, without
/// narrations: 44 header bytes plus 88 bytes per millisecond.
fn track_of(title: &str, duration_ms: u64) -> Track {
    Track {
        title: title.to_string(),
        source: format!("{}.wav", title),
        size_bytes: 44 + duration_ms * 88,
        narration_before: Vec::new(),
        narration_after: Vec::new(),
    }
}

fn narration_of(content: &str, duration_ms: u64) -> Narration {
    Narration {
        content: content.to_string(),
        source: format!("{}.wav", content),
        size_bytes: 44 + duration_ms * 88,
    }
}

/// Nine tracks of one second each, distinct titles, no narrations.
fn nine_track_station(seed: u64, track_duration_ms: u64) -> Station {
    let mut tracks = Vec::new();
    for i in 0..9 {
        tracks.push(track_of(&format!("track{}", i), track_duration_ms));
    }
    Station { title: "test station".to_string(), seed, tracks }
}

fn state_kind(state: &StationExpectedState) -> &'static str {
    match state {
        StationExpectedState::TrackNarrationBefore { .. } => "before",
        StationExpectedState::Track { .. } => "track",
        StationExpectedState::TrackNarrationAfter { .. } => "after",
        StationExpectedState::SilenceInterval => "silence",
    }
}

fn state_track_title(state: &StationExpectedState) -> Option<String> {
    match state {
        StationExpectedState::TrackNarrationBefore { imminent_track, .. } => {
            Some(imminent_track.title.clone())
        }
        StationExpectedState::Track { track } => Some(track.title.clone()),
        StationExpectedState::TrackNarrationAfter { previous_track, .. } => {
            Some(previous_track.title.clone())
        }
        StationExpectedState::SilenceInterval => None,
    }
}

#[test]
fn resolver_is_deterministic() {
    let station = nine_track_station(0xD1A30, 1000);
    let now = STATION_EPOCH + 987_654;
    let (s1, e1, t1) = determine_expected_current_state(&station, now);
    let (s2, e2, t2) = determine_expected_current_state(&station, now);
    assert_eq!(state_kind(&s1), state_kind(&s2));
    assert_eq!(state_track_title(&s1), state_track_title(&s2));
    assert_eq!(e1, e2);
    assert_eq!(t1, t2);
}

#[test]
fn resolver_is_deterministic_across_station_copies() {
    let now = STATION_EPOCH + 123_456_789;
    let (s1, e1, t1) = determine_expected_current_state(&nine_track_station(7, 1500), now);
    let (s2, e2, t2) = determine_expected_current_state(&nine_track_station(7, 1500), now);
    assert_eq!(state_kind(&s1), state_kind(&s2));
    assert_eq!(state_track_title(&s1), state_track_title(&s2));
    assert_eq!((e1, t1), (e2, t2));
}

#[test]
fn scenario_inside_first_track() {
    // 200 ms of silence and a zero-length introduction are consumed, so at
    // 1300 ms the listener is 1100 ms into the first track of 2000 ms.
    let station = nine_track_station(42, 2000);
    let (state, elapsed, total) = determine_expected_current_state(&station, STATION_EPOCH + 1300);
    assert_eq!(state_kind(&state), "track");
    assert_eq!(elapsed, 1100);
    assert_eq!(total, 2000);
}

#[test]
fn scenario_after_first_track() {
    // With one-second tracks, 1300 ms consumes silence (200), the empty
    // introduction, the whole first track (1000) and the empty outro,
    // leaving the listener 100 ms into the next silence interval.
    let station = nine_track_station(42, 1000);
    let (state, elapsed, total) = determine_expected_current_state(&station, STATION_EPOCH + 1300);
    assert_eq!(state_kind(&state), "silence");
    assert_eq!(elapsed, 100);
    assert_eq!(total, SILENCE_INTERVAL_MS);
}

#[test]
fn scenario_at_instant_zero() {
    let station = nine_track_station(42, 1000);
    let (state, elapsed, total) = determine_expected_current_state(&station, STATION_EPOCH);
    assert_eq!(state_kind(&state), "silence");
    assert_eq!(elapsed, 0);
    assert_eq!(total, SILENCE_INTERVAL_MS);
}

/// Nine tracks whose every state has a positive duration: each track is
/// bracketed by a one-second introduction and a half-second outro.
fn narrated_station(seed: u64) -> Station {
    let mut tracks = Vec::new();
    for i in 0..9 {
        let mut t = track_of(&format!("narrated{}", i), 3000);
        t.narration_before = vec![narration_of(&format!("intro{}", i), 1000)];
        t.narration_after = vec![narration_of(&format!("outro{}", i), 500)];
        tracks.push(t);
    }
    Station { title: "narrated station".to_string(), seed, tracks }
}

#[test]
fn state_boundary_lands_in_next_state_at_offset_zero() {
    // Every state of this station has a positive duration, so resolving
    // exactly when the current state runs out must land at offset zero of
    // the successor state, for every phase of the programme.
    let station = narrated_station(99);
    let mut now = STATION_EPOCH + 1;
    let mut seen = Vec::new();
    for _ in 0..16 {
        let (state, elapsed, total) = determine_expected_current_state(&station, now);
        assert!(elapsed < total);
        seen.push(state_kind(&state));
        now += total - elapsed;
        let (next_state, next_elapsed, _) = determine_expected_current_state(&station, now);
        assert_eq!(next_elapsed, 0);
        let expected_next = match state {
            StationExpectedState::SilenceInterval => "before",
            StationExpectedState::TrackNarrationBefore { .. } => "track",
            StationExpectedState::Track { .. } => "after",
            StationExpectedState::TrackNarrationAfter { .. } => "silence",
        };
        assert_eq!(state_kind(&next_state), expected_next);
    }
    // all four phases were exercised
    assert!(seen.contains(&"silence"));
    assert!(seen.contains(&"before"));
    assert!(seen.contains(&"track"));
    assert!(seen.contains(&"after"));
}

#[test]
fn no_track_repeats_within_recency_window() {
    let station = nine_track_station(0xFEED, 1000);
    let mut now = STATION_EPOCH + 1;
    let mut picked = Vec::new();
    while picked.len() < 30 {
        let (state, elapsed, total) = determine_expected_current_state(&station, now);
        if let Some(title) = state_track_title(&state) {
            picked.push(title);
        }
        now += total - elapsed;
    }
    for i in 0..picked.len() {
        for j in (i + 1)..picked.len() {
            if j - i <= 8 {
                assert_ne!(picked[i], picked[j], "pick {} repeats pick {}", j, i);
            }
        }
    }
}

#[test]
fn different_seeds_choose_different_tracks() {
    // At 250 ms the silence interval and the empty introduction are over,
    // so the resolver reports the first picked track; across seeds the
    // draws must not all agree.
    let mut first_titles = Vec::new();
    for seed in 0..16u64 {
        let station = nine_track_station(seed, 1000);
        let (state, _, _) = determine_expected_current_state(&station, STATION_EPOCH + 250);
        first_titles.push(state_track_title(&state).expect("a track should be airing"));
    }
    let a = &first_titles[0];
    assert!(first_titles.iter().any(|t| t != a));
}

#[test]
fn narration_is_chosen_from_the_track_lists() {
    // Every narration of this station is non-empty, so the bracketing
    // states must carry one of the clips attached to their track.
    let station = narrated_station(5);
    let mut now = STATION_EPOCH + 1;
    let mut checked = 0;
    for _ in 0..40 {
        let (state, elapsed, total) = determine_expected_current_state(&station, now);
        match &state {
            StationExpectedState::TrackNarrationBefore { narration, imminent_track } => {
                let n = narration.as_ref().expect("a narration should have been chosen");
                assert!(imminent_track
                    .narration_before
                    .iter()
                    .any(|c| c.content == n.content && c.source == n.source));
                checked += 1;
            }
            StationExpectedState::TrackNarrationAfter { previous_track, narration } => {
                let n = narration.as_ref().expect("a narration should have been chosen");
                assert!(previous_track
                    .narration_after
                    .iter()
                    .any(|c| c.content == n.content && c.source == n.source));
                checked += 1;
            }
            _ => {}
        }
        now += total - elapsed;
    }
    assert!(checked > 0);
}

#[test]
fn durations_derive_from_file_sizes() {
    let t = track_of("one-second", 1000);
    assert_eq!(t.size_bytes, 88044);
    assert_eq!(t.duration_ms(), 1000);

    let n = narration_of("empty", 0);
    assert_eq!(n.size_bytes, 44);
    assert_eq!(n.duration_ms(), 0);

    // a partial millisecond of bytes is truncated away
    let n = Narration { content: "p".to_string(), source: "p.wav".to_string(), size_bytes: 131 };
    assert_eq!(n.duration_ms(), 0);
    let n = Narration { content: "q".to_string(), source: "q.wav".to_string(), size_bytes: 132 };
    assert_eq!(n.duration_ms(), 1);
}

#[test]
fn duration_round_trip_recovers_file_size() {
    // seeking to the derived duration lands back on the file size, up to
    // the truncated partial millisecond
    for &size in &[44u64, 88044, 88045, 88131, 176044, 1_000_000] {
        let t = Track {
            title: "rt".to_string(),
            source: "rt.wav".to_string(),
            size_bytes: size,
            narration_before: Vec::new(),
            narration_after: Vec::new(),
        };
        let offset = t.time_to_byte_offset(t.duration_ms());
        assert_eq!(offset, size - (size - 44) % 88);
        assert!(offset <= size);
        assert!(size - offset < 88);
    }
}

#[test]
fn source_filenames_are_relative_to_the_station_directory() {
    let t = track_of("song", 1000);
    assert_eq!(t.source_filename(), "./diamond_city_radio/song.wav");
    let n = narration_of("hello", 100);
    assert_eq!(
        n.source_filename(),
        "./diamond_city_radio/narration/hello.wav"
    );
}

#[test]
fn tracks_compare_by_title_alone() {
    let a = track_of("same", 1000);
    let mut b = track_of("same", 2000);
    b.source = "other.wav".to_string();
    assert!(a == b);
    let c = track_of("different", 1000);
    assert!(a != c);
}

#[test]
fn sliding_window_forgets_the_oldest_title() {
    let mut w = SlidingWindow::new(2);
    w.append("a".to_string());
    w.append("b".to_string());
    assert!(w.contains(&"a".to_string()));
    assert!(w.contains(&"b".to_string()));
    w.append("c".to_string());
    assert!(!w.contains(&"a".to_string()));
    assert!(w.contains(&"b".to_string()));
    assert!(w.contains(&"c".to_string()));
    assert!(!w.contains(&"d".to_string()));
}

#[test]
fn zero_duration_states_are_skipped_at_boundaries() {
    // without narrations the introduction takes no time, so resolving at
    // the exact end of the opening silence already reports the first
    // track, at offset zero
    let station = nine_track_station(42, 1000);
    let (state, elapsed, total) =
        determine_expected_current_state(&station, STATION_EPOCH + SILENCE_INTERVAL_MS);
    assert_eq!(state_kind(&state), "track");
    assert_eq!(elapsed, 0);
    assert_eq!(total, 1000);
}
