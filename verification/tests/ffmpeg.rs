use androiptv::server::ffmpeg::{
    eviction_victim, exited_session, is_file_kind, playlist_complete, remux_args, session_plan,
    sidecar_names, stale_sessions, stream_source, valid_segment_name, EvictionCandidate,
    ExitedSession, SessionPlan, SessionState, StderrRing, StreamSource, IDLE_TIMEOUT_MS,
    MAX_SESSIONS, STDERR_LINES,
};
use androiptv::server::EPISODE_ID_OFFSET;

#[test]
fn namespace_ids_map_back_to_their_rows() {
    assert!(matches!(stream_source(0), StreamSource::Channel(0)));
    assert!(matches!(stream_source(EPISODE_ID_OFFSET - 1), StreamSource::Channel(1073741823)));
    assert!(matches!(stream_source(EPISODE_ID_OFFSET), StreamSource::Episode(0)));
    assert!(matches!(stream_source(EPISODE_ID_OFFSET + 42), StreamSource::Episode(42)));
    // A channel id and an episode id of the same number stay apart.
    assert!(matches!(stream_source(42), StreamSource::Channel(42)));
}

#[test]
fn file_kinds_are_vod_and_episode() {
    assert!(is_file_kind("vod"));
    assert!(is_file_kind("episode"));
    assert!(!is_file_kind("live"));
    assert!(!is_file_kind("series"));
    assert!(!is_file_kind("VOD"));
}

#[test]
fn remux_command_line_for_live_and_files() {
    let common = [
        "-hide_banner", "-loglevel", "error", "-user_agent", "AndroIPTV/0.1.0", "-i", "http://u",
        "-map", "0:v:0?", "-map", "0:a:0?", "-sn", "-c:v", "copy", "-c:a", "aac", "-ac", "2",
        "-b:a", "128k", "-f", "hls",
    ];
    let mut live: Vec<&str> = common.to_vec();
    live.extend([
        "-hls_time", "4", "-hls_list_size", "8", "-hls_flags",
        "delete_segments+independent_segments", "-hls_segment_filename", "/d/seg_%05d.ts",
        "/d/index.m3u8",
    ]);
    assert_eq!(remux_args("http://u", false, "/d/seg_%05d.ts", "/d/index.m3u8"), live);

    let mut vod: Vec<&str> = vec!["-re"];
    vod.extend(common);
    vod.extend([
        "-hls_time", "6", "-hls_list_size", "0", "-hls_playlist_type", "vod", "-hls_flags",
        "independent_segments", "-hls_segment_filename", "/d/seg_%05d.ts", "/d/index.m3u8",
    ]);
    assert_eq!(remux_args("http://u", true, "/d/seg_%05d.ts", "/d/index.m3u8"), vod);
}

#[test]
fn exited_sessions_keep_fail_or_restart() {
    assert!(matches!(exited_session(true, true, "boom"), ExitedSession::Keep));
    match exited_session(true, false, "") {
        ExitedSession::Fail(m) => assert_eq!(
            m,
            "ffmpeg exited before the stream was remuxed (no error output captured)"
        ),
        _ => panic!("expected a failure"),
    }
    match exited_session(true, false, "403 Forbidden\nend") {
        ExitedSession::Fail(m) => {
            assert_eq!(m, "ffmpeg exited before the stream was remuxed:\n403 Forbidden\nend")
        }
        _ => panic!("expected a failure"),
    }
    assert!(matches!(exited_session(false, true, "x"), ExitedSession::Replace));
    assert!(matches!(exited_session(false, false, ""), ExitedSession::Replace));
}

fn cand(id: u64, alive: bool, last_access: u64) -> EvictionCandidate {
    EvictionCandidate { id, alive, last_access }
}

#[test]
fn eviction_prefers_dead_then_least_recently_used() {
    assert_eq!(eviction_victim(&Vec::new()), None);
    assert_eq!(eviction_victim(&vec![cand(1, true, 50), cand(2, true, 10), cand(3, true, 30)]), Some(2));
    assert_eq!(eviction_victim(&vec![cand(1, true, 5), cand(2, false, 90), cand(3, true, 1)]), Some(2));
    assert_eq!(eviction_victim(&vec![cand(1, false, 9), cand(2, false, 4), cand(3, true, 1)]), Some(2));
    // Ties go to the first candidate.
    assert_eq!(eviction_victim(&vec![cand(7, true, 3), cand(8, true, 3)]), Some(7));
    assert_eq!(MAX_SESSIONS, 6);
}

#[test]
fn stale_sessions_are_those_idle_past_the_timeout() {
    assert_eq!(IDLE_TIMEOUT_MS, 60_000);
    let idle = vec![(1, 60_000), (2, 60_001), (3, 0), (4, 3_600_000)];
    assert_eq!(stale_sessions(&idle), vec![2, 4]);
    assert!(stale_sessions(&Vec::new()).is_empty());
}

#[test]
fn stderr_ring_keeps_the_last_lines() {
    let mut ring = StderrRing::new();
    assert_eq!(ring.tail(), "");
    ring.push("only".to_string());
    assert_eq!(ring.tail(), "only");
    let mut ring = StderrRing::new();
    for i in 0..25 {
        ring.push(format!("line {i}"));
    }
    let expected: Vec<String> = (5..25).map(|i| format!("line {i}")).collect();
    assert_eq!(STDERR_LINES, 20);
    assert_eq!(ring.tail(), expected.join("\n"));
}

#[test]
fn segment_names_must_be_plain() {
    for ok in ["seg_00001.ts", "index.m3u8", "a-b.c", "...", "X9"] {
        assert!(valid_segment_name(ok), "{ok}");
    }
    for bad in ["", ".", "..", "../x", "a/b", "a\\b", "c:x", "a b", "é.ts", "seg.ts\n"] {
        assert!(!valid_segment_name(bad), "{bad:?}");
    }
}

#[test]
fn finished_playlists_end_with_endlist() {
    assert!(playlist_complete(b"#EXTM3U\n#EXTINF:6.0,\nseg_00000.ts\n#EXT-X-ENDLIST\n"));
    assert!(playlist_complete(b"#EXT-X-ENDLIST"));
    assert!(!playlist_complete(b"#EXTM3U\n#EXTINF:6.0,\nseg_00000.ts\n"));
    assert!(!playlist_complete(b"#EXT-X-ENDLIS"));
    assert!(!playlist_complete(b"#ext-x-endlist"));
    assert!(!playlist_complete(b""));
    // Invalid UTF-8 elsewhere does not hide the tag.
    assert!(playlist_complete(b"\xff\xfe#EXT-X-ENDLIST\xc3"));
}

#[test]
fn sidecar_binary_names() {
    assert_eq!(
        sidecar_names("aarch64-linux-android"),
        vec!["ffmpeg-aarch64-linux-android", "libffmpeg-aarch64-linux-android.so", "ffmpeg"]
    );
}

fn exited(complete: bool, tail: &str) -> SessionState {
    SessionState::Exited { complete, tail: tail.to_string() }
}

#[test]
fn session_plans() {
    let none = Vec::new();
    assert!(matches!(session_plan(SessionState::Running, true, 3, &none), SessionPlan::Keep));
    assert!(matches!(session_plan(exited(true, ""), true, 3, &none), SessionPlan::Keep));
    match session_plan(exited(false, "404"), true, 3, &none) {
        SessionPlan::Fail(m) => assert_eq!(m, "ffmpeg exited before the stream was remuxed:\n404"),
        _ => panic!("a file that died must fail"),
    }
    assert!(matches!(
        session_plan(exited(true, "x"), false, 3, &none),
        SessionPlan::Start { replace: true, evict: None }
    ));
    assert!(matches!(
        session_plan(SessionState::Absent, false, 5, &none),
        SessionPlan::Start { replace: false, evict: None }
    ));
    let full = vec![cand(1, true, 9), cand(2, true, 4), cand(3, false, 99), cand(4, true, 1), cand(5, true, 2), cand(6, true, 3)];
    assert!(matches!(
        session_plan(SessionState::Absent, true, 6, &full),
        SessionPlan::Start { replace: false, evict: Some(3) }
    ));
}
