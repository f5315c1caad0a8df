use androiptv::server::{
    bind_candidates, channel_query, groups_kind, is_browser_native, logo_referer,
    play_for_channel, play_for_episode, play_info_for, server_info, ChannelQuery,
    DEFAULT_CHANNEL_LIMIT, DEFAULT_PORT, EPISODE_ID_OFFSET,
};

#[test]
fn hls_urls_go_through_the_proxy() {
    let p = play_info_for("live", "http://x.example/a/Index.M3U8?t=1", 5);
    assert_eq!(p.kind, "hls");
    assert_eq!(p.url, "/proxy/hls/5?u=http%3A%2F%2Fx.example%2Fa%2FIndex.M3U8%3Ft%3D1");
    assert_eq!(p.ts, "/stream/ts/5/index.m3u8");
    assert_eq!(p.direct, "http://x.example/a/Index.M3U8?t=1");
}

#[test]
fn live_non_hls_is_probed() {
    let p = play_info_for("live", "http://x.example/live/u/p/1.ts", 12);
    assert_eq!(p.kind, "ts");
    assert_eq!(p.url, "/proxy/hls/12?u=http%3A%2F%2Fx.example%2Flive%2Fu%2Fp%2F1.ts&probe=1");
    // A live row is probed even when the file would play natively.
    let q = play_info_for("live", "http://x.example/a.mp4", 12);
    assert_eq!(q.kind, "ts");
}

#[test]
fn native_files_play_directly_others_are_remuxed() {
    let f = play_info_for("vod", "http://x.example/movie/u/p/1.MP4", 3);
    assert_eq!(f.kind, "file");
    assert_eq!(f.url, "/proxy/hls/3?u=http%3A%2F%2Fx.example%2Fmovie%2Fu%2Fp%2F1.MP4");
    let m = play_info_for("episode", "http://x.example/series/u/p/1/1/2.mkv", 3);
    assert_eq!(m.kind, "ts");
    assert_eq!(m.url, "/proxy/hls/3?u=http%3A%2F%2Fx.example%2Fseries%2Fu%2Fp%2F1%2F1%2F2.mkv&probe=1");
}

#[test]
fn browser_native_extensions() {
    for ok in ["http://x/a.mp4", "http://x/a.M4V", "http://x/a.webm", "http://x/b/c.mov",
        "http://x/a.ogv", "http://x/a.ogg", "http://x/a.mp3", "http://x/a.aac", "http://x/a.m4a"]
    {
        assert!(is_browser_native(ok), "{ok}");
    }
    // The query is not part of the path.
    assert!(is_browser_native("http://x/a.mp4?name=b.ts"));
    assert!(!is_browser_native("http://x/a.ts?name=b.mp4"));
    // Not a URL: the text itself is the path.
    assert!(is_browser_native("movie.webm"));
    assert!(!is_browser_native("http://x/a"));
    assert!(!is_browser_native("http://x/a.mkv"));
}

#[test]
fn series_rows_have_no_single_stream() {
    match play_for_channel("series", "", 4) {
        Err(e) => assert_eq!(e, "series has no single stream — open it to browse episodes"),
        Ok(_) => panic!("series must not play"),
    }
    let p = play_for_channel("vod", "http://x/m.webm", 4).unwrap();
    assert_eq!(p.kind, "file");
}

#[test]
fn episodes_play_in_their_own_namespace() {
    assert_eq!(EPISODE_ID_OFFSET, 1 << 30);
    let p = play_for_episode("http://x/e.mkv", 3);
    assert_eq!(p.kind, "ts");
    assert_eq!(p.url, "/proxy/hls/1073741827?u=http%3A%2F%2Fx%2Fe.mkv&probe=1");
    assert_eq!(p.ts, "/stream/ts/1073741827/index.m3u8");
    assert_eq!(p.direct, "http://x/e.mkv");
}

#[test]
fn logo_referer_is_the_logo_origin() {
    assert_eq!(
        logo_referer("https://cdn.example:8443/logos/a.png").as_deref(),
        Some("https://cdn.example:8443")
    );
    assert_eq!(logo_referer("https://CDN.example:443/a.png").as_deref(), Some("https://cdn.example"));
    assert_eq!(logo_referer("http://cdn.example/a.png").as_deref(), Some("http://cdn.example"));
    assert_eq!(logo_referer("ftp://cdn.example/a.png"), None);
    assert_eq!(logo_referer("not a url"), None);
}

#[test]
fn server_info_advertises_host_and_port() {
    let ips = vec!["192.168.1.5".to_string(), "10.0.0.2".to_string()];
    let info = server_info(ips.clone(), Some(4040), None, Some(8080)).unwrap();
    assert_eq!(info.url, "http://192.168.1.5:4040");
    assert_eq!(info.host, "192.168.1.5");
    assert_eq!(info.port, 4040);
    assert_eq!(info.ips, ips);
    assert_eq!(info.ip_override, None);
    assert_eq!(info.port_pref, Some(8080));

    let over = server_info(ips.clone(), Some(4040), Some("tv.local"), None).unwrap();
    assert_eq!(over.url, "http://tv.local:4040");
    assert_eq!(over.ip_override.as_deref(), Some("tv.local"));

    let empty_override = server_info(ips, Some(1), Some(""), None).unwrap();
    assert_eq!(empty_override.host, "192.168.1.5");
    assert_eq!(empty_override.ip_override.as_deref(), Some(""));

    let nothing = server_info(Vec::new(), Some(4040), None, None).unwrap();
    assert_eq!(nothing.url, "");
    assert_eq!(nothing.host, "");
}

#[test]
fn server_info_before_start_is_an_error() {
    match server_info(vec!["192.168.1.5".to_string()], None, None, None) {
        Err(e) => assert_eq!(e, "server not started"),
        Ok(_) => panic!("no port yet"),
    }
}

#[test]
fn channel_list_query_choice() {
    match channel_query(Some(" cnn ".to_string()), Some(3), None) {
        ChannelQuery::Search { query, limit } => {
            assert_eq!(query, " cnn ");
            assert_eq!(limit, 500);
        }
        _ => panic!("expected a search"),
    }
    match channel_query(Some("  ".to_string()), Some(3), Some(10)) {
        ChannelQuery::Group(g) => assert_eq!(g, 3),
        _ => panic!("expected a group"),
    }
    match channel_query(None, None, Some(10)) {
        ChannelQuery::All { limit } => assert_eq!(limit, 10),
        _ => panic!("expected all"),
    }
}

#[test]
fn ports_to_bind_and_list_defaults() {
    assert_eq!(DEFAULT_PORT, 4040);
    assert_eq!(bind_candidates(Some(8080)), vec![8080, 4040]);
    assert_eq!(bind_candidates(Some(4040)), vec![4040, 4040]);
    assert_eq!(bind_candidates(None), vec![4040]);
    assert_eq!(DEFAULT_CHANNEL_LIMIT, 500);
    assert_eq!(groups_kind(None), "live");
    assert_eq!(groups_kind(Some("vod".to_string())), "vod");
}
