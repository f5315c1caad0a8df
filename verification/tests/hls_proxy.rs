use androiptv::server::hls_proxy::{
    is_http_url, playlist_by_body, playlist_by_headers, probe_cached, probe_requested, proxied,
    remux_location, rewrite_playlist, PROBE_CACHE_TTL_MS,
};

const BASE: &str = "https://cdn.example/live/index.m3u8";

#[test]
fn proxied_urls_are_form_encoded() {
    assert_eq!(
        proxied("http://a.example/x y/ü?k=v&z=1", 3),
        "/proxy/hls/3?u=http%3A%2F%2Fa.example%2Fx+y%2F%C3%BC%3Fk%3Dv%26z%3D1"
    );
    assert_eq!(proxied("A-z_0.9*", 0), "/proxy/hls/0?u=A-z_0.9*");
}

#[test]
fn playlist_rewrite_resolves_every_uri() {
    let text = [
        "#EXTM3U",
        "#EXT-X-KEY:METHOD=AES-128,URI=\"key.bin\",IV=0x1",
        "seg1.ts",
        "",
        "#EXTINF:4,",
        "  /abs/seg2.ts  ",
        "https://other.example/seg3.ts",
        "../up/seg4.ts",
    ]
    .join("\n");
    let out = rewrite_playlist(&text, BASE, 7);
    let expected = [
        "#EXTM3U",
        "#EXT-X-KEY:METHOD=AES-128,URI=\"/proxy/hls/7?u=https%3A%2F%2Fcdn.example%2Flive%2Fkey.bin\",IV=0x1",
        "/proxy/hls/7?u=https%3A%2F%2Fcdn.example%2Flive%2Fseg1.ts",
        "",
        "#EXTINF:4,",
        "/proxy/hls/7?u=https%3A%2F%2Fcdn.example%2Fabs%2Fseg2.ts",
        "/proxy/hls/7?u=https%3A%2F%2Fother.example%2Fseg3.ts",
        "/proxy/hls/7?u=https%3A%2F%2Fcdn.example%2Fup%2Fseg4.ts",
    ]
    .join("\n");
    assert_eq!(out, expected);
}

#[test]
fn several_uri_attributes_on_one_line() {
    let line = "#EXT-X-MEDIA:TYPE=AUDIO,URI=\"a/en.m3u8\",NAME=\"x\",URI=\"b.m3u8\"";
    let out = rewrite_playlist(line, BASE, 2);
    assert_eq!(
        out,
        "#EXT-X-MEDIA:TYPE=AUDIO,URI=\"/proxy/hls/2?u=https%3A%2F%2Fcdn.example%2Flive%2Fa%2Fen.m3u8\",NAME=\"x\",URI=\"/proxy/hls/2?u=https%3A%2F%2Fcdn.example%2Flive%2Fb.m3u8\""
    );
}

#[test]
fn unterminated_uri_attribute_is_kept_verbatim() {
    let line = "#EXT-X-MAP:URI=\"init.mp4";
    assert_eq!(rewrite_playlist(line, BASE, 1), line);
}

#[test]
fn rewrite_keeps_the_number_of_lines() {
    let text = "#EXTM3U\n\nseg.ts\r\n#EXT-X-ENDLIST\n";
    let out = rewrite_playlist(text, BASE, 4);
    assert_eq!(out.matches('\n').count(), text.matches('\n').count());
    assert!(out.ends_with('\n'));
    let lines: Vec<&str> = out.split('\n').collect();
    assert_eq!(lines[2], "/proxy/hls/4?u=https%3A%2F%2Fcdn.example%2Flive%2Fseg.ts");
    assert_eq!(lines[3], "#EXT-X-ENDLIST");
}

#[test]
fn unjoinable_uri_is_proxied_as_is() {
    // A base that is no URL cannot be joined: the value itself is proxied.
    assert_eq!(rewrite_playlist("seg.ts", "not a url", 5), "/proxy/hls/5?u=seg.ts");
}

#[test]
fn only_http_urls_may_be_fetched() {
    assert!(is_http_url("http://a.example/x"));
    assert!(is_http_url("HTTPS://a.example/x"));
    assert!(!is_http_url("ftp://a.example/x"));
    assert!(!is_http_url("file:///etc/passwd"));
    assert!(!is_http_url("a.example/x"));
}

#[test]
fn playlists_are_recognised_by_headers_or_body() {
    assert!(playlist_by_headers(Some("Application/VND.Apple.MPEGURL"), "/x"));
    assert!(playlist_by_headers(Some("audio/x-mpegurl; charset=utf-8"), "/x"));
    assert!(playlist_by_headers(None, "/a/INDEX.M3U8"));
    assert!(!playlist_by_headers(Some("video/mp2t"), "/a/seg.ts"));
    assert!(!playlist_by_headers(None, "/a/index.m3u8/x"));
    assert!(playlist_by_body(b"#EXTM3U\n#EXT-X-VERSION:3"));
    assert!(!playlist_by_body(b"#EXTM3"));
    assert!(!playlist_by_body(b"\x47\x40\x00\x10"));
    assert!(!playlist_by_body(b" #EXTM3U"));
}

#[test]
fn probe_flag_is_exactly_one() {
    assert!(probe_requested(&Some("1".to_string())));
    assert!(!probe_requested(&Some("true".to_string())));
    assert!(!probe_requested(&Some(String::new())));
    assert!(!probe_requested(&None));
}

#[test]
fn remux_location_names_the_session_manifest() {
    assert_eq!(remux_location(9), "/stream/ts/9/index.m3u8");
    assert_eq!(remux_location(1073741827), "/stream/ts/1073741827/index.m3u8");
}

#[test]
fn a_recent_negative_probe_skips_the_upstream() {
    assert_eq!(PROBE_CACHE_TTL_MS, 120_000);
    assert!(probe_cached(true, Some(0)));
    assert!(probe_cached(true, Some(119_999)));
    assert!(!probe_cached(true, Some(120_000)));
    assert!(!probe_cached(true, None));
    // Only a probe request may be redirected.
    assert!(!probe_cached(false, Some(0)));
}
