use std::io::BufRead;

use androiptv::m3u::{parse_m3u, ParsedChannel};

fn assert_channel(
    got: &ParsedChannel,
    name: &str,
    url: &str,
    logo_url: Option<&str>,
    tvg_id: Option<&str>,
    tvg_chno: Option<i64>,
    group: Option<&str>,
) {
    assert_eq!(got.name, name);
    assert_eq!(got.url, url);
    assert_eq!(got.logo_url.as_deref(), logo_url);
    assert_eq!(got.tvg_id.as_deref(), tvg_id);
    assert_eq!(got.tvg_chno, tvg_chno);
    assert_eq!(got.group.as_deref(), group);
}

#[test]
fn parses_crlf_playlist_with_quoted_commas() {
    // CRLF line endings; commas inside quoted attribute values; empty
    // tvg-id/group-title; unparsable tvg-chno; comment lines between
    // EXTINF and its URL; dangling EXTINF at EOF.
    let fixture = [
        "#EXTM3U",
        "#EXTINF:-1 tvg-id=\"cnn-intl\" tvg-name=\"CNN US\" tvg-logo=\"http://cdn.example/logo.png\" group-title=\"News, US & World\" tvg-chno=\"7\",CNN HD",
        "http://stream.example/cnn.ts",
        "#EXTINF:-1 tvg-id=\"\" tvg-name=\"\" group-title=\"Movies, Action\",Action Movies",
        "http://stream.example/movies.ts",
        "#EXTGRP:Movies",
        "#PLAYLIST",
        "#EXTINF:-1 tvg-id=\"bbc1\" group-title=\"\" tvg-chno=\"not-a-number\",Free BBC",
        "#EXTGRP:UK",
        "http://stream.example/bbc.ts",
        "#EXTINF:-1 tvg-id=\"dangling\" group-title=\"Lost\",Dangling at EOF",
    ]
    .join("\r\n");

    // Verify the CRLF-stripping claim about BufRead::lines() directly.
    let mut lines = std::io::BufReader::new(fixture.as_bytes()).lines();
    assert_eq!(lines.next().unwrap().unwrap(), "#EXTM3U");

    let mut got: Vec<ParsedChannel> = Vec::new();
    let count = parse_m3u(fixture.as_bytes(), &mut got).unwrap();

    assert_eq!(count, 3);
    assert_eq!(got.len(), 3);
    assert_channel(
        &got[0],
        "CNN US",
        "http://stream.example/cnn.ts",
        Some("http://cdn.example/logo.png"),
        Some("cnn-intl"),
        Some(7),
        Some("News, US & World"),
    );
    assert_channel(
        &got[1],
        "Action Movies",
        "http://stream.example/movies.ts",
        None,
        None,
        None,
        Some("Movies, Action"),
    );
    assert_channel(
        &got[2],
        "Free BBC",
        "http://stream.example/bbc.ts",
        None,
        Some("bbc1"),
        None,
        None,
    );
}

#[test]
fn parses_100k_channels_under_10s() {
    // Build a 100k-channel playlist in memory, reusing the same base
    // entry template with the channel index interpolated.
    let mut playlist = String::with_capacity(100_000 * 110);
    for i in 0..100_000 {
        playlist.push_str(&format!(
            "#EXTINF:-1 tvg-id=\"id{0}\" tvg-name=\"Channel {0}\" group-title=\"Group {1}\",Channel {0}\r\nhttp://example.com/{0}.ts\r\n",
            i,
            i % 10
        ));
    }

    let start = std::time::Instant::now();
    let mut sink: Vec<ParsedChannel> = Vec::new();
    let count = parse_m3u(playlist.as_bytes(), &mut sink).unwrap();
    let elapsed = start.elapsed();
    println!(
        "parsed 100k channels from {} lines in {elapsed:?}",
        100_000 * 2
    );
    assert_eq!(count, 100_000);
    assert!(
        elapsed.as_secs_f64() < 10.0,
        "100k-channel parse took {elapsed:?}"
    );
}
