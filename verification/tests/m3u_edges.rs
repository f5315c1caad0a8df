use androiptv::db::NewChannel;
use androiptv::m3u::{parse_m3u, ParsedChannel};

fn parse(text: &str) -> Vec<ParsedChannel> {
    let mut out = Vec::new();
    let count = parse_m3u(text.as_bytes(), &mut out).expect("valid UTF-8");
    assert_eq!(count, out.len());
    out
}

#[test]
fn stray_url_without_extinf_is_ignored() {
    let chans = parse("#EXTM3U\nhttp://stray.example/a.ts\n#EXTINF:-1,Alpha\nhttp://s.example/b.ts\n");
    assert_eq!(chans.len(), 1);
    assert_eq!(chans[0].name, "Alpha");
    assert_eq!(chans[0].url, "http://s.example/b.ts");
}

#[test]
fn whitespace_url_line_consumes_the_pending_channel() {
    // A blank-looking (spaces only) line is not empty: it takes the pending
    // channel, trims to nothing and is dropped; the next URL is stray.
    let chans = parse("#EXTINF:-1,Alpha\n   \nhttp://s.example/b.ts\n");
    assert!(chans.is_empty());
}

#[test]
fn attribute_keys_are_case_insensitive_and_last_wins() {
    let chans = parse(
        "#EXTINF:-1 TVG-ID=\"first\" tvg-id=\"second\" Group-Title=\"Sport\" TVG-NAME=\"  Named  \" TVG-LOGO=\"http://l/x.png\",Display\n  http://s.example/c.ts  \n",
    );
    assert_eq!(chans.len(), 1);
    let c = &chans[0];
    assert_eq!(c.name, "Named");
    assert_eq!(c.url, "http://s.example/c.ts");
    assert_eq!(c.tvg_id.as_deref(), Some("second"));
    assert_eq!(c.group.as_deref(), Some("Sport"));
    assert_eq!(c.logo_url.as_deref(), Some("http://l/x.png"));
}

#[test]
fn missing_display_name_falls_back_to_unknown() {
    let chans = parse("#EXTINF:-1 tvg-id=\"x\"\nhttp://s.example/d.ts\n#EXTINF:-1 tvg-name=\"  \",   \nhttp://s.example/e.ts\n");
    assert_eq!(chans.len(), 2);
    assert_eq!(chans[0].name, "Unknown");
    assert_eq!(chans[0].tvg_id.as_deref(), Some("x"));
    assert_eq!(chans[1].name, "Unknown");
}

#[test]
fn channel_numbers_parse_as_i64() {
    let chans = parse(
        "#EXTINF:-1 tvg-chno=\"-3\",A\nhttp://a\n#EXTINF:-1 tvg-chno=\"+12\",B\nhttp://b\n#EXTINF:-1 tvg-chno=\"99999999999999999999\",C\nhttp://c\n#EXTINF:-1 tvg-chno=\" 4\",D\nhttp://d\n",
    );
    let nos: Vec<Option<i64>> = chans.iter().map(|c| c.tvg_chno).collect();
    assert_eq!(nos, vec![Some(-3), Some(12), None, None]);
}

#[test]
fn a_later_extinf_replaces_a_pending_one() {
    let chans = parse("#EXTINF:-1,First\n#EXTINF:-1,Second\nhttp://s/x\n");
    assert_eq!(chans.len(), 1);
    assert_eq!(chans[0].name, "Second");
}

#[test]
fn invalid_utf8_is_an_error_after_the_lines_before_it() {
    let bytes: Vec<u8> = b"#EXTM3U\n#EXTINF:-1,A\nhttp://a\n\xff\xfe\n#EXTINF:-1,C\nhttp://c\n".to_vec();
    let mut out = Vec::new();
    let err = parse_m3u(&bytes, &mut out).unwrap_err();
    assert_eq!(err, "error reading playlist: stream did not contain valid UTF-8");
    // The channels of the lines before the bad one were delivered; nothing after it.
    assert_eq!(out.len(), 1);
    assert_eq!(out[0].name, "A");
    assert_eq!(out[0].url, "http://a");

    // A pending entry whose URL line comes after the bad line is lost.
    let mut out2 = Vec::new();
    assert!(parse_m3u(b"#EXTINF:-1,B\n\xc3\nhttp://b\n", &mut out2).is_err());
    assert!(out2.is_empty());

    // A bad last line without a newline.
    let mut out3 = Vec::new();
    assert!(parse_m3u(b"#EXTINF:-1,D\nhttp://d\n#EXTGRP:\x80", &mut out3).is_err());
    assert_eq!(out3.len(), 1);

    // Channels already in the sink stay, and the count is of the new ones.
    let mut out4 = out3;
    assert_eq!(parse_m3u("#EXTINF:-1,É\nhttp://é\n".as_bytes(), &mut out4).unwrap(), 1);
    assert_eq!(out4.len(), 2);
    assert_eq!(out4[1].name, "É");
}

#[test]
fn crlf_and_lf_give_the_same_channels() {
    let lines = [
        "#EXTM3U",
        "#EXTINF:-1 tvg-id=\"a\" group-title=\"G, H\",One",
        "http://s/1",
        "",
        "#EXTINF:-1,Two",
        "#EXTGRP:x",
        "http://s/2",
    ];
    let lf = parse(&lines.join("\n"));
    let crlf = parse(&lines.join("\r\n"));
    assert_eq!(lf.len(), 2);
    assert_eq!(lf.len(), crlf.len());
    for (a, b) in lf.iter().zip(crlf.iter()) {
        assert_eq!(a.name, b.name);
        assert_eq!(a.url, b.url);
        assert_eq!(a.tvg_id, b.tvg_id);
        assert_eq!(a.group, b.group);
    }
    assert_eq!(lf[0].group.as_deref(), Some("G, H"));
}

#[test]
fn parsed_channel_becomes_a_live_row() {
    let ch = parse("#EXTINF:-1 tvg-id=\"t\" tvg-chno=\"4\" group-title=\"News\" tvg-logo=\"http://l\",Name\nhttp://u\n")
        .remove(0);
    let row = NewChannel::from_parsed(ch.clone());
    assert_eq!(row.name, "Name");
    assert_eq!(row.url, "http://u");
    assert_eq!(row.logo_url.as_deref(), Some("http://l"));
    assert_eq!(row.tvg_id.as_deref(), Some("t"));
    assert_eq!(row.tvg_chno, Some(4));
    assert_eq!(row.kind, "live");
    assert_eq!(row.remote_id, None);
    assert_eq!(row.group.as_deref(), Some("News"));
    let via_from: NewChannel = ch.into();
    assert_eq!(via_from.kind, "live");
    assert_eq!(via_from.name, "Name");
}
