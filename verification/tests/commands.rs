use androiptv::commands::{
    advertised_server_info, server_pref_settings,
    clean_host, derived_name, episodes_from_raw, is_remote_source, playlist_name_from,
    series_channel, series_remote_id, server_prefs, server_setting_values, xtream_import_items,
    xtream_playlist_name, xtream_source_url,
};
use androiptv::db::Channel;
use androiptv::xtream::{
    category_names, series_items, RawEpisode, SeriesItem, XtreamChannel, XtreamItem,
};

#[test]
fn host_preference_is_cleaned() {
    assert_eq!(clean_host("  http://192.168.1.9 ").unwrap().as_deref(), Some("192.168.1.9"));
    assert_eq!(clean_host("https://tv.local").unwrap().as_deref(), Some("tv.local"));
    assert_eq!(clean_host("tv.local").unwrap().as_deref(), Some("tv.local"));
    assert_eq!(clean_host("auto").unwrap(), None);
    // An empty host clears the preference too.
    assert_eq!(clean_host("").unwrap(), None);
    assert_eq!(clean_host("   ").unwrap(), None);
    assert_eq!(clean_host("http://").unwrap(), None);
    assert_eq!(clean_host(" http://auto ").unwrap(), None);
    // `Auto` is a host name, not the keyword.
    assert_eq!(clean_host("Auto").unwrap().as_deref(), Some("Auto"));
}

#[test]
fn bad_host_preferences_are_refused() {
    assert_eq!(clean_host(" a b ").unwrap_err(), "invalid host: \" a b \"");
    assert_eq!(clean_host("host:8080").unwrap_err(), "invalid host: \"host:8080\"");
    assert_eq!(clean_host("http://x/").unwrap_err(), "invalid host: \"http://x/\"");
    // `http://` is stripped before `https://`, so a doubled scheme stays.
    assert!(clean_host("https://http://x").is_err());
    assert_eq!(clean_host("t\"v\nx").unwrap_err(), "invalid host: \"t\\\"v\\nx\"");
    // Surrounding whitespace is trimmed; a quote is no bad character.
    assert_eq!(clean_host("t\"v\n").unwrap().as_deref(), Some("t\"v"));
    let long = "a".repeat(254);
    assert!(clean_host(&long).is_err());
    assert!(clean_host(&"a".repeat(253)).is_ok());
    // The limit counts bytes: 127 two-byte letters are 254 bytes.
    assert!(clean_host(&"é".repeat(127)).is_err());
    assert!(clean_host(&"é".repeat(126)).is_ok());
}

#[test]
fn server_settings_round_trip() {
    let (ip, port) = server_setting_values(&Some("tv.local".to_string()), Some(8080));
    assert_eq!((ip.as_str(), port.as_str()), ("tv.local", "8080"));
    let (ip, port) = server_setting_values(&None, None);
    assert_eq!((ip.as_str(), port.as_str()), ("", ""));

    let (ip, port) = server_prefs(Some("tv.local".to_string()), Some("8080".to_string()));
    assert_eq!(ip.as_deref(), Some("tv.local"));
    assert_eq!(port, Some(8080));
    let (ip, port) = server_prefs(Some(String::new()), Some(String::new()));
    assert_eq!(ip, None);
    assert_eq!(port, None);
    assert_eq!(server_prefs(None, Some("70000".to_string())).1, None);
    assert_eq!(server_prefs(None, Some("+80".to_string())).1, Some(80));
    assert_eq!(server_prefs(None, Some("-0".to_string())).1, None);
    assert_eq!(server_prefs(None, None), (None, None));
}

#[test]
fn playlist_names_from_sources() {
    assert!(is_remote_source("http://x"));
    assert!(is_remote_source("https://x"));
    assert!(!is_remote_source("HTTP://x"));
    assert!(!is_remote_source("/tmp/list.m3u"));
    assert_eq!(derived_name("http://Example.COM:8080/list.m3u"), "example.com");
    assert_eq!(derived_name("https://"), "remote playlist");
    assert_eq!(derived_name("/home/u/lists/my.m3u"), "my.m3u");
    assert_eq!(derived_name("lists/other.m3u8"), "other.m3u8");
    assert_eq!(derived_name(""), "local playlist");
    assert_eq!(derived_name("/"), "local playlist");
    assert_eq!(derived_name("lists/tv/."), "tv");
    assert_eq!(derived_name("lists/tv//"), "tv");
    assert_eq!(derived_name("lists/.."), "local playlist");
    assert_eq!(derived_name("."), "local playlist");
    assert_eq!(playlist_name_from("/x/y.m3u", Some("y.m3u".to_string())), "y.m3u");
    assert_eq!(playlist_name_from("/", None), "local playlist");
}

#[test]
fn xtream_playlist_naming() {
    assert_eq!(xtream_playlist_name("http://panel.example:8080", None), "panel.example");
    assert_eq!(xtream_playlist_name("http://panel.example", Some("Mine".to_string())), "Mine");
    assert_eq!(xtream_playlist_name("garbage", None), "xtream");
    assert_eq!(xtream_source_url("http://p.example"), "http://p.example/player_api.php");
}

fn channel(kind: &str, remote_id: Option<&str>) -> Channel {
    Channel {
        id: 9,
        playlist_id: 1,
        group_id: None,
        name: "Show".to_string(),
        url: String::new(),
        logo_url: None,
        tvg_id: None,
        tvg_chno: None,
        kind: kind.to_string(),
        remote_id: remote_id.map(str::to_string),
    }
}

#[test]
fn series_lookup_errors() {
    assert_eq!(series_channel(None).unwrap_err(), "channel not found");
    assert_eq!(series_channel(Some(channel("live", None))).unwrap_err(), "not a series channel");
    assert_eq!(series_channel(Some(channel("series", Some("7")))).unwrap().id, 9);
    assert_eq!(series_remote_id(&Some("12".to_string())).unwrap(), 12);
    assert_eq!(series_remote_id(&Some("x".to_string())).unwrap_err(), "series id missing");
    assert_eq!(series_remote_id(&None).unwrap_err(), "series id missing");
}

#[test]
fn episode_rows_from_fetched_episodes() {
    let raw = vec![
        RawEpisode { season: 1, episode_num: 2, title: "T".to_string(), url: "http://u".to_string(), logo_url: Some("l".to_string()) },
        RawEpisode { season: 3, episode_num: 4, title: "U".to_string(), url: "http://v".to_string(), logo_url: None },
    ];
    let eps = episodes_from_raw(77, &raw);
    assert_eq!(eps.len(), 2);
    assert_eq!((eps[0].id, eps[0].channel_id, eps[0].season, eps[0].episode_num), (0, 77, 1, 2));
    assert_eq!(eps[0].title, "T");
    assert_eq!(eps[0].url, "http://u");
    assert_eq!(eps[0].logo_url.as_deref(), Some("l"));
    assert_eq!(eps[1].logo_url, None);
    assert_eq!(eps[1].season, 3);
}

#[test]
fn xtream_rows_are_live_then_vod_then_series() {
    let live = vec![XtreamChannel { name: "L".to_string(), url: "http://l".to_string(), logo_url: None, group: Some("G".to_string()) }];
    let vod = vec![XtreamItem { name: "V".to_string(), url: "http://v".to_string(), logo_url: Some("i".to_string()), group: None, remote_id: Some("2".to_string()) }];
    let series = vec![XtreamItem { name: "S".to_string(), url: String::new(), logo_url: None, group: Some("G".to_string()), remote_id: Some("3".to_string()) }];
    let rows = xtream_import_items(&live, &vod, &series);
    let kinds: Vec<&str> = rows.iter().map(|r| r.kind.as_str()).collect();
    assert_eq!(kinds, vec!["live", "vod", "series"]);
    assert_eq!(rows[0].name, "L");
    assert_eq!(rows[0].remote_id, None);
    assert_eq!(rows[0].group.as_deref(), Some("G"));
    assert_eq!(rows[1].remote_id.as_deref(), Some("2"));
    assert_eq!(rows[1].logo_url.as_deref(), Some("i"));
    assert_eq!(rows[2].url, "");
    assert_eq!(rows[2].remote_id.as_deref(), Some("3"));
    assert!(rows.iter().all(|r| r.tvg_id.is_none() && r.tvg_chno.is_none()));
}

#[test]
fn stored_server_prefs_read_back_unchanged() {
    for (ip, port) in [
        (Some("192.168.1.9".to_string()), Some(8080u16)),
        (Some("tv.local".to_string()), None),
        (None, Some(0u16)),
        (None, Some(65535u16)),
        (None, None),
    ] {
        let (ip_text, port_text) = server_setting_values(&ip, port);
        assert_eq!(server_prefs(Some(ip_text), Some(port_text)), (ip.clone(), port));
    }
}

#[test]
fn stored_series_ids_read_back_unchanged() {
    for id in [0i64, 7, -9, i64::MAX, i64::MIN] {
        let rows = series_items(
            &category_names(&Vec::new()),
            &vec![SeriesItem { series_id: Some(id), name: None, cover: None, category_id: None }],
        );
        assert_eq!(rows[0].remote_id, Some(id.to_string()));
        assert_eq!(series_remote_id(&rows[0].remote_id).unwrap(), id);
    }
}

#[test]
fn setting_server_prefs_then_reading_them_back() {
    let ips = vec!["192.168.1.5".to_string()];
    // A host pasted with a scheme, and a port.
    let (ip_text, port_text) =
        server_pref_settings(Some(" http://tv.local ".to_string()), Some(8080)).unwrap();
    assert_eq!((ip_text.as_str(), port_text.as_str()), ("tv.local", "8080"));
    let info = advertised_server_info(ips.clone(), Some(4040), Some(ip_text), Some(port_text)).unwrap();
    assert_eq!(info.ip_override.as_deref(), Some("tv.local"));
    assert_eq!(info.port_pref, Some(8080));
    assert_eq!(info.host, "tv.local");
    assert_eq!(info.url, "http://tv.local:4040");

    // An empty host, `auto` or none clears the host; no port clears the port.
    for ip in [Some(String::new()), Some("auto".to_string()), None] {
        let (ip_text, port_text) = server_pref_settings(ip, None).unwrap();
        assert_eq!((ip_text.as_str(), port_text.as_str()), ("", ""));
        let info = advertised_server_info(ips.clone(), Some(4040), Some(ip_text), Some(port_text)).unwrap();
        assert_eq!(info.ip_override, None);
        assert_eq!(info.port_pref, None);
        assert_eq!(info.url, "http://192.168.1.5:4040");
    }

    // A refused host stores nothing.
    assert_eq!(
        server_pref_settings(Some("host:8080".to_string()), Some(1)).unwrap_err(),
        "invalid host: \"host:8080\""
    );

    // Before the server has bound a port.
    match advertised_server_info(ips, None, Some("tv.local".to_string()), Some("8080".to_string())) {
        Err(e) => assert_eq!(e, "server not started"),
        Ok(_) => panic!("no port yet"),
    }
}
