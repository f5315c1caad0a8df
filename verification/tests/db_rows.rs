use androiptv::db::{import_stats, like_pattern, xtream_creds, GroupIndex, NewChannel};

fn item(kind: &str, group: Option<&str>) -> NewChannel {
    NewChannel {
        name: "n".to_string(),
        url: "u".to_string(),
        logo_url: None,
        tvg_id: None,
        tvg_chno: None,
        kind: kind.to_string(),
        remote_id: None,
        group: group.map(str::to_string),
    }
}

#[test]
fn import_statistics_count_rows_per_kind() {
    let items = vec![
        item("live", Some("News")),
        item("vod", Some("News")),
        item("series", Some("Drama")),
        item("live", None),
        item("other", None),
    ];
    let stats = import_stats(&items, 3);
    assert_eq!(stats.channels, 2);
    assert_eq!(stats.vod, 1);
    assert_eq!(stats.series, 1);
    assert_eq!(stats.groups, 3);
    let none = import_stats(&Vec::new(), 0);
    assert_eq!((none.channels, none.vod, none.series, none.groups), (0, 0, 0, 0));
}

#[test]
fn groups_are_resolved_by_kind_and_name() {
    let mut index = GroupIndex { entries: vec![(1, "live".to_string(), "News".to_string())] };
    assert_eq!(index.find("live", "News"), Some(1));
    assert_eq!(index.find("vod", "News"), None);
    assert_eq!(index.find("live", "news"), None);
    index.add(2, "vod".to_string(), "News".to_string());
    assert_eq!(index.find("vod", "News"), Some(2));
    assert_eq!(index.find("live", "News"), Some(1));
    // A duplicate entry never shadows the first one.
    index.add(3, "live".to_string(), "News".to_string());
    assert_eq!(index.find("live", "News"), Some(1));
    assert_eq!(index.entries.len(), 3);
}

#[test]
fn search_patterns_escape_like_wildcards() {
    assert_eq!(like_pattern("cnn"), "%cnn%");
    assert_eq!(like_pattern("50%_off\\"), "%50\\%\\_off\\\\%");
    assert_eq!(like_pattern(""), "%%");
    assert_eq!(like_pattern("ü"), "%ü%");
}

#[test]
fn xtream_credentials_need_all_three_parts() {
    let all = xtream_creds(Some("http://x".to_string()), Some("u".to_string()), Some("p".to_string()));
    assert_eq!(all, Some(("http://x".to_string(), "u".to_string(), "p".to_string())));
    assert_eq!(xtream_creds(Some("http://x".to_string()), None, Some("p".to_string())), None);
    assert_eq!(xtream_creds(None, None, None), None);
}
