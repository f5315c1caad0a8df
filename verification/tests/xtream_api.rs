use androiptv::json::JsonValue;
use androiptv::xtream::{
    action_url, auth_outcome, category_names, excerpt, live_channels, lookup_group, media_url,
    panel_base, player_api_url, series_info_url, series_items, vod_items, Category, SeriesItem,
    Stream, VodStream, XtreamConfig,
};

fn cfg(base: &str) -> XtreamConfig {
    XtreamConfig { base: base.to_string(), username: "u s".to_string(), password: "p&w".to_string() }
}

fn s(v: &str) -> JsonValue {
    JsonValue::String(v.to_string())
}

fn obj(v: Vec<(&str, JsonValue)>) -> JsonValue {
    JsonValue::Object(v.into_iter().map(|(k, x)| (k.to_string(), x)).collect())
}

fn some(v: &str) -> Option<String> {
    Some(v.to_string())
}

#[test]
fn panel_urls_carry_the_credentials() {
    assert_eq!(panel_base("http://p.example///"), "http://p.example");
    assert_eq!(panel_base("http://p.example"), "http://p.example");
    let c = cfg("http://p.example:8080/");
    assert_eq!(
        player_api_url(&c).unwrap(),
        "http://p.example:8080/player_api.php?username=u+s&password=p%26w"
    );
    assert_eq!(
        action_url(&c, "get_live_streams").unwrap(),
        "http://p.example:8080/player_api.php?username=u+s&password=p%26w&action=get_live_streams"
    );
    assert_eq!(
        series_info_url(&c, -7).unwrap(),
        "http://p.example:8080/player_api.php?username=u+s&password=p%26w&action=get_series_info&series_id=-7"
    );
}

#[test]
fn panel_urls_are_normalised() {
    let c = XtreamConfig { base: "HTTP://P.Example:80/".to_string(), username: "u".to_string(), password: "p".to_string() };
    assert_eq!(player_api_url(&c).unwrap(), "http://p.example/player_api.php?username=u&password=p");
}

#[test]
fn invalid_panel_base_is_reported() {
    assert_eq!(
        player_api_url(&cfg("not a url/")).unwrap_err(),
        "invalid Xtream base URL 'not a url': relative URL without a base"
    );
    assert!(action_url(&cfg(""), "x").is_err());
}

#[test]
fn excerpts_are_trimmed_and_short() {
    assert_eq!(excerpt("  <html> oops </html>\n"), "<html> oops </html>");
    let long = "é".repeat(300);
    assert_eq!(excerpt(&long), "é".repeat(200));
    assert_eq!(excerpt(""), "");
}

#[test]
fn media_urls_append_to_the_base() {
    // A base with a path keeps it.
    assert_eq!(media_url("http://h/panel", "live", "u", "p", "1", "ts"), "http://h/panel/live/u/p/1.ts");
    assert_eq!(media_url("http://p.example/sub", "movie", "u", "p", "1", "mp4"), "http://p.example/sub/movie/u/p/1.mp4");
    // The parts are put in as they are.
    assert_eq!(media_url("http://p.example", "live", "a b", "p", "2", "ts"), "http://p.example/live/a b/p/2.ts");
    assert_eq!(media_url("", "series", "u", "p", "7/1/2", "mkv"), "/series/u/p/7/1/2.mkv");
}

#[test]
fn category_names_last_entry_wins_and_empties_are_skipped() {
    let cats = vec![
        Category { category_id: some("1"), category_name: some("A") },
        Category { category_id: some("1"), category_name: some("B") },
        Category { category_id: some("2"), category_name: some("") },
        Category { category_id: some(""), category_name: some("Z") },
        Category { category_id: None, category_name: some("Y") },
    ];
    let names = category_names(&cats);
    assert_eq!(lookup_group(&names, &some("1")).as_deref(), Some("B"));
    assert_eq!(lookup_group(&names, &some("2")), None);
    assert_eq!(lookup_group(&names, &some("")), None);
    assert_eq!(lookup_group(&names, &some("9")), None);
    assert_eq!(lookup_group(&names, &None), None);
}

#[test]
fn live_rows_from_streams() {
    let c = XtreamConfig { base: "http://p.example/".to_string(), username: "u".to_string(), password: "p".to_string() };
    let names = category_names(&vec![Category { category_id: some("5"), category_name: some("News") }]);
    let streams = vec![
        Stream { stream_id: Some(42), name: some("CNN"), stream_icon: some("http://i/c.png"), category_id: some("5") },
        Stream { stream_id: None, name: some("no id"), stream_icon: None, category_id: None },
        Stream { stream_id: Some(7), name: some(""), stream_icon: some(""), category_id: some("6") },
    ];
    let rows = live_channels(&c, &names, &streams);
    assert_eq!(rows.len(), 2);
    assert_eq!(rows[0].name, "CNN");
    assert_eq!(rows[0].url, "http://p.example/live/u/p/42.ts");
    assert_eq!(rows[0].logo_url.as_deref(), Some("http://i/c.png"));
    assert_eq!(rows[0].group.as_deref(), Some("News"));
    assert_eq!(rows[1].name, "Unknown");
    assert_eq!(rows[1].url, "http://p.example/live/u/p/7.ts");
    assert_eq!(rows[1].logo_url, None);
    assert_eq!(rows[1].group, None);
}

#[test]
fn vod_and_series_rows() {
    let c = XtreamConfig { base: "http://p.example".to_string(), username: "u".to_string(), password: "p".to_string() };
    let names = category_names(&vec![Category { category_id: some("1"), category_name: some("Films") }]);
    let vod = vod_items(&c, &names, &vec![
        VodStream { stream_id: Some(3), name: some("M"), stream_icon: None, category_id: some("1"), container_extension: some("mkv") },
        VodStream { stream_id: Some(4), name: None, stream_icon: None, category_id: None, container_extension: some("") },
        VodStream { stream_id: None, name: some("x"), stream_icon: None, category_id: None, container_extension: None },
    ]);
    assert_eq!(vod.len(), 2);
    assert_eq!(vod[0].url, "http://p.example/movie/u/p/3.mkv");
    assert_eq!(vod[0].remote_id.as_deref(), Some("3"));
    assert_eq!(vod[0].group.as_deref(), Some("Films"));
    assert_eq!(vod[1].name, "Unknown");
    assert_eq!(vod[1].url, "http://p.example/movie/u/p/4.mp4");

    let series = series_items(&names, &vec![
        SeriesItem { series_id: Some(-9), name: some("S"), cover: some("http://c"), category_id: some("1") },
        SeriesItem { series_id: None, name: some("x"), cover: None, category_id: None },
    ]);
    assert_eq!(series.len(), 1);
    assert_eq!(series[0].url, "");
    assert_eq!(series[0].remote_id.as_deref(), Some("-9"));
    assert_eq!(series[0].logo_url.as_deref(), Some("http://c"));
    assert_eq!(series[0].group.as_deref(), Some("Films"));
}

#[test]
fn credential_check_outcomes() {
    let with_auth = |a: JsonValue| obj(vec![("user_info", obj(vec![("auth", a)]))]);
    for ok in [JsonValue::Number(Some(1)), JsonValue::Number(Some(-2)), JsonValue::Bool(true), s("1"), s("TRUE"), s("True")] {
        assert!(auth_outcome(&with_auth(ok), "{}", "bob").is_ok());
    }
    for bad in [JsonValue::Number(Some(0)), JsonValue::Number(None), JsonValue::Bool(false), s("0"), s("yes"), JsonValue::Null] {
        assert_eq!(
            auth_outcome(&with_auth(bad), "{}", "bob").unwrap_err(),
            "authentication failed for user 'bob' - check username and password"
        );
    }
    let expired = obj(vec![("user_info", obj(vec![("auth", JsonValue::Number(Some(0))), ("status", s("Expired"))]))]);
    assert_eq!(
        auth_outcome(&expired, "{}", "bob").unwrap_err(),
        "authentication failed for user 'bob' - check username and password (server says: Expired)"
    );
    let empty_status = obj(vec![("user_info", obj(vec![("auth", s("0")), ("status", s(""))]))]);
    assert_eq!(
        auth_outcome(&empty_status, "{}", "bob").unwrap_err(),
        "authentication failed for user 'bob' - check username and password"
    );
    assert_eq!(
        auth_outcome(&obj(vec![("error", s("x"))]), "  {\"error\":\"x\"}  ", "bob").unwrap_err(),
        "unexpected response from server: {\"error\":\"x\"}"
    );
    assert_eq!(
        auth_outcome(&obj(vec![("user_info", obj(vec![]))]), "raw", "bob").unwrap_err(),
        "unexpected response from server: raw"
    );
    assert!(auth_outcome(&JsonValue::Array(vec![]), "[]", "bob").is_err());
}
