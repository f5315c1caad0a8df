use androiptv::json::JsonValue;
use androiptv::xtream::{live_url, media_url, parse_series_episodes};

fn s(v: &str) -> JsonValue {
    JsonValue::String(v.to_string())
}

fn n(v: i64) -> JsonValue {
    JsonValue::Number(Some(v))
}

fn arr(v: Vec<JsonValue>) -> JsonValue {
    JsonValue::Array(v)
}

fn obj(v: Vec<(&str, JsonValue)>) -> JsonValue {
    JsonValue::Object(v.into_iter().map(|(k, x)| (k.to_string(), x)).collect())
}

#[test]
fn vod_and_series_urls() {
    let base = "https://panel.example";
    // Live (unchanged shape).
    assert_eq!(
        live_url(base, "u", "p", 42),
        "https://panel.example/live/u/p/42.ts"
    );
    // VOD with an explicit extension.
    assert_eq!(
        media_url(base, "movie", "u", "p", "42", "mkv"),
        "https://panel.example/movie/u/p/42.mkv"
    );
    // Series episode URL (season/episode path parts).
    assert_eq!(
        media_url(base, "series", "u", "p", "7/1/2", "mp4"),
        "https://panel.example/series/u/p/7/1/2.mp4"
    );
    // Unparseable base falls back to string concat.
    assert_eq!(
        media_url("not a url", "movie", "u", "p", "1", "mp4"),
        "not a url/movie/u/p/1.mp4"
    );
}

#[test]
fn parse_series_episodes_fixture() {
    // Members in key order, as a decoded JSON object holds them.
    let json = obj(vec![
        ("info", obj(vec![("name", s("The Show"))])),
        (
            "seasons",
            arr(vec![
                obj(vec![
                    (
                        "episodes",
                        arr(vec![
                            obj(vec![
                                ("container_extension", s("mkv")),
                                ("episode_num", n(1)),
                                ("id", n(100)),
                                ("info", obj(vec![("movie_image", s("https://img.example/s1e1.jpg"))])),
                                ("title", s("Pilot")),
                            ]),
                            obj(vec![
                                ("container_extension", JsonValue::Null),
                                ("episode_num", n(2)),
                                ("id", n(101)),
                                ("info", JsonValue::Null),
                                ("title", s("")),
                            ]),
                        ]),
                    ),
                    ("season_number", n(1)),
                ]),
                obj(vec![("episodes", arr(vec![])), ("season_number", n(2))]),
            ]),
        ),
    ]);
    let eps = parse_series_episodes(&json).unwrap();
    assert_eq!(eps.len(), 2);
    assert_eq!(eps[0].season, 1);
    assert_eq!(eps[0].episode_num, 1);
    assert_eq!(eps[0].title, "Pilot");
    assert_eq!(eps[0].ext, "mkv");
    assert_eq!(eps[0].logo_url.as_deref(), Some("https://img.example/s1e1.jpg"));
    // Missing title → S{n}E{n}; missing ext → mp4.
    assert_eq!(eps[1].title, "S1E2");
    assert_eq!(eps[1].ext, "mp4");
    assert!(eps[1].logo_url.is_none());
}

#[test]
fn parse_series_episodes_flat_and_errors() {
    // Flat top-level episodes array (non-standard panels).
    let flat = obj(vec![(
        "episodes",
        arr(vec![obj(vec![
            ("container_extension", s("mp4")),
            ("episode_num", n(3)),
            ("season", n(1)),
            ("title", s("T")),
        ])]),
    )]);
    let eps = parse_series_episodes(&flat).unwrap();
    assert_eq!(eps.len(), 1);
    assert_eq!(eps[0].season, 1);

    // Missing season or episode_num → skipped.
    let sparse = obj(vec![(
        "episodes",
        arr(vec![
            obj(vec![("episode_num", n(3)), ("title", s("no season"))]),
            obj(vec![("season", n(1)), ("title", s("no num"))]),
        ]),
    )]);
    assert!(parse_series_episodes(&sparse).unwrap().is_empty());

    // Explicit error object → Err.
    let err = obj(vec![("error", s("series not found"))]);
    assert!(parse_series_episodes(&err).is_err());

    // Empty object → empty, not an error.
    assert!(parse_series_episodes(&obj(vec![])).unwrap().is_empty());
}

#[test]
fn parse_series_episodes_object_keyed() {
    // Non-standard shape: `episodes` object keyed by season number.
    let map = obj(vec![(
        "episodes",
        obj(vec![
            (
                "1",
                arr(vec![
                    obj(vec![("container_extension", s("mp4")), ("episode_num", n(1)), ("title", s("One"))]),
                    obj(vec![("container_extension", s("mp4")), ("episode_num", n(2)), ("title", s("Two"))]),
                ]),
            ),
            (
                "2",
                arr(vec![obj(vec![
                    ("container_extension", s("mp4")),
                    ("episode_num", n(1)),
                    ("title", s("Three")),
                ])]),
            ),
            ("garbage", arr(vec![])),
        ]),
    )]);
    let eps = parse_series_episodes(&map).unwrap();
    assert_eq!(eps.len(), 3);
    assert_eq!(eps[0].season, 1);
    assert_eq!(eps[0].episode_num, 1);
    assert_eq!(eps[2].season, 2);
}
