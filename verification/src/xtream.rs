//! Xtream Codes API: request URLs, and what the library makes of the
//! panel's answers (credential check, live / VOD / series rows, series
//! episodes).
//!
//! Xtream panels expose a `player_api.php` endpoint. Live channels play at
//! `{base}/live/{user}/{pass}/{stream_id}.ts`, VOD movies at
//! `{base}/movie/{user}/{pass}/{stream_id}.{ext}` and series episodes at
//! `{base}/series/{user}/{pass}/{series_id}/{season}/{ep}.{ext}`.
use vstd::prelude::*;

use crate::json::{
    as_array, as_i64, as_object, as_str, get, get_opt, json_array, json_get, json_get_opt, json_i64,
    json_object, json_str, JsonValue,
};
use crate::m3u::{non_empty, opt_chars};
use crate::text::{
    chars_of, eq_ignore_ascii_case, int_decimal, lower_ascii_seq, owned, parse_i64, parse_i64_spec,
    push_char, push_i64, str_eq, string_of, trim, trim_str,
};
use crate::urls::{append_query_pair, parse_url, parsed_url, url_with_pair};

verus! {

broadcast use vstd::string::group_string_axioms;

/// Credentials for an Xtream Codes panel.
pub struct XtreamConfig {
    pub base: String,
    pub username: String,
    pub password: String,
}

/// A live stream as returned by the Xtream API, with a full playable URL.
pub struct XtreamChannel {
    pub name: String,
    pub url: String,
    pub logo_url: Option<String>,
    pub group: Option<String>,
}

/// A VOD movie or series row, with a full playable URL (movies) or an empty
/// URL (series — episodes are fetched on demand) plus the remote id needed
/// to build episode URLs later.
pub struct XtreamItem {
    pub name: String,
    pub url: String,
    pub logo_url: Option<String>,
    pub group: Option<String>,
    pub remote_id: Option<String>,
}

/// A single series episode with a full playable URL.
pub struct RawEpisode {
    pub season: i64,
    pub episode_num: i64,
    pub title: String,
    pub url: String,
    pub logo_url: Option<String>,
}

/// An episode as parsed from `get_series_info`, before URL materialization.
pub struct ParsedEpisode {
    pub season: i64,
    pub episode_num: i64,
    pub title: String,
    pub ext: String,
    pub logo_url: Option<String>,
}

/// A category row of `get_live_categories` (and the VOD / series kinds).
pub struct Category {
    pub category_id: Option<String>,
    pub category_name: Option<String>,
}

/// A row of `get_live_streams`.
pub struct Stream {
    pub stream_id: Option<i64>,
    pub name: Option<String>,
    pub stream_icon: Option<String>,
    pub category_id: Option<String>,
}

/// A row of `get_vod_streams`.
pub struct VodStream {
    pub stream_id: Option<i64>,
    pub name: Option<String>,
    pub stream_icon: Option<String>,
    pub category_id: Option<String>,
    pub container_extension: Option<String>,
}

/// A row of `get_series`.
pub struct SeriesItem {
    pub series_id: Option<i64>,
    pub name: Option<String>,
    pub cover: Option<String>,
    pub category_id: Option<String>,
}

/// Model of an [`XtreamChannel`].
pub struct XtreamChannelView {
    pub name: Seq<char>,
    pub url: Seq<char>,
    pub logo_url: Option<Seq<char>>,
    pub group: Option<Seq<char>>,
}

impl View for XtreamChannel {
    type V = XtreamChannelView;

    open spec fn view(&self) -> XtreamChannelView {
        XtreamChannelView {
            name: self.name@,
            url: self.url@,
            logo_url: opt_chars(self.logo_url),
            group: opt_chars(self.group),
        }
    }
}

/// Model of an [`XtreamItem`].
pub struct XtreamItemView {
    pub name: Seq<char>,
    pub url: Seq<char>,
    pub logo_url: Option<Seq<char>>,
    pub group: Option<Seq<char>>,
    pub remote_id: Option<Seq<char>>,
}

impl View for XtreamItem {
    type V = XtreamItemView;

    open spec fn view(&self) -> XtreamItemView {
        XtreamItemView {
            name: self.name@,
            url: self.url@,
            logo_url: opt_chars(self.logo_url),
            group: opt_chars(self.group),
            remote_id: opt_chars(self.remote_id),
        }
    }
}

/// Model of a [`ParsedEpisode`].
pub struct EpisodeView {
    pub season: i64,
    pub episode_num: i64,
    pub title: Seq<char>,
    pub ext: Seq<char>,
    pub logo_url: Option<Seq<char>>,
}

impl View for ParsedEpisode {
    type V = EpisodeView;

    open spec fn view(&self) -> EpisodeView {
        EpisodeView {
            season: self.season,
            episode_num: self.episode_num,
            title: self.title@,
            ext: self.ext@,
            logo_url: opt_chars(self.logo_url),
        }
    }
}

/// Model of a [`RawEpisode`].
pub struct RawEpisodeView {
    pub season: i64,
    pub episode_num: i64,
    pub title: Seq<char>,
    pub url: Seq<char>,
    pub logo_url: Option<Seq<char>>,
}

impl View for RawEpisode {
    type V = RawEpisodeView;

    open spec fn view(&self) -> RawEpisodeView {
        RawEpisodeView {
            season: self.season,
            episode_num: self.episode_num,
            title: self.title@,
            url: self.url@,
            logo_url: opt_chars(self.logo_url),
        }
    }
}

// ---------------------------------------------------------------------
// URLs
// ---------------------------------------------------------------------

/// `str::trim_end_matches('/')`: `s` without its trailing slashes.
pub open spec fn trim_end_slashes(s: Seq<char>) -> Seq<char>
    decreases s.len(),
{
    if s.len() > 0 && s.last() == '/' {
        trim_end_slashes(s.drop_last())
    } else {
        s
    }
}

/// The panel base: `base` without trailing slashes.
pub fn panel_base(base: &str) -> (r: String)
    ensures
        r@ == trim_end_slashes(base@),
{
    let v = chars_of(base);
    let mut j = v.len();
    assert(v@.take(j as int) =~= v@);
    while j > 0 && v[j - 1] == '/'
        invariant
            0 <= j <= v@.len(),
            trim_end_slashes(v@) == trim_end_slashes(v@.take(j as int)),
        decreases j,
    {
        assert(v@.take(j as int).drop_last() =~= v@.take(j - 1));
        j = j - 1;
    }
    assert(v@.subrange(0, j as int) =~= v@.take(j as int));
    string_of(&v, 0, j)
}

/// The `player_api.php` URL with the username/password query pair, or the
/// message for a base that does not parse.
pub open spec fn player_api_url_spec(base: Seq<char>, user: Seq<char>, pass: Seq<char>) -> Result<
    Seq<char>,
    Seq<char>,
> {
    let b = trim_end_slashes(base);
    match parsed_url(b + "/player_api.php"@) {
        Ok(u) => Ok(url_with_pair(url_with_pair(u, "username"@, user), "password"@, pass)),
        Err(e) => Err("invalid Xtream base URL '"@ + b + "': "@ + e),
    }
}

/// Build the `player_api.php` URL with the username/password query pair.
pub fn player_api_url(cfg: &XtreamConfig) -> (r: Result<String, String>)
    ensures
        match r {
            Ok(u) => player_api_url_spec(cfg.base@, cfg.username@, cfg.password@) == Ok::<
                Seq<char>,
                Seq<char>,
            >(u@),
            Err(e) => player_api_url_spec(cfg.base@, cfg.username@, cfg.password@) == Err::<
                Seq<char>,
                Seq<char>,
            >(e@),
        },
{
    let base = panel_base(cfg.base.as_str());
    let mut s = base.clone();
    s.append("/player_api.php");
    match parse_url(s.as_str()) {
        Ok(u) => {
            let u1 = append_query_pair(u.as_str(), "username", cfg.username.as_str());
            let u2 = append_query_pair(u1.as_str(), "password", cfg.password.as_str());
            Ok(u2)
        },
        Err(e) => {
            let mut m = String::from_str("invalid Xtream base URL '");
            m.append(base.as_str());
            m.append("': ");
            m.append(e.as_str());
            Err(m)
        },
    }
}

/// The `player_api.php` URL for an `action` request.
pub open spec fn action_url_spec(
    base: Seq<char>,
    user: Seq<char>,
    pass: Seq<char>,
    action: Seq<char>,
) -> Result<Seq<char>, Seq<char>> {
    match player_api_url_spec(base, user, pass) {
        Ok(u) => Ok(url_with_pair(u, "action"@, action)),
        Err(e) => Err(e),
    }
}

/// `player_api.php?username=..&password=..&action={action}`.
pub fn action_url(cfg: &XtreamConfig, action: &str) -> (r: Result<String, String>)
    ensures
        match r {
            Ok(u) => action_url_spec(cfg.base@, cfg.username@, cfg.password@, action@) == Ok::<
                Seq<char>,
                Seq<char>,
            >(u@),
            Err(e) => action_url_spec(cfg.base@, cfg.username@, cfg.password@, action@) == Err::<
                Seq<char>,
                Seq<char>,
            >(e@),
        },
{
    match player_api_url(cfg) {
        Ok(u) => Ok(append_query_pair(u.as_str(), "action", action)),
        Err(e) => Err(e),
    }
}

/// The `get_series_info` URL for a series.
pub open spec fn series_info_url_spec(
    base: Seq<char>,
    user: Seq<char>,
    pass: Seq<char>,
    series_id: i64,
) -> Result<Seq<char>, Seq<char>> {
    match action_url_spec(base, user, pass, "get_series_info"@) {
        Ok(u) => Ok(url_with_pair(u, "series_id"@, int_decimal(series_id as int))),
        Err(e) => Err(e),
    }
}

/// `player_api.php?...&action=get_series_info&series_id={series_id}`.
pub fn series_info_url(cfg: &XtreamConfig, series_id: i64) -> (r: Result<String, String>)
    ensures
        match r {
            Ok(u) => series_info_url_spec(cfg.base@, cfg.username@, cfg.password@, series_id)
                == Ok::<Seq<char>, Seq<char>>(u@),
            Err(e) => series_info_url_spec(cfg.base@, cfg.username@, cfg.password@, series_id)
                == Err::<Seq<char>, Seq<char>>(e@),
        },
{
    match action_url(cfg, "get_series_info") {
        Ok(u) => {
            let mut id = String::new();
            push_i64(&mut id, series_id);
            Ok(append_query_pair(u.as_str(), "series_id", id.as_str()))
        },
        Err(e) => Err(e),
    }
}

/// At most the first 200 characters of the trimmed text.
pub open spec fn excerpt_spec(s: Seq<char>) -> Seq<char> {
    let t = trim(s);
    if t.len() <= 200 {
        t
    } else {
        t.take(200)
    }
}

/// An excerpt is the start of the trimmed text, at most 200 characters.
pub proof fn lemma_excerpt_is_short_prefix(s: Seq<char>)
    ensures
        excerpt_spec(s).len() <= 200,
        excerpt_spec(s) == trim(s).take(excerpt_spec(s).len() as int),
{
    if trim(s).len() <= 200 {
        assert(trim(s).take(trim(s).len() as int) =~= trim(s));
    }
}

/// First 200 chars of a response body, for error messages.
pub fn excerpt(s: &str) -> (r: String)
    ensures
        r@ == excerpt_spec(s@),
{
    let t = trim_str(s);
    let v = chars_of(t.as_str());
    if v.len() <= 200 {
        t
    } else {
        assert(v@.subrange(0, 200) =~= v@.take(200));
        string_of(&v, 0, 200)
    }
}

/// `{kind}/{username}/{password}/{parts}.{ext}`.
pub open spec fn media_path(
    kind: Seq<char>,
    user: Seq<char>,
    pass: Seq<char>,
    parts: Seq<char>,
    ext: Seq<char>,
) -> Seq<char> {
    kind + "/"@ + user + "/"@ + pass + "/"@ + parts + "."@ + ext
}

/// `{base}/{kind}/{username}/{password}/{parts}.{ext}`.
pub open spec fn media_url_spec(
    base: Seq<char>,
    kind: Seq<char>,
    user: Seq<char>,
    pass: Seq<char>,
    parts: Seq<char>,
    ext: Seq<char>,
) -> Seq<char> {
    base + "/"@ + media_path(kind, user, pass, parts, ext)
}

/// `{base}/{kind}/{username}/{password}/{parts}.{ext}` — kind is one of
/// `live`, `movie`, `series`.
pub fn media_url(base: &str, kind: &str, username: &str, password: &str, parts: &str, ext: &str) -> (r:
    String)
    ensures
        r@ == media_url_spec(base@, kind@, username@, password@, parts@, ext@),
{
    let mut s = owned(base);
    s.append("/");
    s.append(kind);
    s.append("/");
    s.append(username);
    s.append("/");
    s.append(password);
    s.append("/");
    s.append(parts);
    s.append(".");
    s.append(ext);
    assert(s@ =~= base@ + "/"@ + media_path(kind@, username@, password@, parts@, ext@));
    s
}

/// `{base}/live/{username}/{password}/{stream_id}.ts`
pub fn live_url(base: &str, username: &str, password: &str, stream_id: i64) -> (r: String)
    ensures
        r@ == media_url_spec(base@, "live"@, username@, password@, int_decimal(stream_id as int), "ts"@),
{
    let mut id = String::new();
    push_i64(&mut id, stream_id);
    media_url(base, "live", username, password, id.as_str(), "ts")
}

// ---------------------------------------------------------------------
// Categories and rows
// ---------------------------------------------------------------------

/// The `(id, name)` pairs of the categories that have both, non-empty.
pub open spec fn category_pairs(cats: Seq<Category>) -> Seq<(Seq<char>, Seq<char>)>
    decreases cats.len(),
{
    if cats.len() == 0 {
        Seq::empty()
    } else {
        let rest = category_pairs(cats.drop_last());
        match (cats.last().category_id, cats.last().category_name) {
            (Some(id), Some(name)) => if id@.len() > 0 && name@.len() > 0 {
                rest.push((id@, name@))
            } else {
                rest
            },
            _ => rest,
        }
    }
}

/// The name recorded for `id` when the pairs are stored in order in a map:
/// the last one wins.
pub open spec fn category_lookup(ps: Seq<(Seq<char>, Seq<char>)>, id: Seq<char>) -> Option<Seq<char>>
    decreases ps.len(),
{
    if ps.len() == 0 {
        None
    } else if ps.last().0 == id {
        Some(ps.last().1)
    } else {
        category_lookup(ps.drop_last(), id)
    }
}

/// The category-id → name lookup table of a category list.
pub struct CategoryNames {
    pub pairs: Vec<(String, String)>,
}

/// The model of a lookup table: its pairs, as characters.
pub open spec fn names_view(n: CategoryNames) -> Seq<(Seq<char>, Seq<char>)> {
    n.pairs@.map_values(|p: (String, String)| (p.0@, p.1@))
}

/// The category id → name table: categories with a non-empty id and name.
pub fn category_names(cats: &Vec<Category>) -> (r: CategoryNames)
    ensures
        names_view(r) == category_pairs(cats@),
{
    let mut pairs: Vec<(String, String)> = Vec::new();
    let mut i: usize = 0;
    while i < cats.len()
        invariant
            0 <= i <= cats@.len(),
            pairs@.map_values(|p: (String, String)| (p.0@, p.1@)) == category_pairs(
                cats@.take(i as int),
            ),
        decreases cats.len() - i,
    {
        assert(cats@.take(i + 1).drop_last() =~= cats@.take(i as int));
        assert(cats@.take(i + 1).last() == cats@[i as int]);
        let ghost before = pairs@;
        match (&cats[i].category_id, &cats[i].category_name) {
            (Some(id), Some(name)) => {
                if !id.as_str().is_empty() && !name.as_str().is_empty() {
                    pairs.push((id.clone(), name.clone()));
                    assert(pairs@.map_values(|p: (String, String)| (p.0@, p.1@)) =~= before.map_values(
                        |p: (String, String)| (p.0@, p.1@),
                    ).push((id@, name@)));
                }
            },
            _ => {},
        }
        i = i + 1;
    }
    assert(cats@.take(cats@.len() as int) =~= cats@);
    CategoryNames { pairs }
}

/// The group of a row: its category's name, when the category is known.
pub open spec fn group_of(ps: Seq<(Seq<char>, Seq<char>)>, id: Option<String>) -> Option<Seq<char>> {
    match id {
        Some(i) => non_empty(category_lookup(ps, i@)),
        None => None,
    }
}

/// The category name for an optional category id.
pub fn lookup_group(names: &CategoryNames, id: &Option<String>) -> (r: Option<String>)
    ensures
        opt_chars(r) == group_of(names_view(*names), *id),
{
    let ghost ps = names_view(*names);
    match id {
        None => None,
        Some(idv) => {
            let mut i = names.pairs.len();
            assert(ps.take(i as int) =~= ps);
            while i > 0
                invariant
                    0 <= i <= names.pairs@.len(),
                    ps == names_view(*names),
                    group_of(ps, *id) == non_empty(category_lookup(ps, idv@)),
                    category_lookup(ps, idv@) == category_lookup(ps.take(i as int), idv@),
                decreases i,
            {
                let ghost pt = ps.take(i as int);
                assert(pt.drop_last() =~= ps.take(i - 1));
                assert(pt.last() == (names.pairs@[i - 1].0@, names.pairs@[i - 1].1@));
                if str_eq(names.pairs[i - 1].0.as_str(), idv.as_str()) {
                    let n = names.pairs[i - 1].1.clone();
                    if n.as_str().is_empty() {
                        return None;
                    }
                    return Some(n);
                }
                i = i - 1;
            }
            assert(ps.take(0) =~= Seq::<(Seq<char>, Seq<char>)>::empty());
            None
        },
    }
}

/// `o`, unless it holds an empty string (a copy).
pub fn non_empty_copy(o: &Option<String>) -> (r: Option<String>)
    ensures
        opt_chars(r) == non_empty(opt_chars(*o)),
{
    match o {
        Some(v) => if v.as_str().is_empty() {
            None
        } else {
            Some(v.clone())
        },
        None => None,
    }
}

/// A row's name, or `Unknown` when it has none.
pub open spec fn name_or_unknown(o: Option<String>) -> Seq<char> {
    match non_empty(opt_chars(o)) {
        Some(n) => n,
        None => "Unknown"@,
    }
}

/// Executable [`name_or_unknown`].
pub fn row_name(o: &Option<String>) -> (r: String)
    ensures
        r@ == name_or_unknown(*o),
{
    match non_empty_copy(o) {
        Some(n) => n,
        None => String::from_str("Unknown"),
    }
}

/// The channel a live stream row becomes; `None` for a row without id.
pub open spec fn live_channel_spec(
    base: Seq<char>,
    user: Seq<char>,
    pass: Seq<char>,
    ps: Seq<(Seq<char>, Seq<char>)>,
    s: Stream,
) -> Option<XtreamChannelView> {
    match s.stream_id {
        None => None,
        Some(id) => Some(
            XtreamChannelView {
                name: name_or_unknown(s.name),
                url: media_url_spec(base, "live"@, user, pass, int_decimal(id as int), "ts"@),
                logo_url: non_empty(opt_chars(s.stream_icon)),
                group: group_of(ps, s.category_id),
            },
        ),
    }
}

/// The channels of a list of live stream rows, in order.
pub open spec fn live_channels_spec(
    base: Seq<char>,
    user: Seq<char>,
    pass: Seq<char>,
    ps: Seq<(Seq<char>, Seq<char>)>,
    ss: Seq<Stream>,
) -> Seq<XtreamChannelView>
    decreases ss.len(),
{
    if ss.len() == 0 {
        Seq::empty()
    } else {
        let rest = live_channels_spec(base, user, pass, ps, ss.drop_last());
        match live_channel_spec(base, user, pass, ps, ss.last()) {
            Some(c) => rest.push(c),
            None => rest,
        }
    }
}

/// Turns live stream rows into channels with full stream URLs: rows
/// without a stream id are skipped, and unknown or empty category ids map to
/// no group.
pub fn live_channels(cfg: &XtreamConfig, names: &CategoryNames, streams: &Vec<Stream>) -> (r: Vec<
    XtreamChannel,
>)
    ensures
        r@.map_values(|c: XtreamChannel| c@) == live_channels_spec(
            trim_end_slashes(cfg.base@),
            cfg.username@,
            cfg.password@,
            names_view(*names),
            streams@,
        ),
{
    let base = panel_base(cfg.base.as_str());
    let ghost ps = names_view(*names);
    let mut out: Vec<XtreamChannel> = Vec::new();
    let mut i: usize = 0;
    while i < streams.len()
        invariant
            0 <= i <= streams@.len(),
            base@ == trim_end_slashes(cfg.base@),
            ps == names_view(*names),
            out@.map_values(|c: XtreamChannel| c@) == live_channels_spec(
                base@,
                cfg.username@,
                cfg.password@,
                ps,
                streams@.take(i as int),
            ),
        decreases streams.len() - i,
    {
        let s = &streams[i];
        assert(streams@.take(i + 1).drop_last() =~= streams@.take(i as int));
        assert(streams@.take(i + 1).last() == streams@[i as int]);
        match s.stream_id {
            None => {},
            Some(stream_id) => {
                let ghost before = out@;
                let c = XtreamChannel {
                    name: row_name(&s.name),
                    url: live_url(base.as_str(), cfg.username.as_str(), cfg.password.as_str(), stream_id),
                    logo_url: non_empty_copy(&s.stream_icon),
                    group: lookup_group(names, &s.category_id),
                };
                out.push(c);
                assert(out@.map_values(|c: XtreamChannel| c@) =~= before.map_values(
                    |c: XtreamChannel| c@,
                ).push(out@.last()@));
            },
        }
        i = i + 1;
    }
    assert(streams@.take(streams@.len() as int) =~= streams@);
    out
}

/// The item a VOD row becomes; `None` for a row without id.
pub open spec fn vod_item_spec(
    base: Seq<char>,
    user: Seq<char>,
    pass: Seq<char>,
    ps: Seq<(Seq<char>, Seq<char>)>,
    s: VodStream,
) -> Option<XtreamItemView> {
    match s.stream_id {
        None => None,
        Some(id) => {
            let ext = match non_empty(opt_chars(s.container_extension)) {
                Some(e) => e,
                None => "mp4"@,
            };
            Some(
                XtreamItemView {
                    name: name_or_unknown(s.name),
                    url: media_url_spec(base, "movie"@, user, pass, int_decimal(id as int), ext),
                    logo_url: non_empty(opt_chars(s.stream_icon)),
                    group: group_of(ps, s.category_id),
                    remote_id: Some(int_decimal(id as int)),
                },
            )
        },
    }
}

/// The items of a list of VOD rows, in order.
pub open spec fn vod_items_spec(
    base: Seq<char>,
    user: Seq<char>,
    pass: Seq<char>,
    ps: Seq<(Seq<char>, Seq<char>)>,
    ss: Seq<VodStream>,
) -> Seq<XtreamItemView>
    decreases ss.len(),
{
    if ss.len() == 0 {
        Seq::empty()
    } else {
        let rest = vod_items_spec(base, user, pass, ps, ss.drop_last());
        match vod_item_spec(base, user, pass, ps, ss.last()) {
            Some(c) => rest.push(c),
            None => rest,
        }
    }
}

/// Turns VOD rows into movies:
/// `{base}/movie/{user}/{pass}/{stream_id}.{ext}`, `mp4` when the row
/// names no extension.
pub fn vod_items(cfg: &XtreamConfig, names: &CategoryNames, streams: &Vec<VodStream>) -> (r: Vec<
    XtreamItem,
>)
    ensures
        r@.map_values(|c: XtreamItem| c@) == vod_items_spec(
            trim_end_slashes(cfg.base@),
            cfg.username@,
            cfg.password@,
            names_view(*names),
            streams@,
        ),
{
    let base = panel_base(cfg.base.as_str());
    let ghost ps = names_view(*names);
    let mut out: Vec<XtreamItem> = Vec::new();
    let mut i: usize = 0;
    while i < streams.len()
        invariant
            0 <= i <= streams@.len(),
            base@ == trim_end_slashes(cfg.base@),
            ps == names_view(*names),
            out@.map_values(|c: XtreamItem| c@) == vod_items_spec(
                base@,
                cfg.username@,
                cfg.password@,
                ps,
                streams@.take(i as int),
            ),
        decreases streams.len() - i,
    {
        let s = &streams[i];
        assert(streams@.take(i + 1).drop_last() =~= streams@.take(i as int));
        assert(streams@.take(i + 1).last() == streams@[i as int]);
        match s.stream_id {
            None => {},
            Some(stream_id) => {
                let ghost before = out@;
                let ext = match non_empty_copy(&s.container_extension) {
                    Some(e) => e,
                    None => String::from_str("mp4"),
                };
                let mut id = String::new();
                push_i64(&mut id, stream_id);
                let c = XtreamItem {
                    name: row_name(&s.name),
                    url: media_url(
                        base.as_str(),
                        "movie",
                        cfg.username.as_str(),
                        cfg.password.as_str(),
                        id.as_str(),
                        ext.as_str(),
                    ),
                    logo_url: non_empty_copy(&s.stream_icon),
                    group: lookup_group(names, &s.category_id),
                    remote_id: Some(id),
                };
                out.push(c);
                assert(out@.map_values(|c: XtreamItem| c@) =~= before.map_values(
                    |c: XtreamItem| c@,
                ).push(out@.last()@));
            },
        }
        i = i + 1;
    }
    assert(streams@.take(streams@.len() as int) =~= streams@);
    out
}

/// The row a series entry becomes; `None` for an entry without id.
pub open spec fn series_item_spec(ps: Seq<(Seq<char>, Seq<char>)>, s: SeriesItem) -> Option<
    XtreamItemView,
> {
    match s.series_id {
        None => None,
        Some(id) => Some(
            XtreamItemView {
                name: name_or_unknown(s.name),
                url: Seq::empty(),
                logo_url: non_empty(opt_chars(s.cover)),
                group: group_of(ps, s.category_id),
                remote_id: Some(int_decimal(id as int)),
            },
        ),
    }
}

/// The rows of a list of series entries, in order.
pub open spec fn series_items_spec(ps: Seq<(Seq<char>, Seq<char>)>, ss: Seq<SeriesItem>) -> Seq<
    XtreamItemView,
>
    decreases ss.len(),
{
    if ss.len() == 0 {
        Seq::empty()
    } else {
        let rest = series_items_spec(ps, ss.drop_last());
        match series_item_spec(ps, ss.last()) {
            Some(c) => rest.push(c),
            None => rest,
        }
    }
}

/// Turns series entries into rows. Series have no single stream URL
/// (episodes are fetched on demand), so `url` is empty; `remote_id` carries
/// the panel's series_id needed for `get_series_info`.
pub fn series_items(names: &CategoryNames, series: &Vec<SeriesItem>) -> (r: Vec<XtreamItem>)
    ensures
        r@.map_values(|c: XtreamItem| c@) == series_items_spec(names_view(*names), series@),
{
    let ghost ps = names_view(*names);
    let mut out: Vec<XtreamItem> = Vec::new();
    let mut i: usize = 0;
    while i < series.len()
        invariant
            0 <= i <= series@.len(),
            ps == names_view(*names),
            out@.map_values(|c: XtreamItem| c@) == series_items_spec(ps, series@.take(i as int)),
        decreases series.len() - i,
    {
        let s = &series[i];
        assert(series@.take(i + 1).drop_last() =~= series@.take(i as int));
        assert(series@.take(i + 1).last() == series@[i as int]);
        match s.series_id {
            None => {},
            Some(series_id) => {
                let ghost before = out@;
                let mut id = String::new();
                push_i64(&mut id, series_id);
                let c = XtreamItem {
                    name: row_name(&s.name),
                    url: String::new(),
                    logo_url: non_empty_copy(&s.cover),
                    group: lookup_group(names, &s.category_id),
                    remote_id: Some(id),
                };
                out.push(c);
                assert(out@.map_values(|c: XtreamItem| c@) =~= before.map_values(
                    |c: XtreamItem| c@,
                ).push(out@.last()@));
            },
        }
        i = i + 1;
    }
    assert(series@.take(series@.len() as int) =~= series@);
    out
}

// ---------------------------------------------------------------------
// Credential check
// ---------------------------------------------------------------------

/// Whether an `auth` value means success: panels report it as `1`/`0`,
/// `true`/`false`, or strings thereof.
pub open spec fn auth_ok(a: JsonValue) -> bool {
    match a {
        JsonValue::Bool(b) => b,
        JsonValue::Number(n) => match n {
            Some(v) => v != 0,
            None => false,
        },
        JsonValue::String(s) => s@ == "1"@ || lower_ascii_seq(s@) == lower_ascii_seq("true"@),
        _ => false,
    }
}

/// The message for a response without `user_info.auth`.
pub open spec fn unexpected_message(raw: Seq<char>) -> Seq<char> {
    "unexpected response from server: "@ + excerpt_spec(raw)
}

/// The outcome of a credential check: `Ok` when `user_info.auth` says so;
/// otherwise a message naming the user, with the panel's status when it
/// gives one. `raw` is the response as text.
pub open spec fn auth_outcome_spec(json: JsonValue, raw: Seq<char>, username: Seq<char>) -> Result<
    (),
    Seq<char>,
> {
    match json_get(json, "user_info"@) {
        None => Err(unexpected_message(raw)),
        Some(ui) => match json_get(ui, "auth"@) {
            None => Err(unexpected_message(raw)),
            Some(a) => if auth_ok(a) {
                Ok(())
            } else {
                let hint = match non_empty(json_str(json_get(ui, "status"@))) {
                    Some(st) => " (server says: "@ + st + ")"@,
                    None => Seq::empty(),
                };
                Err(
                    "authentication failed for user '"@ + username
                        + "' - check username and password"@ + hint,
                )
            },
        },
    }
}

/// The message for a response that lacks `user_info.auth`.
fn unexpected_response(raw: &str) -> (r: String)
    ensures
        r@ == unexpected_message(raw@),
{
    let mut m = String::from_str("unexpected response from server: ");
    let e = excerpt(raw);
    m.append(e.as_str());
    m
}

/// Decides a `player_api.php` credential check from its JSON answer
/// (`raw` is that answer as text, for the error message).
pub fn auth_outcome(json: &JsonValue, raw: &str, username: &str) -> (r: Result<(), String>)
    ensures
        match r {
            Ok(()) => auth_outcome_spec(*json, raw@, username@) == Ok::<(), Seq<char>>(()),
            Err(e) => auth_outcome_spec(*json, raw@, username@) == Err::<(), Seq<char>>(e@),
        },
{
    let ui = match get(json, &chars_of("user_info")) {
        Some(u) => u,
        None => return Err(unexpected_response(raw)),
    };
    let a = match get(ui, &chars_of("auth")) {
        Some(a) => a,
        None => return Err(unexpected_response(raw)),
    };
    let ok = match a {
        JsonValue::Bool(b) => *b,
        JsonValue::Number(n) => match n {
            Some(v) => *v != 0,
            None => false,
        },
        JsonValue::String(s) => str_eq(s.as_str(), "1") || eq_ignore_ascii_case(s.as_str(), "true"),
        _ => false,
    };
    if ok {
        return Ok(());
    }
    let mut m = String::from_str("authentication failed for user '");
    m.append(username);
    m.append("' - check username and password");
    let ghost head = m@;
    match as_str(get(ui, &chars_of("status"))) {
        Some(st) => {
            if !st.as_str().is_empty() {
                m.append(" (server says: ");
                m.append(st.as_str());
                m.append(")");
                assert(m@ =~= head + (" (server says: "@ + st@ + ")"@));
            } else {
                assert(m@ =~= head + Seq::<char>::empty());
            }
        },
        None => {
            assert(m@ =~= head + Seq::<char>::empty());
        },
    }
    Err(m)
}

// ---------------------------------------------------------------------
// Series episodes
// ---------------------------------------------------------------------

/// The episode a `get_series_info` entry describes, in the given season
/// (else its own `season`); `None` without an episode number or a season.
/// A missing title becomes `S{season}E{episode}`, a missing extension `mp4`.
pub open spec fn parse_episode_spec(ep: JsonValue, season: Option<i64>) -> Option<EpisodeView> {
    match json_i64(json_get(ep, "episode_num"@)) {
        None => None,
        Some(num) => {
            let sn = match season {
                Some(s) => Some(s),
                None => json_i64(json_get(ep, "season"@)),
            };
            match sn {
                None => None,
                Some(s) => Some(
                    EpisodeView {
                        season: s,
                        episode_num: num,
                        title: match non_empty(json_str(json_get(ep, "title"@))) {
                            Some(t) => t,
                            None => "S"@ + int_decimal(s as int) + "E"@ + int_decimal(num as int),
                        },
                        ext: match non_empty(json_str(json_get(ep, "container_extension"@))) {
                            Some(e) => e,
                            None => "mp4"@,
                        },
                        logo_url: non_empty(
                            json_str(json_get_opt(json_get(ep, "info"@), "movie_image"@)),
                        ),
                    },
                ),
            }
        },
    }
}

/// A copy of a JSON string, unless it is empty.
fn non_empty_str(s: Option<&String>) -> (r: Option<String>)
    ensures
        opt_chars(r) == non_empty(
            match s {
                Some(x) => Some(x@),
                None => None,
            },
        ),
{
    match s {
        Some(x) => if x.as_str().is_empty() {
            None
        } else {
            Some(x.clone())
        },
        None => None,
    }
}

/// Parses one episode entry of `get_series_info`.
pub fn parse_episode(ep: &JsonValue, season: Option<i64>) -> (r: Option<ParsedEpisode>)
    ensures
        match r {
            Some(e) => parse_episode_spec(*ep, season) == Some(e@),
            None => parse_episode_spec(*ep, season) is None,
        },
{
    let episode_num = match as_i64(get(ep, &chars_of("episode_num"))) {
        Some(n) => n,
        None => return None,
    };
    let season = match season {
        Some(s) => s,
        None => match as_i64(get(ep, &chars_of("season"))) {
            Some(s) => s,
            None => return None,
        },
    };
    let title = match non_empty_str(as_str(get(ep, &chars_of("title")))) {
        Some(t) => t,
        None => {
            let mut t = String::from_str("S");
            push_i64(&mut t, season);
            push_char(&mut t, 'E');
            push_i64(&mut t, episode_num);
            assert(t@ =~= "S"@ + int_decimal(season as int) + "E"@ + int_decimal(
                episode_num as int,
            )) by {
                assert("E"@ =~= seq!['E']) by {
                    reveal_strlit("E");
                }
            }
            t
        },
    };
    let ext = match non_empty_str(as_str(get(ep, &chars_of("container_extension")))) {
        Some(e) => e,
        None => String::from_str("mp4"),
    };
    let logo_url = non_empty_str(as_str(get_opt(get(ep, &chars_of("info")), &chars_of("movie_image"))));
    Some(ParsedEpisode { season, episode_num, title, ext, logo_url })
}

/// The episodes of a list of entries, all in `season` (or their own).
pub open spec fn entries_spec(eps: Seq<JsonValue>, season: Option<i64>) -> Seq<EpisodeView>
    decreases eps.len(),
{
    if eps.len() == 0 {
        Seq::empty()
    } else {
        let rest = entries_spec(eps.drop_last(), season);
        match parse_episode_spec(eps.last(), season) {
            Some(e) => rest.push(e),
            None => rest,
        }
    }
}

/// A season's number: `season_number`, or `season` when that key is
/// absent, as an integer.
pub open spec fn season_number(s: JsonValue) -> Option<i64> {
    json_i64(
        match json_get(s, "season_number"@) {
            Some(v) => Some(v),
            None => json_get(s, "season"@),
        },
    )
}

/// The episodes of one element of `seasons`.
pub open spec fn season_block(s: JsonValue) -> Seq<EpisodeView> {
    match season_number(s) {
        None => Seq::empty(),
        Some(n) => match json_array(json_get(s, "episodes"@)) {
            Some(eps) => entries_spec(eps, Some(n)),
            None => Seq::empty(),
        },
    }
}

/// The episodes of a `seasons` array, season after season.
pub open spec fn seasons_spec(ss: Seq<JsonValue>) -> Seq<EpisodeView>
    decreases ss.len(),
{
    if ss.len() == 0 {
        Seq::empty()
    } else {
        seasons_spec(ss.drop_last()) + season_block(ss.last())
    }
}

/// The episodes of an `episodes` object keyed by season number, member
/// after member (a key that is not a number gives no season).
pub open spec fn keyed_spec(fs: Seq<(String, JsonValue)>) -> Seq<EpisodeView>
    decreases fs.len(),
{
    if fs.len() == 0 {
        Seq::empty()
    } else {
        keyed_spec(fs.drop_last()) + match json_array(Some(fs.last().1)) {
            Some(eps) => entries_spec(eps, parse_i64_spec(fs.last().0@)),
            None => Seq::empty(),
        }
    }
}

/// What `get_series_info` answered: an error for an explicit `error`
/// string; otherwise the episodes of the `seasons` array, else of a flat
/// `episodes` array, else of an `episodes` object keyed by season.
pub open spec fn series_episodes_spec(json: JsonValue) -> Result<Seq<EpisodeView>, Seq<char>> {
    match non_empty(json_str(json_get(json, "error"@))) {
        Some(err) => Err("server error: "@ + err),
        None => Ok(
            match json_array(json_get(json, "seasons"@)) {
                Some(ss) => seasons_spec(ss),
                None => match json_array(json_get(json, "episodes"@)) {
                    Some(eps) => entries_spec(eps, None),
                    None => match json_object(json_get(json, "episodes"@)) {
                        Some(fs) => keyed_spec(fs),
                        None => Seq::empty(),
                    },
                },
            },
        ),
    }
}

/// The models of a list of parsed episodes.
pub open spec fn episode_views(v: Seq<ParsedEpisode>) -> Seq<EpisodeView> {
    v.map_values(|e: ParsedEpisode| e@)
}

/// Appends the episodes of `eps` (all in `season`, or their own) to `out`.
fn push_entries(out: &mut Vec<ParsedEpisode>, eps: &Vec<JsonValue>, season: Option<i64>)
    ensures
        episode_views(final(out)@) == episode_views(old(out)@) + entries_spec(eps@, season),
{
    let mut i: usize = 0;
    while i < eps.len()
        invariant
            0 <= i <= eps@.len(),
            episode_views(out@) == episode_views(old(out)@) + entries_spec(
                eps@.take(i as int),
                season,
            ),
        decreases eps.len() - i,
    {
        assert(eps@.take(i + 1).drop_last() =~= eps@.take(i as int));
        assert(eps@.take(i + 1).last() == eps@[i as int]);
        let ghost before = out@;
        match parse_episode(&eps[i], season) {
            Some(p) => {
                out.push(p);
                assert(episode_views(out@) =~= episode_views(before).push(out@.last()@));
            },
            None => {},
        }
        i = i + 1;
    }
    assert(eps@.take(eps@.len() as int) =~= eps@);
}

/// Parses a `get_series_info` response into episodes. Handles the standard
/// `seasons` array shape, a flat top-level `episodes` array, and a
/// non-standard `episodes` object keyed by season number; an explicit error
/// object is surfaced as an error.
pub fn parse_series_episodes(json: &JsonValue) -> (r: Result<Vec<ParsedEpisode>, String>)
    ensures
        match r {
            Ok(v) => series_episodes_spec(*json) == Ok::<Seq<EpisodeView>, Seq<char>>(
                episode_views(v@),
            ),
            Err(e) => series_episodes_spec(*json) == Err::<Seq<EpisodeView>, Seq<char>>(e@),
        },
{
    match non_empty_str(as_str(get(json, &chars_of("error")))) {
        Some(err) => {
            let mut m = String::from_str("server error: ");
            m.append(err.as_str());
            return Err(m);
        },
        None => {},
    }
    let mut out: Vec<ParsedEpisode> = Vec::new();
    assert(episode_views(out@) =~= Seq::<EpisodeView>::empty());
    let episodes_key = chars_of("episodes");
    if let Some(seasons) = as_array(get(json, &chars_of("seasons"))) {
        let mut i: usize = 0;
        while i < seasons.len()
            invariant
                0 <= i <= seasons@.len(),
                episodes_key@ == "episodes"@,
                episode_views(out@) == seasons_spec(seasons@.take(i as int)),
            decreases seasons.len() - i,
        {
            assert(seasons@.take(i + 1).drop_last() =~= seasons@.take(i as int));
            assert(seasons@.take(i + 1).last() == seasons@[i as int]);
            let season = &seasons[i];
            let sv = match get(season, &chars_of("season_number")) {
                Some(v) => Some(v),
                None => get(season, &chars_of("season")),
            };
            let ghost before = episode_views(out@);
            match as_i64(sv) {
                Some(n) => {
                    if let Some(eps) = as_array(get(season, &episodes_key)) {
                        push_entries(&mut out, eps, Some(n));
                    }
                },
                None => {},
            }
            assert(episode_views(out@) =~= before + season_block(seasons@[i as int]));
            i = i + 1;
        }
        assert(seasons@.take(seasons@.len() as int) =~= seasons@);
    } else if let Some(eps) = as_array(get(json, &episodes_key)) {
        push_entries(&mut out, eps, None);
    } else if let Some(map) = as_object(get(json, &episodes_key)) {
        let mut i: usize = 0;
        while i < map.len()
            invariant
                0 <= i <= map@.len(),
                episode_views(out@) == keyed_spec(map@.take(i as int)),
            decreases map.len() - i,
        {
            assert(map@.take(i + 1).drop_last() =~= map@.take(i as int));
            assert(map@.take(i + 1).last() == map@[i as int]);
            let season = parse_i64(map[i].0.as_str());
            let ghost before = episode_views(out@);
            if let Some(eps) = as_array(Some(&map[i].1)) {
                push_entries(&mut out, eps, season);
            }
            assert(episode_views(out@) =~= before + match json_array(Some(map@[i as int].1)) {
                Some(eps) => entries_spec(eps, parse_i64_spec(map@[i as int].0@)),
                None => Seq::empty(),
            });
            i = i + 1;
        }
        assert(map@.take(map@.len() as int) =~= map@);
    }
    Ok(out)
}

/// The playable episodes of a series:
/// `{base}/series/{user}/{pass}/{series_id}/{season}/{ep}.{ext}`.
pub open spec fn raw_episode_spec(
    base: Seq<char>,
    user: Seq<char>,
    pass: Seq<char>,
    series_id: i64,
    p: EpisodeView,
) -> RawEpisodeView {
    RawEpisodeView {
        season: p.season,
        episode_num: p.episode_num,
        title: p.title,
        url: media_url_spec(
            base,
            "series"@,
            user,
            pass,
            int_decimal(series_id as int) + "/"@ + int_decimal(p.season as int) + "/"@ + int_decimal(
                p.episode_num as int,
            ),
            p.ext,
        ),
        logo_url: p.logo_url,
    }
}

/// Materializes the URL of each parsed episode of a series.
pub fn episode_urls(cfg: &XtreamConfig, series_id: i64, parsed: Vec<ParsedEpisode>) -> (r: Vec<
    RawEpisode,
>)
    ensures
        r@.len() == parsed@.len(),
        forall|k: int|
            0 <= k < parsed@.len() ==> (#[trigger] r@[k])@ == raw_episode_spec(
                trim_end_slashes(cfg.base@),
                cfg.username@,
                cfg.password@,
                series_id,
                parsed@[k]@,
            ),
{
    let base = panel_base(cfg.base.as_str());
    let mut out: Vec<RawEpisode> = Vec::new();
    let mut i: usize = 0;
    while i < parsed.len()
        invariant
            0 <= i <= parsed@.len(),
            base@ == trim_end_slashes(cfg.base@),
            out@.len() == i,
            forall|k: int|
                0 <= k < i ==> (#[trigger] out@[k])@ == raw_episode_spec(
                    base@,
                    cfg.username@,
                    cfg.password@,
                    series_id,
                    parsed@[k]@,
                ),
        decreases parsed.len() - i,
    {
        let p = &parsed[i];
        let mut parts = String::new();
        push_i64(&mut parts, series_id);
        parts.append("/");
        push_i64(&mut parts, p.season);
        parts.append("/");
        push_i64(&mut parts, p.episode_num);
        let url = media_url(
            base.as_str(),
            "series",
            cfg.username.as_str(),
            cfg.password.as_str(),
            parts.as_str(),
            p.ext.as_str(),
        );
        let logo_url = match &p.logo_url {
            Some(l) => Some(l.clone()),
            None => None,
        };
        out.push(
            RawEpisode {
                season: p.season,
                episode_num: p.episode_num,
                title: p.title.clone(),
                url,
                logo_url,
            },
        );
        i = i + 1;
    }
    out
}

/// The playable URL of a series episode is
/// `{base}/series/{user}/{pass}/{series_id}/{season}/{episode}.{ext}`: the
/// series id, then the season, then the episode number, each in decimal;
/// the episode keeps its season, number, title and logo.
pub proof fn lemma_episode_url_layout(
    base: Seq<char>,
    user: Seq<char>,
    pass: Seq<char>,
    series_id: i64,
    p: EpisodeView,
)
    ensures
        raw_episode_spec(base, user, pass, series_id, p).url == base + "/series/"@ + user + "/"@
            + pass + "/"@ + int_decimal(series_id as int) + "/"@ + int_decimal(p.season as int)
            + "/"@ + int_decimal(p.episode_num as int) + "."@ + p.ext,
        raw_episode_spec(base, user, pass, series_id, p).season == p.season,
        raw_episode_spec(base, user, pass, series_id, p).episode_num == p.episode_num,
        raw_episode_spec(base, user, pass, series_id, p).title == p.title,
        raw_episode_spec(base, user, pass, series_id, p).logo_url == p.logo_url,
{
    reveal_strlit("/series/");
    reveal_strlit("series");
    reveal_strlit("/");
    reveal_strlit(".");
    assert(raw_episode_spec(base, user, pass, series_id, p).url =~= base + "/series/"@ + user
        + "/"@ + pass + "/"@ + int_decimal(series_id as int) + "/"@ + int_decimal(p.season as int)
        + "/"@ + int_decimal(p.episode_num as int) + "."@ + p.ext);
}

/// The rows the panel's streams become. A row without an id is skipped.
/// A live stream plays at `{base}/live/{user}/{pass}/{id}.ts`; a movie at
/// `{base}/movie/{user}/{pass}/{id}.{ext}` (`mp4` when the panel gives no
/// extension) and keeps its id as the remote id; a series has no single
/// stream (an empty URL) and keeps its id as the remote id.
pub proof fn lemma_stream_row_urls(
    base: Seq<char>,
    user: Seq<char>,
    pass: Seq<char>,
    ps: Seq<(Seq<char>, Seq<char>)>,
    live: Stream,
    movie: VodStream,
    series: SeriesItem,
)
    ensures
        live.stream_id is None <==> live_channel_spec(base, user, pass, ps, live) is None,
        live.stream_id matches Some(id) ==> live_channel_spec(base, user, pass, ps, live)->0.url
            == base + "/live/"@ + user + "/"@ + pass + "/"@ + int_decimal(id as int) + ".ts"@,
        movie.stream_id is None <==> vod_item_spec(base, user, pass, ps, movie) is None,
        movie.stream_id matches Some(id) ==> {
            let row = vod_item_spec(base, user, pass, ps, movie)->0;
            let ext = match movie.container_extension {
                Some(e) => if e@.len() > 0 {
                    e@
                } else {
                    seq!['m', 'p', '4']
                },
                None => seq!['m', 'p', '4'],
            };
            &&& row.url == base + "/movie/"@ + user + "/"@ + pass + "/"@ + int_decimal(id as int)
                + "."@ + ext
            &&& row.remote_id == Some(int_decimal(id as int))
        },
        series.series_id is None <==> series_item_spec(ps, series) is None,
        series.series_id matches Some(id) ==> series_item_spec(ps, series)->0.url.len() == 0
            && series_item_spec(ps, series)->0.remote_id == Some(int_decimal(id as int)),
{
    reveal_strlit("/live/");
    reveal_strlit("live");
    reveal_strlit("/movie/");
    reveal_strlit("movie");
    reveal_strlit("/");
    reveal_strlit(".");
    reveal_strlit(".ts");
    reveal_strlit("ts");
    reveal_strlit("mp4");
    assert("mp4"@ =~= seq!['m', 'p', '4']);
    if let Some(id) = live.stream_id {
        assert(live_channel_spec(base, user, pass, ps, live)->0.url =~= base + "/live/"@ + user
            + "/"@ + pass + "/"@ + int_decimal(id as int) + ".ts"@);
    }
    if let Some(id) = movie.stream_id {
        let row = vod_item_spec(base, user, pass, ps, movie)->0;
        let ext = match movie.container_extension {
            Some(e) => if e@.len() > 0 {
                e@
            } else {
                seq!['m', 'p', '4']
            },
            None => seq!['m', 'p', '4'],
        };
        assert(row.url =~= base + "/movie/"@ + user + "/"@ + pass + "/"@ + int_decimal(id as int)
            + "."@ + ext);
    }
}

/// Category names are looked up as a map filled in order: the name of the
/// last category with that id wins, and a category with an empty id or
/// name is never recorded.
pub proof fn lemma_category_last_wins(cats: Seq<Category>, c: Category, id: Seq<char>)
    ensures
        category_lookup(category_pairs(cats.push(c)), id) == match (c.category_id, c.category_name) {
            (Some(i), Some(n)) => if i@.len() > 0 && n@.len() > 0 && i@ == id {
                Some(n@)
            } else {
                category_lookup(category_pairs(cats), id)
            },
            _ => category_lookup(category_pairs(cats), id),
        },
{
    assert(cats.push(c).drop_last() =~= cats);
    let rest = category_pairs(cats);
    match (c.category_id, c.category_name) {
        (Some(i), Some(n)) => {
            if i@.len() > 0 && n@.len() > 0 {
                assert(rest.push((i@, n@)).drop_last() =~= rest);
            }
        },
        _ => {},
    }
}

} // verus!
