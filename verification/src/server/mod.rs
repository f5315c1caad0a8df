//! The decisions behind the embedded LAN server: what it advertises, how a
//! channel is played, and the HLS proxy and ffmpeg remux back ends.
use vstd::prelude::*;

pub mod ffmpeg;
pub mod hls_proxy;

use crate::m3u::opt_chars;
use crate::text::{
    chars_of, contains_chars, contains_seq, lowercase, nat_decimal, owned, push_u64, str_eq,
    string_of, to_lowercase, trim, trim_str,
};
use crate::urls::{url_origin, url_origin_of, url_path, url_path_of};
use self::hls_proxy::{
    is_http_url, is_http_url_spec, proxied, proxied_spec, remux_location, remux_location_spec,
};

verus! {

broadcast use vstd::string::group_string_axioms;

/// Episode ids live in the same `/proxy/hls/{id}` + `/stream/ts/{id}` id
/// namespace as channel ids; shifting episode ids by this offset (2^30)
/// keeps the two disjoint.
pub const EPISODE_ID_OFFSET: u64 = 0x4000_0000;

/// The port the LAN server binds when no other is configured.
pub const DEFAULT_PORT: u16 = 4040;

/// How many channels a list or search answers by default.
pub const DEFAULT_CHANNEL_LIMIT: i64 = 500;

/// The ports to try binding, in order: the configured one, if any, then
/// [`DEFAULT_PORT`].
pub fn bind_candidates(preferred: Option<u16>) -> (r: Vec<u16>)
    ensures
        r@ == match preferred {
            Some(p) => seq![p, DEFAULT_PORT],
            None => seq![DEFAULT_PORT],
        },
{
    let mut v: Vec<u16> = Vec::new();
    if let Some(p) = preferred {
        v.push(p);
    }
    v.push(DEFAULT_PORT);
    assert(v@ =~= match preferred {
        Some(p) => seq![p, DEFAULT_PORT],
        None => seq![DEFAULT_PORT],
    });
    v
}

/// The group kind the TV page's group list shows: the requested one, else
/// `live`, so a page that asks for nothing never sees VOD or series groups.
pub fn groups_kind(kind: Option<String>) -> (r: String)
    ensures
        r@ == match kind {
            Some(k) => k@,
            None => "live"@,
        },
{
    match kind {
        Some(k) => k,
        None => String::from_str("live"),
    }
}

/// Information about the running LAN server, for the frontend status view.
/// `host`/`ip_override`/`port_pref` are the user's configured preferences
/// (None = automatic).
pub struct ServerInfo {
    pub url: String,
    pub ips: Vec<String>,
    pub port: u16,
    pub host: String,
    pub ip_override: Option<String>,
    pub port_pref: Option<u16>,
}

/// The advertised host: the override when it is not empty, else the first
/// detected address, else nothing.
pub open spec fn host_spec(ips: Seq<String>, ip_override: Option<Seq<char>>) -> Seq<char> {
    match ip_override {
        Some(ip) => if ip.len() > 0 {
            ip
        } else if ips.len() > 0 {
            ips[0]@
        } else {
            Seq::empty()
        },
        None => if ips.len() > 0 {
            ips[0]@
        } else {
            Seq::empty()
        },
    }
}

/// `http://{host}:{port}`, or nothing without a host.
pub open spec fn server_url_spec(host: Seq<char>, port: u16) -> Seq<char> {
    if host.len() == 0 {
        Seq::empty()
    } else {
        "http://"@ + host + ":"@ + nat_decimal(port as nat)
    }
}

/// Server info from the detected addresses `ips` and the bound `port`
/// (`None` until the server has started), with the user's host override and
/// port preference; `ips` stays the full detected list.
pub fn server_info(ips: Vec<String>, port: Option<u16>, ip_override: Option<&str>, port_pref: Option<
    u16,
>) -> (r: Result<ServerInfo, String>)
    ensures
        port is None <==> r is Err,
        r matches Err(e) ==> e@ == "server not started"@,
        r matches Ok(info) ==> {
            let ov = match ip_override {
                Some(s) => Some(s@),
                None => None,
            };
            &&& info.port == port->0
            &&& info.ips@ == ips@
            &&& info.host@ == host_spec(ips@, ov)
            &&& info.url@ == server_url_spec(info.host@, info.port)
            &&& opt_chars(info.ip_override) == ov
            &&& info.port_pref == port_pref
        },
{
    let port = match port {
        Some(p) => p,
        None => return Err(String::from_str("server not started")),
    };
    let first = if ips.len() > 0 {
        ips[0].clone()
    } else {
        String::new()
    };
    let host = match ip_override {
        Some(ip) => if !ip.is_empty() {
            owned(ip)
        } else {
            first
        },
        None => first,
    };
    let url = if host.as_str().is_empty() {
        String::new()
    } else {
        let mut u = String::from_str("http://");
        u.append(host.as_str());
        u.append(":");
        push_u64(&mut u, port as u64);
        u
    };
    let ov = match ip_override {
        Some(ip) => Some(owned(ip)),
        None => None,
    };
    Ok(ServerInfo { url, ips, port, host, ip_override: ov, port_pref })
}

/// The text after the last `.` of `p` (all of `p` when it has none), as
/// `p.rsplit('.').next()` gives it.
pub open spec fn after_last_dot(p: Seq<char>) -> Seq<char>
    decreases p.len(),
{
    if p.len() == 0 {
        p
    } else if p.last() == '.' {
        Seq::empty()
    } else {
        after_last_dot(p.drop_last()).push(p.last())
    }
}

/// Extensions browsers can play natively.
pub open spec fn native_ext(e: Seq<char>) -> bool {
    e == "mp4"@ || e == "m4v"@ || e == "webm"@ || e == "mov"@ || e == "ogv"@ || e == "ogg"@ || e
        == "mp3"@ || e == "aac"@ || e == "m4a"@
}

/// Whether a URL names a browser-native file: the (lowercased) extension of
/// its path (of the whole text when it does not parse) is a native one.
pub open spec fn browser_native_spec(url: Seq<char>) -> bool {
    let p = match url_path_of(url) {
        Some(p) => p,
        None => url,
    };
    native_ext(lowercase(after_last_dot(p)))
}

/// Extensions browsers can play natively. Anything else needs the ffmpeg
/// remuxer.
pub fn is_browser_native(url: &str) -> (r: bool)
    ensures
        r == browser_native_spec(url@),
{
    let path = match url_path(url) {
        Some(p) => p,
        None => owned(url),
    };
    let v = chars_of(path.as_str());
    let mut j = v.len();
    assert(v@.take(j as int) =~= v@);
    while j > 0 && v[j - 1] != '.'
        invariant
            0 <= j <= v@.len(),
            after_last_dot(v@) == after_last_dot(v@.take(j as int)) + v@.subrange(
                j as int,
                v@.len() as int,
            ),
        decreases j,
    {
        let ghost pt = v@.take(j as int);
        assert(pt.drop_last() =~= v@.take(j - 1));
        assert(after_last_dot(v@.take(j - 1)) + v@.subrange(j - 1, v@.len() as int) =~= after_last_dot(
            v@.take(j - 1),
        ).push(pt.last()) + v@.subrange(j as int, v@.len() as int));
        j = j - 1;
    }
    proof {
        assert(after_last_dot(v@.take(j as int)) =~= Seq::<char>::empty());
        assert(after_last_dot(v@) =~= v@.subrange(j as int, v@.len() as int));
    }
    let ext = string_of(&v, j, v.len());
    let e = to_lowercase(ext.as_str());
    let s = e.as_str();
    str_eq(s, "mp4") || str_eq(s, "m4v") || str_eq(s, "webm") || str_eq(s, "mov") || str_eq(s, "ogv")
        || str_eq(s, "ogg") || str_eq(s, "mp3") || str_eq(s, "aac") || str_eq(s, "m4a")
}

/// The same-origin play payload for a stream: `kind` says how the player
/// should treat it, `url` is the default proxy path, `ts` the ffmpeg remux
/// manifest and `direct` the raw upstream URL.
pub struct PlayInfo {
    pub kind: String,
    pub url: String,
    pub ts: String,
    pub direct: String,
}

/// `(kind, url)` of the play payload for a stored row of kind `kind`
/// ("live"/"vod", or "episode") with upstream `url` and namespace id `id`:
/// HLS goes through the proxy; VOD and episode files play directly when
/// browser-native and are otherwise probed/remuxed; live non-HLS is probed.
pub open spec fn play_choice(kind: Seq<char>, url: Seq<char>, id: u64) -> (Seq<char>, Seq<char>) {
    let path = proxied_spec(url, id);
    if contains_seq(lowercase(url), seq!['.', 'm', '3', 'u', '8']) {
        ("hls"@, path)
    } else if kind == "vod"@ || kind == "episode"@ {
        if browser_native_spec(url) {
            ("file"@, path)
        } else {
            ("ts"@, path + "&probe=1"@)
        }
    } else {
        ("ts"@, path + "&probe=1"@)
    }
}

/// Builds the same-origin play payload for a stream. `kind` is the stored
/// row kind ("live"/"vod") or "episode"; `id` is the proxy/ffmpeg
/// namespace id (channel id, or episode id + EPISODE_ID_OFFSET).
pub fn play_info_for(kind: &str, url: &str, id: u64) -> (r: PlayInfo)
    ensures
        (r.kind@, r.url@) == play_choice(kind@, url@, id),
        r.ts@ == remux_location_spec(id),
        r.direct@ == url@,
{
    let path = proxied(url, id);
    let lower = to_lowercase(url);
    let (k, u) = if contains_chars(&chars_of(lower.as_str()), &['.', 'm', '3', 'u', '8']) {
        (String::from_str("hls"), path)
    } else if str_eq(kind, "vod") || str_eq(kind, "episode") {
        if is_browser_native(url) {
            (String::from_str("file"), path)
        } else {
            let mut p = path;
            p.append("&probe=1");
            (String::from_str("ts"), p)
        }
    } else {
        let mut p = path;
        p.append("&probe=1");
        (String::from_str("ts"), p)
    };
    PlayInfo { kind: k, url: u, ts: remux_location(id), direct: owned(url) }
}

/// The play payload for a channel row; a series has no single stream.
pub fn play_for_channel(kind: &str, url: &str, id: u64) -> (r: Result<PlayInfo, String>)
    ensures
        kind@ == "series"@ <==> r is Err,
        r matches Err(e) ==> e@ == "series has no single stream — open it to browse episodes"@,
        r matches Ok(info) ==> (info.kind@, info.url@) == play_choice(kind@, url@, id)
            && info.ts@ == remux_location_spec(id) && info.direct@ == url@,
{
    if str_eq(kind, "series") {
        return Err(String::from_str("series has no single stream — open it to browse episodes"));
    }
    Ok(play_info_for(kind, url, id))
}

/// The play payload for episode `id`, in the episode id namespace.
pub fn play_for_episode(url: &str, id: u64) -> (r: PlayInfo)
    requires
        id + EPISODE_ID_OFFSET <= u64::MAX,
    ensures
        (r.kind@, r.url@) == play_choice("episode"@, url@, (id + EPISODE_ID_OFFSET) as u64),
        r.ts@ == remux_location_spec((id + EPISODE_ID_OFFSET) as u64),
        r.direct@ == url@,
{
    play_info_for("episode", url, id + EPISODE_ID_OFFSET)
}

/// The `Referer` for fetching a logo: only `http`/`https` logo URLs are
/// proxied (`None` otherwise), and many CDNs hotlink-protect logos, so the
/// logo's own origin is sent.
pub open spec fn logo_referer_spec(u: Seq<char>) -> Option<Seq<char>> {
    if is_http_url_spec(u) {
        url_origin_of(u)
    } else {
        None
    }
}

/// The `Referer` to send for a logo URL, or `None` when the URL may not be
/// fetched.
pub fn logo_referer(u: &str) -> (r: Option<String>)
    ensures
        opt_chars(r) == logo_referer_spec(u@),
{
    if is_http_url(u) {
        url_origin(u)
    } else {
        None
    }
}

/// What the TV page's channel list asks the database for.
pub enum ChannelQuery {
    /// Live channels whose name contains `query`.
    Search { query: String, limit: i64 },
    /// The channels of a group.
    Group(i64),
    /// All live channels.
    All { limit: i64 },
}

/// The channel list query for `?group=&q=&limit=`: a search when `q` is
/// not blank, else the group when given, else everything; `limit`
/// defaults to 500.
pub fn channel_query(q: Option<String>, group: Option<i64>, limit: Option<i64>) -> (r: ChannelQuery)
    ensures
        ({
            let l = match limit {
                Some(l) => l,
                None => DEFAULT_CHANNEL_LIMIT,
            };
            match q {
                Some(s) if trim(s@).len() > 0 => r == ChannelQuery::Search { query: s, limit: l },
                _ => match group {
                    Some(g) => r == ChannelQuery::Group(g),
                    None => r == ChannelQuery::All { limit: l },
                },
            }
        }),
{
    let l = match limit {
        Some(l) => l,
        None => DEFAULT_CHANNEL_LIMIT,
    };
    match q {
        Some(s) => {
            let t = trim_str(s.as_str());
            if !t.as_str().is_empty() {
                return ChannelQuery::Search { query: s, limit: l };
            }
        },
        None => {},
    }
    match group {
        Some(g) => ChannelQuery::Group(g),
        None => ChannelQuery::All { limit: l },
    }
}

/// How a stream plays, from its row kind and upstream URL. A URL holding
/// `.m3u8` (in any case) goes through the HLS proxy. Otherwise a VOD movie
/// or episode plays as a native file through the byte proxy exactly when
/// the lowercased extension of its URL's path (the text after the last
/// `.`; the whole URL when it does not parse) is `mp4`, `m4v`, `webm`,
/// `mov`, `ogv`, `ogg`, `mp3`, `aac` or `m4a`; every other stream is probed
/// (`&probe=1`) and remuxed by ffmpeg when it is not HLS.
pub proof fn lemma_play_choice_table(kind: Seq<char>, url: Seq<char>, id: u64)
    ensures
        ({
            let proxy = proxied_spec(url, id);
            let path = match url_path_of(url) {
                Some(p) => p,
                None => url,
            };
            let ext = lowercase(after_last_dot(path));
            let native = ext == seq!['m', 'p', '4'] || ext == seq!['m', '4', 'v'] || ext == seq![
                'w',
                'e',
                'b',
                'm',
            ] || ext == seq!['m', 'o', 'v'] || ext == seq!['o', 'g', 'v'] || ext == seq!['o', 'g', 'g']
                || ext == seq!['m', 'p', '3'] || ext == seq!['a', 'a', 'c'] || ext == seq![
                'm',
                '4',
                'a',
            ];
            let file_kind = kind == seq!['v', 'o', 'd'] || kind == seq!['e', 'p', 'i', 's', 'o', 'd', 'e'];
            let hls = contains_seq(lowercase(url), seq!['.', 'm', '3', 'u', '8']);
            &&& hls ==> play_choice(kind, url, id) == (seq!['h', 'l', 's'], proxy)
            &&& !hls && file_kind && native ==> play_choice(kind, url, id) == (seq!['f', 'i', 'l', 'e'], proxy)
            &&& !hls && !(file_kind && native) ==> play_choice(kind, url, id) == (
                seq!['t', 's'],
                proxy + seq!['&', 'p', 'r', 'o', 'b', 'e', '=', '1'],
            )
        }),
{
    reveal_strlit("hls");
    reveal_strlit("file");
    reveal_strlit("ts");
    reveal_strlit("&probe=1");
    reveal_strlit("vod");
    reveal_strlit("episode");
    reveal_strlit("mp4");
    reveal_strlit("m4v");
    reveal_strlit("webm");
    reveal_strlit("mov");
    reveal_strlit("ogv");
    reveal_strlit("ogg");
    reveal_strlit("mp3");
    reveal_strlit("aac");
    reveal_strlit("m4a");
    assert("hls"@ =~= seq!['h', 'l', 's']);
    assert("file"@ =~= seq!['f', 'i', 'l', 'e']);
    assert("ts"@ =~= seq!['t', 's']);
    assert("&probe=1"@ =~= seq!['&', 'p', 'r', 'o', 'b', 'e', '=', '1']);
    assert("vod"@ =~= seq!['v', 'o', 'd']);
    assert("episode"@ =~= seq!['e', 'p', 'i', 's', 'o', 'd', 'e']);
    assert("mp4"@ =~= seq!['m', 'p', '4']);
    assert("m4v"@ =~= seq!['m', '4', 'v']);
    assert("webm"@ =~= seq!['w', 'e', 'b', 'm']);
    assert("mov"@ =~= seq!['m', 'o', 'v']);
    assert("ogv"@ =~= seq!['o', 'g', 'v']);
    assert("ogg"@ =~= seq!['o', 'g', 'g']);
    assert("mp3"@ =~= seq!['m', 'p', '3']);
    assert("aac"@ =~= seq!['a', 'a', 'c']);
    assert("m4a"@ =~= seq!['m', '4', 'a']);
}

} // verus!
