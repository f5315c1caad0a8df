//! The decisions of the frontend commands: playlist naming, the LAN
//! server preferences, assembling an Xtream import and the lazy series
//! episode fetch.
use vstd::prelude::*;

use crate::db::{Channel, Episode, NewChannel, NewChannelView};
use crate::server::{host_spec, server_info, server_url_spec, ServerInfo};
use crate::m3u::opt_chars;
use crate::text::{
    chars_of, has_prefix_at, int_decimal, is_whitespace, is_ws, lemma_parse_i64_decimal,
    lemma_parse_u16_decimal, nat_decimal, owned, parse_i64, parse_i64_spec, parse_u16,
    parse_u16_spec, push_u64, str_eq, string_of, trim, trim_str,
};
use crate::urls::{url_host, url_host_of};
use crate::xtream::{RawEpisode, XtreamChannel, XtreamItem};

verus! {

broadcast use vstd::string::group_string_axioms;

/// `p` is a prefix of `s`.
pub open spec fn has_prefix(s: Seq<char>, p: Seq<char>) -> bool {
    p.len() <= s.len() && s.take(p.len() as int) == p
}

/// `http://`.
pub open spec fn http_scheme() -> Seq<char> {
    seq!['h', 't', 't', 'p', ':', '/', '/']
}

/// `https://`.
pub open spec fn https_scheme() -> Seq<char> {
    seq!['h', 't', 't', 'p', 's', ':', '/', '/']
}

/// A playlist source is remote when it starts with `http://` or
/// `https://`.
pub open spec fn is_remote_spec(source: Seq<char>) -> bool {
    has_prefix(source, http_scheme()) || has_prefix(source, https_scheme())
}

/// Executable [`is_remote_spec`].
pub fn is_remote_source(source: &str) -> (r: bool)
    ensures
        r == is_remote_spec(source@),
{
    let v = chars_of(source);
    let a = has_prefix_at(&v, 0, &['h', 't', 't', 'p', ':', '/', '/']);
    let b = has_prefix_at(&v, 0, &['h', 't', 't', 'p', 's', ':', '/', '/']);
    assert(v@.subrange(0, 7) == v@.take(7) || v@.len() < 7);
    assert(v@.subrange(0, 8) == v@.take(8) || v@.len() < 8);
    a || b
}

/// A path every platform reads the same way: `/` separates its pieces,
/// and it holds no `\` or `:` and does not start with `//` (no Windows
/// separator, drive or share prefix).
pub open spec fn plain_path(p: Seq<char>) -> bool {
    &&& forall|i: int| 0 <= i < p.len() ==> #[trigger] p[i] != '\\' && p[i] != ':'
    &&& !(p.len() >= 2 && p[0] == '/' && p[1] == '/')
}

/// Where the piece of `p[0..j]` after its last `/` starts.
pub open spec fn piece_start(p: Seq<char>, j: int) -> int
    decreases j,
{
    if j <= 0 {
        0
    } else if p[j - 1] == '/' {
        j
    } else {
        piece_start(p, j - 1)
    }
}

/// [`piece_start`] lies in `0..=j` and no `/` follows it before `j`.
pub proof fn lemma_piece_start(p: Seq<char>, j: int)
    requires
        0 <= j <= p.len(),
    ensures
        0 <= piece_start(p, j) <= j,
        piece_start(p, j) > 0 ==> p[piece_start(p, j) - 1] == '/',
        forall|k: int| piece_start(p, j) <= k < j ==> #[trigger] p[k] != '/',
    decreases j,
{
    if j > 0 && p[j - 1] != '/' {
        lemma_piece_start(p, j - 1);
    }
}

/// The last piece of `p[0..j]` that is neither empty nor `.` (the pieces a
/// path's components keep), if any.
pub open spec fn last_piece(p: Seq<char>, j: int) -> Option<Seq<char>>
    decreases j,
{
    if j <= 0 || j > p.len() {
        None
    } else {
        proof {
            lemma_piece_start(p, j);
        }
        let s = piece_start(p, j);
        let piece = p.subrange(s, j);
        if piece.len() == 0 || piece == seq!['.'] {
            if s == 0 {
                None
            } else {
                last_piece(p, s - 1)
            }
        } else {
            Some(piece)
        }
    }
}

/// `Path::file_name` of a plain path: its last piece, unless that is `..`
/// or there is none.
pub open spec fn file_name_spec(p: Seq<char>) -> Option<Seq<char>> {
    match last_piece(p, p.len() as int) {
        Some(x) => if x == seq!['.', '.'] {
            None
        } else {
            Some(x)
        },
        None => None,
    }
}

/// `std::path::Path::file_name` of a local path, as UTF-8 text. Path syntax
/// differs between platforms; the contract claims the result only for a
/// plain path (see [`plain_path`]), as the std documentation fixes it: the
/// final component (empty and `.` components do not count), `None` when it
/// is `..` or there is none. For other paths it claims nothing.
#[verifier::external_body]
fn path_file_name(source: &str) -> (r: Option<String>)
    ensures
        plain_path(source@) ==> opt_chars(r) == file_name_spec(source@),
{
    std::path::Path::new(source).file_name().and_then(|s| s.to_str()).map(|s| s.to_owned())
}

/// The playlist name derived from a source: the URL's host for a remote
/// source (`remote playlist` without one), else the local file name
/// `file_name` (`local playlist` without one).
pub open spec fn playlist_name_spec(source: Seq<char>, file_name: Option<Seq<char>>) -> Seq<char> {
    if is_remote_spec(source) {
        match url_host_of(source) {
            Some(h) => h,
            None => "remote playlist"@,
        }
    } else {
        match file_name {
            Some(n) => n,
            None => "local playlist"@,
        }
    }
}

/// Derives a playlist name from a source, given the file name the path
/// library reads from it.
pub fn playlist_name_from(source: &str, file_name: Option<String>) -> (r: String)
    ensures
        r@ == playlist_name_spec(source@, opt_chars(file_name)),
{
    if is_remote_source(source) {
        match url_host(source) {
            Some(h) => h,
            None => String::from_str("remote playlist"),
        }
    } else {
        match file_name {
            Some(n) => n,
            None => String::from_str("local playlist"),
        }
    }
}

/// Derive a playlist name from a URL host or a local file name.
pub fn derived_name(source: &str) -> (r: String)
    ensures
        is_remote_spec(source@) ==> r@ == playlist_name_spec(source@, None),
        !is_remote_spec(source@) && plain_path(source@) ==> r@ == playlist_name_spec(
            source@,
            file_name_spec(source@),
        ),
{
    if is_remote_source(source) {
        playlist_name_from(source, None)
    } else {
        playlist_name_from(source, path_file_name(source))
    }
}

/// A character that `{:?}` prints as itself inside a quoted text: printable
/// ASCII other than `"` and `\`.
pub open spec fn plain_debug_char(c: char) -> bool {
    ' ' <= c && c <= '~' && c != '"' && c != '\\'
}

/// What `{:?}` (`Debug`) prints for a text: quoted, with escapes.
pub uninterp spec fn debug_quoted(s: Seq<char>) -> Seq<char>;

/// `format!("{:?}", s)` from std. The contract claims that the result is
/// a function of the text, and that text of printable ASCII characters
/// other than `"` and `\` comes back between double quotes, unescaped.
#[verifier::external_body]
fn debug_str(s: &str) -> (r: String)
    ensures
        r@ == debug_quoted(s@),
        (forall|i: int|
            0 <= i < s@.len() ==> plain_debug_char(#[trigger] s@[i])) ==> r@ == seq!['"'] + s@
            + seq!['"'],
{
    format!("{:?}", s)
}

/// `s` without the prefix `p`, when it has it.
pub open spec fn strip(s: Seq<char>, p: Seq<char>) -> Seq<char> {
    if has_prefix(s, p) {
        s.skip(p.len() as int)
    } else {
        s
    }
}

/// The number of bytes of the UTF-8 encoding of one character.
pub open spec fn char_width(c: char) -> nat {
    if (c as u32) < 0x80 {
        1
    } else if (c as u32) < 0x800 {
        2
    } else if (c as u32) < 0x10000 {
        3
    } else {
        4
    }
}

/// `str::len`: the length of the UTF-8 encoding, in bytes.
pub open spec fn utf8_len(s: Seq<char>) -> nat
    decreases s.len(),
{
    if s.len() == 0 {
        0
    } else {
        utf8_len(s.drop_last()) + char_width(s.last())
    }
}

/// A character that may not appear in a host.
pub open spec fn bad_host_char(c: char) -> bool {
    is_ws(c) || c == '/' || c == ':'
}

/// The host preference the user typed, cleaned: trimmed, an `http://`
/// then an `https://` prefix removed.
pub open spec fn cleaned_host(ip: Seq<char>) -> Seq<char> {
    strip(strip(trim(ip), http_scheme()), https_scheme())
}

/// An empty cleaned host, or `auto`, clears the preference; otherwise a
/// cleaned host is refused when longer than 253 bytes or holding
/// whitespace, `/` or `:`.
pub open spec fn host_pref_spec(ip: Seq<char>) -> Result<Option<Seq<char>>, Seq<char>> {
    let c = cleaned_host(ip);
    if c.len() == 0 {
        Ok(None)
    } else if utf8_len(c) > 253 || (exists|i: int| 0 <= i < c.len() && bad_host_char(#[trigger] c[i])) {
        Err("invalid host: "@ + debug_quoted(ip))
    } else if c == seq!['a', 'u', 't', 'o'] {
        Ok(None)
    } else {
        Ok(Some(c))
    }
}

/// Sanitizes the host preference: allows a scheme accidentally pasted from
/// an address bar, but nothing else — it must end up as a bare host/IP (no
/// slashes, ports or whitespace). `Ok(None)` clears it: an empty host or
/// `auto`.
pub fn clean_host(ip: &str) -> (r: Result<Option<String>, String>)
    ensures
        match r {
            Ok(h) => host_pref_spec(ip@) == Ok::<Option<Seq<char>>, Seq<char>>(opt_chars(h)),
            Err(e) => host_pref_spec(ip@) == Err::<Option<Seq<char>>, Seq<char>>(e@),
        },
{
    let t = trim_str(ip);
    let v0 = chars_of(t.as_str());
    let s1 = if has_prefix_at(&v0, 0, &['h', 't', 't', 'p', ':', '/', '/']) {
        assert(v0@.subrange(0, 7) == v0@.take(7));
        assert(v0@.subrange(7, v0@.len() as int) == v0@.skip(7));
        string_of(&v0, 7, v0.len())
    } else {
        assert(v0@.len() >= 7 ==> v0@.subrange(0, 7) == v0@.take(7));
        assert(v0@.subrange(0, v0@.len() as int) == v0@);
        string_of(&v0, 0, v0.len())
    };
    let v1 = chars_of(s1.as_str());
    let cleaned = if has_prefix_at(&v1, 0, &['h', 't', 't', 'p', 's', ':', '/', '/']) {
        assert(v1@.subrange(0, 8) == v1@.take(8));
        assert(v1@.subrange(8, v1@.len() as int) == v1@.skip(8));
        string_of(&v1, 8, v1.len())
    } else {
        assert(v1@.len() >= 8 ==> v1@.subrange(0, 8) == v1@.take(8));
        assert(v1@.subrange(0, v1@.len() as int) == v1@);
        string_of(&v1, 0, v1.len())
    };
    let c = chars_of(cleaned.as_str());
    let mut bad = false;
    let mut bytes: u128 = 0;
    let mut i: usize = 0;
    while i < c.len()
        invariant
            0 <= i <= c@.len(),
            bad == (exists|k: int| 0 <= k < i && bad_host_char(#[trigger] c@[k])),
            bytes == utf8_len(c@.take(i as int)),
            bytes <= 4 * i,
        decreases c.len() - i,
    {
        let ch = c[i];
        assert(c@.take(i + 1).drop_last() =~= c@.take(i as int));
        let w: u128 = if (ch as u32) < 0x80 {
            1
        } else if (ch as u32) < 0x800 {
            2
        } else if (ch as u32) < 0x10000 {
            3
        } else {
            4
        };
        bytes = bytes + w;
        if is_whitespace(ch) || ch == '/' || ch == ':' {
            bad = true;
        }
        assert(bad == (exists|k: int| 0 <= k < i + 1 && bad_host_char(#[trigger] c@[k]))) by {
            if bad_host_char(c@[i as int]) {
            }
        }
        i = i + 1;
    }
    assert(c@.take(c@.len() as int) =~= c@);
    if c.len() == 0 {
        return Ok(None);
    }
    if bytes > 253 || bad {
        let mut m = String::from_str("invalid host: ");
        let d = debug_str(ip);
        m.append(d.as_str());
        return Err(m);
    }
    if c.len() == 4 && c[0] == 'a' && c[1] == 'u' && c[2] == 't' && c[3] == 'o' {
        assert(c@ =~= seq!['a', 'u', 't', 'o']);
        return Ok(None);
    }
    assert(c@ != seq!['a', 'u', 't', 'o']) by {
        if c@.len() == 4 {
            assert(c@[0] != 'a' || c@[1] != 'u' || c@[2] != 't' || c@[3] != 'o');
        }
    }
    Ok(Some(cleaned))
}

/// An accepted host preference is a bare host: the cleaned text, not
/// empty, at most 253 bytes, without whitespace, `/` or `:`, and not `auto`.
pub proof fn lemma_accepted_host_is_bare(ip: Seq<char>, h: Seq<char>)
    requires
        host_pref_spec(ip) == Ok::<Option<Seq<char>>, Seq<char>>(Some(h)),
    ensures
        h == cleaned_host(ip),
        h.len() > 0,
        utf8_len(h) <= 253,
        forall|i: int| 0 <= i < h.len() ==> !bad_host_char(#[trigger] h[i]),
        h != seq!['a', 'u', 't', 'o'],
{
}

/// The settings text stored for the server preferences: the host (empty
/// to clear it) and the port in decimal (empty to clear it).
pub open spec fn setting_values_spec(ip_override: Option<Seq<char>>, port: Option<u16>) -> (
    Seq<char>,
    Seq<char>,
) {
    (
        match ip_override {
            Some(ip) => ip,
            None => Seq::empty(),
        },
        match port {
            Some(p) => nat_decimal(p as nat),
            None => Seq::empty(),
        },
    )
}

/// The server preferences read back from the settings text: an empty host
/// means automatic, and the port is kept only when it parses as a `u16`.
pub open spec fn prefs_spec(ip_setting: Option<Seq<char>>, port_setting: Option<Seq<char>>) -> (
    Option<Seq<char>>,
    Option<u16>,
) {
    (
        match ip_setting {
            Some(ip) => if ip.len() > 0 {
                Some(ip)
            } else {
                None
            },
            None => None,
        },
        match port_setting {
            Some(p) => parse_u16_spec(p),
            None => None,
        },
    )
}

/// The values stored for the server preferences: the host (empty to clear
/// it) and the port in decimal (empty to clear it).
pub fn server_setting_values(ip_override: &Option<String>, port: Option<u16>) -> (r: (String, String))
    ensures
        (r.0@, r.1@) == setting_values_spec(opt_chars(*ip_override), port),
{
    let a = match ip_override {
        Some(ip) => ip.clone(),
        None => String::new(),
    };
    let b = match port {
        Some(p) => {
            let mut s = String::new();
            push_u64(&mut s, p as u64);
            s
        },
        None => String::new(),
    };
    (a, b)
}

/// The server preferences read back from the settings: an empty host
/// means automatic, and the port is kept only when it parses as a `u16`.
pub fn server_prefs(ip_setting: Option<String>, port_setting: Option<String>) -> (r: (
    Option<String>,
    Option<u16>,
))
    ensures
        (opt_chars(r.0), r.1) == prefs_spec(opt_chars(ip_setting), opt_chars(port_setting)),
{
    let ip = match ip_setting {
        Some(ip) => if ip.as_str().is_empty() {
            None
        } else {
            Some(ip)
        },
        None => None,
    };
    let port = match port_setting {
        Some(p) => parse_u16(p.as_str()),
        None => None,
    };
    (ip, port)
}

/// The server preferences are read back as they were stored: a host that
/// is not empty (as every accepted host is) and any port come back
/// unchanged, and a cleared preference comes back cleared.
pub proof fn lemma_server_prefs_round_trip(ip_override: Option<Seq<char>>, port: Option<u16>)
    requires
        ip_override matches Some(h) ==> h.len() > 0,
    ensures
        ({
            let (ip_text, port_text) = setting_values_spec(ip_override, port);
            prefs_spec(Some(ip_text), Some(port_text)) == (ip_override, port)
        }),
{
    if let Some(p) = port {
        lemma_parse_u16_decimal(p);
    }
}

/// The host preference as the user gave it, cleaned: `None` when none was
/// given, or when it clears the preference (empty or `auto`).
pub open spec fn cleaned_pref(ip_override: Option<Seq<char>>) -> Option<Seq<char>> {
    match ip_override {
        None => None,
        Some(ip) => match host_pref_spec(ip) {
            Ok(h) => h,
            Err(_) => None,
        },
    }
}

/// What setting the server preferences stores: the refusal of a bad host,
/// else the host text (empty to clear it) and the port text (empty to
/// clear it).
pub open spec fn pref_settings_spec(ip_override: Option<Seq<char>>, port: Option<u16>) -> Result<
    (Seq<char>, Seq<char>),
    Seq<char>,
> {
    match ip_override {
        None => Ok(setting_values_spec(None, port)),
        Some(ip) => match host_pref_spec(ip) {
            Ok(h) => Ok(setting_values_spec(h, port)),
            Err(e) => Err(e),
        },
    }
}

/// The settings to store for the LAN server preferences the user set: the
/// host is cleaned (a scheme pasted from an address bar is dropped; an
/// empty host or `auto` clears it; anything but a bare host is refused),
/// and the port is written in decimal (empty to clear it).
pub fn server_pref_settings(ip_override: Option<String>, port: Option<u16>) -> (r: Result<
    (String, String),
    String,
>)
    ensures
        match r {
            Ok((a, b)) => pref_settings_spec(opt_chars(ip_override), port) == Ok::<
                (Seq<char>, Seq<char>),
                Seq<char>,
            >((a@, b@)),
            Err(e) => pref_settings_spec(opt_chars(ip_override), port) == Err::<
                (Seq<char>, Seq<char>),
                Seq<char>,
            >(e@),
        },
{
    let host = match ip_override {
        Some(ip) => match clean_host(ip.as_str()) {
            Ok(h) => h,
            Err(e) => return Err(e),
        },
        None => None,
    };
    Ok(server_setting_values(&host, port))
}

/// The server info advertised from the stored settings: the preferences
/// read back from `ip_setting` and `port_setting`, the detected addresses
/// `ips` and the bound port (`None` until the server has started).
pub fn advertised_server_info(
    ips: Vec<String>,
    bound: Option<u16>,
    ip_setting: Option<String>,
    port_setting: Option<String>,
) -> (r: Result<ServerInfo, String>)
    ensures
        bound is None <==> r is Err,
        r matches Err(e) ==> e@ == "server not started"@,
        r matches Ok(info) ==> {
            let (ov, pp) = prefs_spec(opt_chars(ip_setting), opt_chars(port_setting));
            &&& info.port == bound->0
            &&& info.ips@ == ips@
            &&& info.host@ == host_spec(ips@, ov)
            &&& info.url@ == server_url_spec(info.host@, info.port)
            &&& opt_chars(info.ip_override) == ov
            &&& info.port_pref == pp
        },
{
    let (ov, pp) = server_prefs(ip_setting, port_setting);
    match ov {
        Some(h) => server_info(ips, bound, Some(h.as_str()), pp),
        None => server_info(ips, bound, None, pp),
    }
}

/// Setting the server preferences and reading them back: what is stored
/// for an accepted host and port is read back as the cleaned host (`None`
/// for none, an empty host or `auto`) and the port, so the server info
/// advertised afterwards (see [`advertised_server_info`]) carries exactly
/// these preferences.
pub proof fn lemma_set_server_prefs_read_back(ip_override: Option<Seq<char>>, port: Option<u16>)
    requires
        pref_settings_spec(ip_override, port) is Ok,
    ensures
        ({
            let (a, b) = pref_settings_spec(ip_override, port)->Ok_0;
            prefs_spec(Some(a), Some(b)) == (cleaned_pref(ip_override), port)
        }),
{
    let h = cleaned_pref(ip_override);
    if let Some(ip) = ip_override {
        if let Ok(Some(x)) = host_pref_spec(ip) {
            lemma_accepted_host_is_bare(ip, x);
        }
    }
    lemma_server_prefs_round_trip(h, port);
}

/// A copy of an optional string.
fn clone_opt(o: &Option<String>) -> (r: Option<String>)
    ensures
        opt_chars(r) == opt_chars(*o),
{
    match o {
        Some(s) => Some(s.clone()),
        None => None,
    }
}

/// The row an Xtream VOD or series item becomes.
pub open spec fn item_row(i: XtreamItem, kind: Seq<char>) -> NewChannelView {
    NewChannelView {
        name: i.name@,
        url: i.url@,
        logo_url: opt_chars(i.logo_url),
        tvg_id: None,
        tvg_chno: None,
        kind: kind,
        remote_id: opt_chars(i.remote_id),
        group: opt_chars(i.group),
    }
}

/// The row an Xtream live channel becomes.
pub open spec fn channel_row(c: XtreamChannel) -> NewChannelView {
    NewChannelView {
        name: c.name@,
        url: c.url@,
        logo_url: opt_chars(c.logo_url),
        tvg_id: None,
        tvg_chno: None,
        kind: "live"@,
        remote_id: None,
        group: opt_chars(c.group),
    }
}

/// Appends the rows for `items`, all of kind `kind`.
fn push_items(out: &mut Vec<NewChannel>, items: &Vec<XtreamItem>, kind: &str)
    ensures
        final(out)@.len() == old(out)@.len() + items@.len(),
        forall|k: int| 0 <= k < old(out)@.len() ==> #[trigger] final(out)@[k] == old(out)@[k],
        forall|k: int|
            0 <= k < items@.len() ==> (#[trigger] final(out)@[old(out)@.len() + k])@ == item_row(
                items@[k],
                kind@,
            ),
{
    let ghost start = out@;
    let mut i: usize = 0;
    while i < items.len()
        invariant
            0 <= i <= items@.len(),
            out@.len() == start.len() + i,
            forall|k: int| 0 <= k < start.len() ==> #[trigger] out@[k] == start[k],
            forall|k: int|
                0 <= k < i ==> (#[trigger] out@[start.len() + k])@ == item_row(items@[k], kind@),
        decreases items.len() - i,
    {
        let it = &items[i];
        out.push(
            NewChannel {
                name: it.name.clone(),
                url: it.url.clone(),
                logo_url: clone_opt(&it.logo_url),
                tvg_id: None,
                tvg_chno: None,
                kind: owned(kind),
                remote_id: clone_opt(&it.remote_id),
                group: clone_opt(&it.group),
            },
        );
        i = i + 1;
    }
}

/// Live channels, then VOD movies, then series, each as a row tagged with
/// its kind (`live`, `vod`, `series`).
pub fn xtream_import_items(
    channels: &Vec<XtreamChannel>,
    vod: &Vec<XtreamItem>,
    series: &Vec<XtreamItem>,
) -> (r: Vec<NewChannel>)
    ensures
        r@.len() == channels@.len() + vod@.len() + series@.len(),
        forall|k: int| 0 <= k < channels@.len() ==> (#[trigger] r@[k])@ == channel_row(channels@[k]),
        forall|k: int|
            0 <= k < vod@.len() ==> (#[trigger] r@[channels@.len() + k])@ == item_row(vod@[k], "vod"@),
        forall|k: int|
            0 <= k < series@.len() ==> (#[trigger] r@[channels@.len() + vod@.len() + k])@ == item_row(
                series@[k],
                "series"@,
            ),
{
    let mut out: Vec<NewChannel> = Vec::new();
    let mut i: usize = 0;
    while i < channels.len()
        invariant
            0 <= i <= channels@.len(),
            out@.len() == i,
            forall|k: int| 0 <= k < i ==> (#[trigger] out@[k])@ == channel_row(channels@[k]),
        decreases channels.len() - i,
    {
        let c = &channels[i];
        out.push(
            NewChannel {
                name: c.name.clone(),
                url: c.url.clone(),
                logo_url: clone_opt(&c.logo_url),
                tvg_id: None,
                tvg_chno: None,
                kind: String::from_str("live"),
                remote_id: None,
                group: clone_opt(&c.group),
            },
        );
        i = i + 1;
    }
    push_items(&mut out, vod, "vod");
    push_items(&mut out, series, "series");
    out
}

/// The name of an Xtream playlist: the given one, else the panel's host,
/// else `xtream`.
pub open spec fn xtream_name_spec(base: Seq<char>, name: Option<Seq<char>>) -> Seq<char> {
    match name {
        Some(n) => n,
        None => match url_host_of(base) {
            Some(h) => h,
            None => "xtream"@,
        },
    }
}

/// Names an Xtream playlist; `base` is the panel base without trailing
/// slashes.
pub fn xtream_playlist_name(base: &str, name: Option<String>) -> (r: String)
    ensures
        r@ == xtream_name_spec(base@, opt_chars(name)),
{
    match name {
        Some(n) => n,
        None => match url_host(base) {
            Some(h) => h,
            None => String::from_str("xtream"),
        },
    }
}

/// The panel endpoint kept as an Xtream playlist's source:
/// `{base}/player_api.php`.
pub fn xtream_source_url(base: &str) -> (r: String)
    ensures
        r@ == base@ + "/player_api.php"@,
{
    let mut s = owned(base);
    s.append("/player_api.php");
    s
}

/// The channel whose episodes are asked for: it must exist and be a
/// series.
pub fn series_channel(channel: Option<Channel>) -> (r: Result<Channel, String>)
    ensures
        match channel {
            None => r matches Err(e) && e@ == "channel not found"@,
            Some(c) => if c.kind@ == "series"@ {
                r == Ok::<Channel, String>(c)
            } else {
                r matches Err(e) && e@ == "not a series channel"@
            },
        },
{
    match channel {
        None => Err(String::from_str("channel not found")),
        Some(c) => {
            if str_eq(c.kind.as_str(), "series") {
                Ok(c)
            } else {
                Err(String::from_str("not a series channel"))
            }
        },
    }
}

/// The panel's series id, stored as the row's remote id.
pub fn series_remote_id(remote_id: &Option<String>) -> (r: Result<i64, String>)
    ensures
        match remote_id {
            Some(s) => match parse_i64_spec(s@) {
                Some(v) => r == Ok::<i64, String>(v),
                None => r matches Err(e) && e@ == "series id missing"@,
            },
            None => r matches Err(e) && e@ == "series id missing"@,
        },
{
    match remote_id {
        Some(s) => match parse_i64(s.as_str()) {
            Some(v) => Ok(v),
            None => Err(String::from_str("series id missing")),
        },
        None => Err(String::from_str("series id missing")),
    }
}

/// The remote id an Xtream import stores for a series (its id in decimal)
/// is read back as the same series id when its episodes are fetched.
pub proof fn lemma_series_id_round_trip(series_id: i64)
    ensures
        parse_i64_spec(int_decimal(series_id as int)) == Some(series_id),
{
    lemma_parse_i64_decimal(series_id);
}

/// Episode rows for a series channel from the fetched episodes (row ids
/// are assigned by the store).
pub fn episodes_from_raw(channel_id: i64, raw: &Vec<RawEpisode>) -> (r: Vec<Episode>)
    ensures
        r@.len() == raw@.len(),
        forall|k: int|
            0 <= k < raw@.len() ==> {
                let e = #[trigger] r@[k];
                let p = raw@[k];
                &&& e.id == 0
                &&& e.channel_id == channel_id
                &&& e.season == p.season
                &&& e.episode_num == p.episode_num
                &&& e.title@ == p.title@
                &&& e.url@ == p.url@
                &&& opt_chars(e.logo_url) == opt_chars(p.logo_url)
            },
{
    let mut out: Vec<Episode> = Vec::new();
    let mut i: usize = 0;
    while i < raw.len()
        invariant
            0 <= i <= raw@.len(),
            out@.len() == i,
            forall|k: int|
                0 <= k < i ==> {
                    let e = #[trigger] out@[k];
                    let p = raw@[k];
                    &&& e.id == 0
                    &&& e.channel_id == channel_id
                    &&& e.season == p.season
                    &&& e.episode_num == p.episode_num
                    &&& e.title@ == p.title@
                    &&& e.url@ == p.url@
                    &&& opt_chars(e.logo_url) == opt_chars(p.logo_url)
                },
        decreases raw.len() - i,
    {
        let p = &raw[i];
        out.push(
            Episode {
                id: 0,
                channel_id,
                season: p.season,
                episode_num: p.episode_num,
                title: p.title.clone(),
                url: p.url.clone(),
                logo_url: clone_opt(&p.logo_url),
            },
        );
        i = i + 1;
    }
    out
}

/// A row stored for an Xtream VOD movie or series keeps the item it came
/// from: its name, its stream URL (so the movie plays), its logo, group and
/// remote id, with the kind of its section and no tvg id or channel number.
pub proof fn lemma_item_rows_keep_items(i: XtreamItem, kind: Seq<char>)
    ensures
        item_row(i, kind).name == i.name@,
        item_row(i, kind).url == i.url@,
        item_row(i, kind).logo_url == opt_chars(i.logo_url),
        item_row(i, kind).group == opt_chars(i.group),
        item_row(i, kind).remote_id == opt_chars(i.remote_id),
        item_row(i, kind).kind == kind,
        item_row(i, kind).tvg_id is None,
        item_row(i, kind).tvg_chno is None,
{
}

/// A row stored for an Xtream live channel keeps its name, stream URL,
/// logo and group, is of kind `live`, and has no remote id, tvg id or
/// channel number.
pub proof fn lemma_live_rows_keep_channels(c: XtreamChannel)
    ensures
        channel_row(c).name == c.name@,
        channel_row(c).url == c.url@,
        channel_row(c).logo_url == opt_chars(c.logo_url),
        channel_row(c).group == opt_chars(c.group),
        channel_row(c).kind == seq!['l', 'i', 'v', 'e'],
        channel_row(c).remote_id is None,
        channel_row(c).tvg_id is None,
        channel_row(c).tvg_chno is None,
{
    reveal_strlit("live");
}

} // verus!
