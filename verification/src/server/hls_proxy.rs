//! Smart HLS passthrough proxy: playlist rewriting and the decisions of the
//! `/proxy/hls/{id}` handler.
//!
//! Every URI inside a fetched playlist is rewritten so that it resolves
//! through this same-origin proxy (`/proxy/hls/{id}?u=<urlencoded absolute
//! url>`), so the player only ever talks to our origin.
use vstd::prelude::*;

use crate::m3u::{lemma_line_end, lemma_quote_from, line_end, quote_from};
use crate::text::{
    chars_of, contains_chars, contains_seq, ends_with_chars, ends_with_seq, has_prefix_at,
    lowercase, nat_decimal, occurs_at, push_char, push_range, push_u64, str_eq, string_of, to_lowercase,
    trim, trim_range,
};
use crate::urls::{form_encoded, form_urlencode, join_url, joined_url, url_scheme, url_scheme_of};

verus! {

broadcast use vstd::string::group_string_axioms;

/// Query of `/proxy/hls/{id}`.
pub struct HlsQuery {
    pub u: String,
    /// `probe=1` (set only on the initial channel request, never on
    /// recursed segment/playlist fetches): if the upstream is NOT an HLS
    /// playlist, redirect to the ffmpeg remuxer instead of streaming the
    /// binary through.
    pub probe: Option<String>,
}

/// `/proxy/hls/{id}?u={url, form-urlencoded}`.
pub open spec fn proxied_spec(url: Seq<char>, id: u64) -> Seq<char> {
    "/proxy/hls/"@ + nat_decimal(id as nat) + "?u="@ + form_encoded(vstd::utf8::encode_utf8(url))
}

/// Emits the same-origin proxy URL for an absolute upstream URL.
pub fn proxied(url: &str, id: u64) -> (r: String)
    ensures
        r@ == proxied_spec(url@, id),
{
    let mut s = String::from_str("/proxy/hls/");
    push_u64(&mut s, id);
    s.append("?u=");
    let enc = form_urlencode(url);
    s.append(enc.as_str());
    s
}

/// A reference resolved against the playlist's URL, or kept as it is
/// when that fails.
pub open spec fn resolve(base: Seq<char>, v: Seq<char>) -> Seq<char> {
    match joined_url(base, v) {
        Some(u) => u,
        None => v,
    }
}

/// Executable [`resolve`].
fn resolve_ref(base: &str, v: String) -> (r: String)
    ensures
        r@ == resolve(base@, v@),
{
    match join_url(base, v.as_str()) {
        Some(u) => u,
        None => v,
    }
}

/// `URI="`, the start of a URI attribute.
pub open spec fn uri_tag() -> Seq<char> {
    seq!['U', 'R', 'I', '=', '"']
}

/// The first position at or after `i` where `URI="` occurs (the length when
/// none does).
pub open spec fn find_uri(s: Seq<char>, i: int) -> int
    decreases s.len() - i,
{
    if i < 0 || i >= s.len() {
        s.len() as int
    } else if occurs_at(s, uri_tag(), i) {
        i
    } else {
        find_uri(s, i + 1)
    }
}

/// [`find_uri`] is the first occurrence at or after `i`.
pub proof fn lemma_find_uri(s: Seq<char>, i: int)
    requires
        0 <= i <= s.len(),
    ensures
        i <= find_uri(s, i) <= s.len(),
        find_uri(s, i) < s.len() ==> occurs_at(s, uri_tag(), find_uri(s, i)),
        forall|k: int| i <= k < find_uri(s, i) ==> !occurs_at(s, uri_tag(), k),
    decreases s.len() - i,
{
    if i < s.len() && !occurs_at(s, uri_tag(), i) {
        lemma_find_uri(s, i + 1);
    }
}

/// `s[i..]` with the value of every `URI="..."` attribute replaced by its
/// proxied absolute URL; an unterminated attribute is kept verbatim.
pub open spec fn rewrite_uris(s: Seq<char>, i: int, base: Seq<char>, id: u64) -> Seq<char>
    decreases s.len() - i,
{
    if i < 0 || i > s.len() {
        Seq::empty()
    } else {
        proof {
            lemma_find_uri(s, i);
        }
        let pos = find_uri(s, i);
        if pos >= s.len() {
            s.subrange(i, s.len() as int)
        } else {
            let v0 = pos + 5;
            proof {
                lemma_quote_from(s, v0);
            }
            let end = quote_from(s, v0);
            if end < s.len() {
                s.subrange(i, v0) + proxied_spec(resolve(base, s.subrange(v0, end)), id)
                    + rewrite_uris(s, end, base, id)
            } else {
                s.subrange(i, s.len() as int)
            }
        }
    }
}

/// One playlist line, rewritten. Lines with `URI="..."` attributes get each
/// of them rewritten in place; tags, comments and blank lines pass through;
/// any other line is a URI, replaced by its proxied absolute URL.
pub open spec fn rewrite_line_spec(line: Seq<char>, base: Seq<char>, id: u64) -> Seq<char> {
    if find_uri(line, 0) < line.len() {
        rewrite_uris(line, 0, base, id)
    } else {
        let t = trim(line);
        if t.len() == 0 || t[0] == '#' {
            line
        } else {
            proxied_spec(resolve(base, t), id)
        }
    }
}

/// The lines of `t` from position `p` (split at every `\n`), each
/// rewritten, joined again with `\n`.
pub open spec fn rewrite_from(t: Seq<char>, p: int, base: Seq<char>, id: u64) -> Seq<char>
    decreases t.len() - p,
{
    if p < 0 || p > t.len() {
        Seq::empty()
    } else {
        proof {
            lemma_line_end(t, p);
        }
        let j = line_end(t, p);
        let head = rewrite_line_spec(t.subrange(p, j), base, id);
        if j < t.len() {
            head + seq!['\n'] + rewrite_from(t, j + 1, base, id)
        } else {
            head
        }
    }
}

/// Position of the first `URI="` at or after `i`.
fn find_uri_exec(s: &Vec<char>, i: usize) -> (r: usize)
    requires
        i <= s@.len(),
    ensures
        r == find_uri(s@, i as int),
{
    let mut k = i;
    while k < s.len()
        invariant
            i <= k <= s@.len(),
            find_uri(s@, i as int) == find_uri(s@, k as int),
        decreases s.len() - k,
    {
        if has_prefix_at(s, k, &['U', 'R', 'I', '=', '"']) {
            return k;
        }
        k = k + 1;
    }
    k
}

/// Rewrites every `URI="..."` attribute of a line.
fn rewrite_uri_attrs(line: &Vec<char>, base: &str, id: u64) -> (r: String)
    ensures
        r@ == rewrite_uris(line@, 0, base@, id),
{
    let mut out = String::new();
    let mut i: usize = 0;
    loop
        invariant_except_break
            0 <= i <= line@.len(),
            out@ + rewrite_uris(line@, i as int, base@, id) == rewrite_uris(line@, 0, base@, id),
        ensures
            out@ == rewrite_uris(line@, 0, base@, id),
        decreases line@.len() - i,
    {
        proof {
            lemma_find_uri(line@, i as int);
        }
        let pos = find_uri_exec(line, i);
        if pos >= line.len() {
            let ghost before = out@;
            push_range(&mut out, line, i, line.len());
            assert(out@ =~= before + rewrite_uris(line@, i as int, base@, id));
            break ;
        }
        let v0 = pos + 5;
        proof {
            lemma_quote_from(line@, v0 as int);
        }
        let mut end = v0;
        while end < line.len() && line[end] != '"'
            invariant
                v0 <= end <= line@.len(),
                quote_from(line@, v0 as int) == quote_from(line@, end as int),
            decreases line.len() - end,
        {
            end = end + 1;
        }
        let ghost before = out@;
        if end >= line.len() {
            push_range(&mut out, line, i, line.len());
            assert(out@ =~= before + rewrite_uris(line@, i as int, base@, id));
            break ;
        }
        push_range(&mut out, line, i, v0);
        let value = string_of(line, v0, end);
        let absolute = resolve_ref(base, value);
        let p = proxied(absolute.as_str(), id);
        out.append(p.as_str());
        assert(before + rewrite_uris(line@, i as int, base@, id) =~= out@ + rewrite_uris(
            line@,
            end as int,
            base@,
            id,
        ));
        i = end;
    }
    out
}

/// Rewrites one playlist line (see [`rewrite_line_spec`]).
pub fn rewrite_line(line: &Vec<char>, base: &str, id: u64) -> (r: String)
    ensures
        r@ == rewrite_line_spec(line@, base@, id),
{
    if find_uri_exec(line, 0) < line.len() {
        return rewrite_uri_attrs(line, base, id);
    }
    let (a, b) = trim_range(line, 0, line.len());
    assert(line@.subrange(0, line@.len() as int) == line@);
    if a == b || line[a] == '#' {
        let mut s = String::new();
        push_range(&mut s, line, 0, line.len());
        assert(s@ =~= line@);
        s
    } else {
        let t = string_of(line, a, b);
        let absolute = resolve_ref(base, t);
        proxied(absolute.as_str(), id)
    }
}

/// Rewrites every URI in an HLS playlist so all media references resolve
/// through our same-origin proxy. `base` is the absolute URL the playlist
/// was fetched from (its serialization); references are resolved against it
/// with `Url::join`.
pub fn rewrite_playlist(text: &str, base: &str, id: u64) -> (r: String)
    ensures
        r@ == rewrite_from(text@, 0, base@, id),
{
    let t = chars_of(text);
    let mut out = String::new();
    let mut p: usize = 0;
    loop
        invariant_except_break
            0 <= p <= t@.len(),
            t@ == text@,
            out@ + rewrite_from(t@, p as int, base@, id) == rewrite_from(t@, 0, base@, id),
        ensures
            out@ == rewrite_from(t@, 0, base@, id),
        decreases t@.len() - p,
    {
        proof {
            lemma_line_end(t@, p as int);
        }
        let mut j = p;
        while j < t.len() && t[j] != '\n'
            invariant
                p <= j <= t@.len(),
                line_end(t@, p as int) == line_end(t@, j as int),
            decreases t.len() - j,
        {
            j = j + 1;
        }
        let mut line: Vec<char> = Vec::new();
        let mut k = p;
        while k < j
            invariant
                p <= k <= j <= t@.len(),
                line@ == t@.subrange(p as int, k as int),
            decreases j - k,
        {
            line.push(t[k]);
            assert(t@.subrange(p as int, k + 1) == t@.subrange(p as int, k as int).push(t@[k as int]));
            k = k + 1;
        }
        let ghost before = out@;
        let r = rewrite_line(&line, base, id);
        out.append(r.as_str());
        if j < t.len() {
            push_char(&mut out, '\n');
            assert(before + rewrite_from(t@, p as int, base@, id) =~= out@ + rewrite_from(
                t@,
                j + 1,
                base@,
                id,
            ));
            p = j + 1;
        } else {
            assert(out@ =~= before + rewrite_from(t@, p as int, base@, id));
            break ;
        }
    }
    out
}

/// `true` iff the `probe` query parameter is exactly `1`.
pub fn probe_requested(probe: &Option<String>) -> (r: bool)
    ensures
        r == (match probe {
            Some(p) => p@ == "1"@,
            None => false,
        }),
{
    match probe {
        Some(p) => str_eq(p.as_str(), "1"),
        None => false,
    }
}

/// How long, in milliseconds, a probe's finding that a channel's URL is not
/// HLS is trusted: the player asks for the same probe URL on every playlist
/// refresh, and each probe opens (and abandons) an upstream connection.
pub const PROBE_CACHE_TTL_MS: u64 = 120000;

/// A probe request skips the upstream and goes straight to the remuxer when
/// a probe of the same channel found a non-HLS stream less than
/// [`PROBE_CACHE_TTL_MS`] ago (`found_ago_ms`, when one did).
pub fn probe_cached(probe: bool, found_ago_ms: Option<u64>) -> (r: bool)
    ensures
        r == (probe && match found_ago_ms {
            Some(a) => a < PROBE_CACHE_TTL_MS,
            None => false,
        }),
{
    if !probe {
        return false;
    }
    match found_ago_ms {
        Some(a) => a < PROBE_CACHE_TTL_MS,
        None => false,
    }
}

/// Only `http` and `https` URLs may be fetched upstream.
pub open spec fn is_http_url_spec(u: Seq<char>) -> bool {
    url_scheme_of(u) == Some("http"@) || url_scheme_of(u) == Some("https"@)
}

/// `true` iff `u` parses as an `http` or `https` URL.
pub fn is_http_url(u: &str) -> (r: bool)
    ensures
        r == is_http_url_spec(u@),
{
    match url_scheme(u) {
        Some(s) => str_eq(s.as_str(), "http") || str_eq(s.as_str(), "https"),
        None => false,
    }
}

/// A response is a playlist by its headers when its content type mentions
/// `mpegurl` or its final URL's path ends with `.m3u8` (both compared
/// lowercased).
pub open spec fn playlist_by_headers_spec(content_type: Option<Seq<char>>, path: Seq<char>) -> bool {
    (match content_type {
        Some(ct) => contains_seq(lowercase(ct), seq!['m', 'p', 'e', 'g', 'u', 'r', 'l']),
        None => false,
    }) || ends_with_seq(lowercase(path), seq!['.', 'm', '3', 'u', '8'])
}

/// Whether the upstream response headers identify an HLS playlist.
pub fn playlist_by_headers(content_type: Option<&str>, path: &str) -> (r: bool)
    ensures
        r == playlist_by_headers_spec(
            match content_type {
                Some(c) => Some(c@),
                None => None,
            },
            path@,
        ),
{
    let by_type = match content_type {
        Some(ct) => {
            let l = to_lowercase(ct);
            contains_chars(&chars_of(l.as_str()), &['m', 'p', 'e', 'g', 'u', 'r', 'l'])
        },
        None => false,
    };
    if by_type {
        return true;
    }
    let lp = to_lowercase(path);
    ends_with_chars(&chars_of(lp.as_str()), &['.', 'm', '3', 'u', '8'])
}

/// Whether the first bytes of a body mark an HLS playlist (`#EXTM3U`).
pub fn playlist_by_body(first: &[u8]) -> (r: bool)
    ensures
        r == (first@.len() >= 7 && first@.take(7) == seq![
            0x23u8,
            0x45u8,
            0x58u8,
            0x54u8,
            0x4du8,
            0x33u8,
            0x55u8,
        ]),
{
    let tag: [u8; 7] = [0x23, 0x45, 0x58, 0x54, 0x4d, 0x33, 0x55];
    if first.len() < 7 {
        return false;
    }
    let mut k: usize = 0;
    while k < 7
        invariant
            first@.len() >= 7,
            tag@ == seq![0x23u8, 0x45u8, 0x58u8, 0x54u8, 0x4du8, 0x33u8, 0x55u8],
            0 <= k <= 7,
            forall|m: int| 0 <= m < k ==> first@[m] == tag@[m],
        decreases 7 - k,
    {
        if first[k] != tag[k] {
            assert(first@.take(7)[k as int] != tag@[k as int]);
            return false;
        }
        k = k + 1;
    }
    assert(first@.take(7) =~= tag@);
    true
}

/// `/stream/ts/{id}/index.m3u8`: where a non-HLS stream is remuxed.
pub open spec fn remux_location_spec(id: u64) -> Seq<char> {
    "/stream/ts/"@ + nat_decimal(id as nat) + "/index.m3u8"@
}

/// The ffmpeg remuxer's playlist path for this namespace id.
pub fn remux_location(id: u64) -> (r: String)
    ensures
        r@ == remux_location_spec(id),
{
    let mut s = String::from_str("/stream/ts/");
    push_u64(&mut s, id);
    s.append("/index.m3u8");
    s
}

} // verus!

verus! {

// ---------------------------------------------------------------------
// Line structure
// ---------------------------------------------------------------------

/// The number of `\n` in `s`.
pub open spec fn count_newlines(s: Seq<char>) -> nat
    decreases s.len(),
{
    if s.len() == 0 {
        0
    } else {
        count_newlines(s.drop_last()) + if s.last() == '\n' {
            1nat
        } else {
            0nat
        }
    }
}

/// `s` holds no `\n`.
pub open spec fn one_line(s: Seq<char>) -> bool {
    forall|i: int| 0 <= i < s.len() ==> #[trigger] s[i] != '\n'
}

proof fn lemma_count_concat(a: Seq<char>, b: Seq<char>)
    ensures
        count_newlines(a + b) == count_newlines(a) + count_newlines(b),
    decreases b.len(),
{
    if b.len() == 0 {
        assert(a + b =~= a);
    } else {
        assert((a + b).drop_last() =~= a + b.drop_last());
        lemma_count_concat(a, b.drop_last());
    }
}

proof fn lemma_one_line_count(s: Seq<char>)
    requires
        one_line(s),
    ensures
        count_newlines(s) == 0,
    decreases s.len(),
{
    if s.len() > 0 {
        lemma_one_line_count(s.drop_last());
    }
}

proof fn lemma_one_line_concat(a: Seq<char>, b: Seq<char>)
    requires
        one_line(a),
        one_line(b),
    ensures
        one_line(a + b),
{
    assert forall|i: int| 0 <= i < (a + b).len() implies #[trigger] (a + b)[i] != '\n' by {
        if i < a.len() {
            assert((a + b)[i] == a[i]);
        } else {
            assert((a + b)[i] == b[i - a.len()]);
        }
    }
}

proof fn lemma_decimal_one_line(n: nat)
    ensures
        one_line(nat_decimal(n)),
    decreases n,
{
    if n >= 10 {
        lemma_decimal_one_line(n / 10);
        lemma_one_line_concat(nat_decimal(n / 10), seq![crate::text::digit_char(n % 10)]);
        assert(nat_decimal(n / 10).push(crate::text::digit_char(n % 10)) =~= nat_decimal(n / 10) + seq![
            crate::text::digit_char(n % 10),
        ]);
    }
}

proof fn lemma_form_encoded_one_line(bytes: Seq<u8>)
    ensures
        one_line(form_encoded(bytes)),
    decreases bytes.len(),
{
    if bytes.len() > 0 {
        lemma_form_encoded_one_line(bytes.drop_last());
        let b = bytes.last();
        assert(one_line(crate::urls::form_byte(b))) by {
            assert(b / 16 < 16 && b % 16 < 16);
        }
        lemma_one_line_concat(form_encoded(bytes.drop_last()), crate::urls::form_byte(b));
    }
}

proof fn lemma_proxied_one_line(url: Seq<char>, id: u64)
    ensures
        one_line(proxied_spec(url, id)),
{
    reveal_strlit("/proxy/hls/");
    reveal_strlit("?u=");
    lemma_decimal_one_line(id as nat);
    lemma_form_encoded_one_line(vstd::utf8::encode_utf8(url));
    let a = "/proxy/hls/"@;
    let b = nat_decimal(id as nat);
    let c = "?u="@;
    let d = form_encoded(vstd::utf8::encode_utf8(url));
    assert(one_line(a));
    assert(one_line(c));
    lemma_one_line_concat(a, b);
    lemma_one_line_concat(a + b, c);
    lemma_one_line_concat(a + b + c, d);
}

proof fn lemma_rewrite_uris_one_line(s: Seq<char>, i: int, base: Seq<char>, id: u64)
    requires
        one_line(s),
        0 <= i <= s.len(),
    ensures
        one_line(rewrite_uris(s, i, base, id)),
    decreases s.len() - i,
{
    lemma_find_uri(s, i);
    let pos = find_uri(s, i);
    if pos < s.len() {
        let v0 = pos + 5;
        lemma_quote_from(s, v0);
        let end = quote_from(s, v0);
        if end < s.len() {
            lemma_rewrite_uris_one_line(s, end, base, id);
            lemma_proxied_one_line(resolve(base, s.subrange(v0, end)), id);
            lemma_one_line_concat(s.subrange(i, v0), proxied_spec(resolve(base, s.subrange(v0, end)), id));
            lemma_one_line_concat(
                s.subrange(i, v0) + proxied_spec(resolve(base, s.subrange(v0, end)), id),
                rewrite_uris(s, end, base, id),
            );
        }
    }
}

proof fn lemma_rewrite_line_one_line(line: Seq<char>, base: Seq<char>, id: u64)
    requires
        one_line(line),
    ensures
        one_line(rewrite_line_spec(line, base, id)),
{
    if find_uri(line, 0) < line.len() {
        lemma_rewrite_uris_one_line(line, 0, base, id);
    } else {
        lemma_proxied_one_line(resolve(base, trim(line)), id);
    }
}

proof fn lemma_rewrite_from_count(t: Seq<char>, p: int, base: Seq<char>, id: u64)
    requires
        0 <= p <= t.len(),
    ensures
        count_newlines(rewrite_from(t, p, base, id)) == count_newlines(t.subrange(p, t.len() as int)),
    decreases t.len() - p,
{
    lemma_line_end(t, p);
    let j = line_end(t, p);
    let line = t.subrange(p, j);
    assert(one_line(line));
    lemma_rewrite_line_one_line(line, base, id);
    lemma_one_line_count(rewrite_line_spec(line, base, id));
    lemma_one_line_count(line);
    if j < t.len() {
        lemma_rewrite_from_count(t, j + 1, base, id);
        let head = rewrite_line_spec(line, base, id);
        lemma_count_concat(head, seq!['\n']);
        lemma_count_concat(head + seq!['\n'], rewrite_from(t, j + 1, base, id));
        assert(t.subrange(p, t.len() as int) =~= line + seq!['\n'] + t.subrange(j + 1, t.len() as int));
        lemma_count_concat(line, seq!['\n']);
        lemma_count_concat(line + seq!['\n'], t.subrange(j + 1, t.len() as int));
        assert(count_newlines(seq!['\n']) == 1) by {
            let one = seq!['\n'];
            assert(one.drop_last() =~= Seq::<char>::empty());
            assert(count_newlines(Seq::<char>::empty()) == 0);
            assert(one.last() == '\n');
        }
    } else {
        assert(t.subrange(p, t.len() as int) =~= line);
    }
}

/// Rewriting keeps the playlist's line structure: the result has exactly
/// as many line breaks as the fetched playlist, each line becoming one line.
pub proof fn lemma_rewrite_keeps_lines(t: Seq<char>, base: Seq<char>, id: u64)
    ensures
        count_newlines(rewrite_from(t, 0, base, id)) == count_newlines(t),
{
    lemma_rewrite_from_count(t, 0, base, id);
    assert(t.subrange(0, t.len() as int) =~= t);
}

/// A playlist line without a `URI="` attribute: a blank line, a tag or a
/// comment passes through unchanged, and any other line is a URI, replaced
/// by `/proxy/hls/{id}?u=` and the form-encoded UTF-8 of that URI (trimmed)
/// resolved against the playlist's URL.
pub proof fn lemma_uri_lines_go_through_the_proxy(line: Seq<char>, base: Seq<char>, id: u64)
    requires
        forall|i: int| !occurs_at(line, seq!['U', 'R', 'I', '=', '"'], i),
    ensures
        trim(line).len() == 0 || trim(line)[0] == '#' ==> rewrite_line_spec(line, base, id) == line,
        trim(line).len() > 0 && trim(line)[0] != '#' ==> rewrite_line_spec(line, base, id)
            == seq!['/', 'p', 'r', 'o', 'x', 'y', '/', 'h', 'l', 's', '/'] + nat_decimal(id as nat)
            + seq!['?', 'u', '='] + form_encoded(
            vstd::utf8::encode_utf8(
                match joined_url(base, trim(line)) {
                    Some(u) => u,
                    None => trim(line),
                },
            ),
        ),
{
    lemma_find_uri(line, 0);
    assert(uri_tag() == seq!['U', 'R', 'I', '=', '"']);
    reveal_strlit("/proxy/hls/");
    reveal_strlit("?u=");
    assert("/proxy/hls/"@ =~= seq!['/', 'p', 'r', 'o', 'x', 'y', '/', 'h', 'l', 's', '/']);
    assert("?u="@ =~= seq!['?', 'u', '=']);
}

} // verus!
