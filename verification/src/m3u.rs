//! Streaming M3U/M3U8 IPTV channel-playlist parser.
//!
//! This parses *channel* playlists (`#EXTINF:` entries pointing at stream
//! URLs), not HLS media playlists. Every definition here is stated over the
//! characters of the decoded playlist, and the parser is proved to produce
//! exactly the channels those definitions describe.
use vstd::prelude::*;

use crate::text::{
    chars_of, has_prefix_at, lemma_trim_idempotent, lower_ascii_seq, parse_i64_range,
    parse_i64_spec, str_from_utf8, string_from_slice, string_of, to_ascii_lower, trim, trim_str,
    trimmed_string,
};

verus! {

broadcast use vstd::string::group_string_axioms;

/// A single channel parsed from the playlist, ready for DB import.
#[derive(Debug, Clone)]
pub struct ParsedChannel {
    pub name: String,
    pub url: String,
    pub logo_url: Option<String>,
    pub tvg_id: Option<String>,
    pub tvg_chno: Option<i64>,
    pub group: Option<String>,
}

/// The characters of an optional string.
pub open spec fn opt_chars(o: Option<String>) -> Option<Seq<char>> {
    match o {
        Some(s) => Some(s@),
        None => None,
    }
}

/// The model of a [`ParsedChannel`]: the characters of each field.
pub struct ChannelView {
    pub name: Seq<char>,
    pub url: Seq<char>,
    pub logo_url: Option<Seq<char>>,
    pub tvg_id: Option<Seq<char>>,
    pub tvg_chno: Option<i64>,
    pub group: Option<Seq<char>>,
}

impl View for ParsedChannel {
    type V = ChannelView;

    open spec fn view(&self) -> ChannelView {
        ChannelView {
            name: self.name@,
            url: self.url@,
            logo_url: opt_chars(self.logo_url),
            tvg_id: opt_chars(self.tvg_id),
            tvg_chno: self.tvg_chno,
            group: opt_chars(self.group),
        }
    }
}

// ---------------------------------------------------------------------
// The `key="value"` attribute grammar of an `#EXTINF` line
// ---------------------------------------------------------------------

/// Characters allowed in an attribute key: `[A-Za-z0-9_-]`.
pub open spec fn is_key_char(c: char) -> bool {
    ('A' <= c && c <= 'Z') || ('a' <= c && c <= 'z') || ('0' <= c && c <= '9') || c == '_' || c
        == '-'
}

/// End of the run of key characters that starts at `i`.
pub open spec fn key_end(a: Seq<char>, i: int) -> int
    decreases a.len() - i,
{
    if 0 <= i < a.len() && is_key_char(a[i]) {
        key_end(a, i + 1)
    } else {
        i
    }
}

/// The first `"` at or after `i` (or `i` itself when past the end).
pub open spec fn quote_from(a: Seq<char>, i: int) -> int
    decreases a.len() - i,
{
    if 0 <= i < a.len() && a[i] != '"' {
        quote_from(a, i + 1)
    } else {
        i
    }
}

/// Whether an attribute `key="value"` starts exactly at `i`, and if so the
/// end of its key (where `="` begins) and the index of its closing quote.
/// A key is a maximal run of key characters, and the value runs up to the
/// next `"`.
pub open spec fn attr_match_at(a: Seq<char>, i: int) -> Option<(int, int)> {
    if 0 <= i < a.len() && is_key_char(a[i]) {
        let j = key_end(a, i);
        if j + 1 < a.len() && a[j] == '=' && a[j + 1] == '"' {
            let k = quote_from(a, j + 2);
            if k < a.len() {
                Some((j, k))
            } else {
                None
            }
        } else {
            None
        }
    } else {
        None
    }
}

/// [`key_end`] ends a run of key characters.
pub proof fn lemma_key_end(a: Seq<char>, i: int)
    requires
        0 <= i <= a.len(),
    ensures
        i <= key_end(a, i) <= a.len(),
        forall|m: int| i <= m < key_end(a, i) ==> is_key_char(#[trigger] a[m]),
        key_end(a, i) < a.len() ==> !is_key_char(a[key_end(a, i)]),
    decreases a.len() - i,
{
    if i < a.len() && is_key_char(a[i]) {
        lemma_key_end(a, i + 1);
    }
}

/// [`quote_from`] is the first `"` at or after `i`.
pub proof fn lemma_quote_from(a: Seq<char>, i: int)
    requires
        0 <= i <= a.len(),
    ensures
        i <= quote_from(a, i) <= a.len(),
        forall|m: int| i <= m < quote_from(a, i) ==> #[trigger] a[m] != '"',
        quote_from(a, i) < a.len() ==> a[quote_from(a, i)] == '"',
    decreases a.len() - i,
{
    if i < a.len() && a[i] != '"' {
        lemma_quote_from(a, i + 1);
    }
}

/// A match has a non-empty key and its closing quote inside `a`.
pub proof fn lemma_attr_match_bounds(a: Seq<char>, i: int)
    ensures
        attr_match_at(a, i) matches Some((j, k)) ==> i < j && j + 2 <= k < a.len(),
{
    if 0 <= i < a.len() && is_key_char(a[i]) {
        lemma_key_end(a, i);
        let j = key_end(a, i);
        if j + 1 < a.len() {
            lemma_quote_from(a, j + 2);
        }
    }
}

/// Every attribute found scanning `a` from `i`, left to right, each as
/// `(key, value)`. After a match, scanning resumes past its closing quote;
/// where no match starts, it resumes at the next character.
pub open spec fn attrs_from(a: Seq<char>, i: int) -> Seq<(Seq<char>, Seq<char>)>
    decreases a.len() - i,
{
    if i < 0 || i >= a.len() {
        Seq::empty()
    } else {
        proof {
            lemma_attr_match_bounds(a, i);
        }
        match attr_match_at(a, i) {
            Some((j, k)) => seq![(a.subrange(i, j), a.subrange(j + 2, k))] + attrs_from(a, k + 1),
            None => attrs_from(a, i + 1),
        }
    }
}

/// The value recorded for `key` when the attributes are stored, in order,
/// in a map keyed by the lowercased key: the last one wins.
pub open spec fn attr_lookup(ps: Seq<(Seq<char>, Seq<char>)>, key: Seq<char>) -> Option<Seq<char>>
    decreases ps.len(),
{
    if ps.len() == 0 {
        None
    } else if lower_ascii_seq(ps.last().0) == key {
        Some(ps.last().1)
    } else {
        attr_lookup(ps.drop_last(), key)
    }
}

/// `tvg-name`.
pub open spec fn key_tvg_name() -> Seq<char> {
    seq!['t', 'v', 'g', '-', 'n', 'a', 'm', 'e']
}

/// `tvg-id`.
pub open spec fn key_tvg_id() -> Seq<char> {
    seq!['t', 'v', 'g', '-', 'i', 'd']
}

/// `tvg-chno`.
pub open spec fn key_tvg_chno() -> Seq<char> {
    seq!['t', 'v', 'g', '-', 'c', 'h', 'n', 'o']
}

/// `group-title`.
pub open spec fn key_group_title() -> Seq<char> {
    seq!['g', 'r', 'o', 'u', 'p', '-', 't', 'i', 't', 'l', 'e']
}

/// `tvg-logo`.
pub open spec fn key_tvg_logo() -> Seq<char> {
    seq!['t', 'v', 'g', '-', 'l', 'o', 'g', 'o']
}

// ---------------------------------------------------------------------
// `#EXTINF` bodies
// ---------------------------------------------------------------------

/// Index of the first comma in `s` at or after `i` that is not inside a
/// quoted value (quotes toggle the state), or `s.len()` when there is none.
pub open spec fn comma_from(s: Seq<char>, i: int, quoted: bool) -> int
    decreases s.len() - i,
{
    if i < 0 || i >= s.len() {
        s.len() as int
    } else if s[i] == '"' {
        comma_from(s, i + 1, !quoted)
    } else if s[i] == ',' && !quoted {
        i
    } else {
        comma_from(s, i + 1, quoted)
    }
}

/// `(attribute list, display name)`: `s` split at its first unquoted
/// comma; with no such comma everything is attributes and the name is
/// empty.
pub open spec fn split_at_comma(s: Seq<char>) -> (Seq<char>, Seq<char>) {
    let c = comma_from(s, 0, false);
    if c < s.len() {
        (s.take(c), s.skip(c + 1))
    } else {
        (s, Seq::empty())
    }
}

/// What the parser keeps of an `#EXTINF:` line: the trimmed display name
/// and the values of the five attributes it reads.
pub struct ExtinfView {
    pub display_name: Seq<char>,
    pub tvg_name: Option<Seq<char>>,
    pub tvg_id: Option<Seq<char>>,
    pub tvg_chno: Option<Seq<char>>,
    pub group_title: Option<Seq<char>>,
    pub tvg_logo: Option<Seq<char>>,
}

/// The meaning of an `#EXTINF:` body (the text after the tag).
pub open spec fn extinf_spec(body: Seq<char>) -> ExtinfView {
    let (attr, name) = split_at_comma(body);
    let ps = attrs_from(attr, 0);
    ExtinfView {
        display_name: trim(name),
        tvg_name: attr_lookup(ps, key_tvg_name()),
        tvg_id: attr_lookup(ps, key_tvg_id()),
        tvg_chno: attr_lookup(ps, key_tvg_chno()),
        group_title: attr_lookup(ps, key_group_title()),
        tvg_logo: attr_lookup(ps, key_tvg_logo()),
    }
}

/// Attributes + display name extracted from a single `#EXTINF:` line.
pub struct Extinf {
    pub display_name: String,
    pub tvg_name: Option<String>,
    pub tvg_id: Option<String>,
    pub tvg_chno: Option<String>,
    pub group_title: Option<String>,
    pub tvg_logo: Option<String>,
}

impl View for Extinf {
    type V = ExtinfView;

    open spec fn view(&self) -> ExtinfView {
        ExtinfView {
            display_name: self.display_name@,
            tvg_name: opt_chars(self.tvg_name),
            tvg_id: opt_chars(self.tvg_id),
            tvg_chno: opt_chars(self.tvg_chno),
            group_title: opt_chars(self.group_title),
            tvg_logo: opt_chars(self.tvg_logo),
        }
    }
}

/// `Some(v)` only when `v` is not empty.
pub open spec fn non_empty(o: Option<Seq<char>>) -> Option<Seq<char>> {
    match o {
        Some(v) => if v.len() > 0 {
            Some(v)
        } else {
            None
        },
        None => None,
    }
}

/// The name of a channel that has none.
pub open spec fn unknown_name() -> Seq<char> {
    seq!['U', 'n', 'k', 'n', 'o', 'w', 'n']
}

/// The channel an `#EXTINF` entry and its URL line describe. Name: the
/// trimmed `tvg-name` attribute, else the display name, else `Unknown`.
/// Empty `tvg-id`, `group-title` and `tvg-logo` values count as absent;
/// `tvg-chno` is kept only when it parses as an `i64`.
pub open spec fn channel_spec(e: ExtinfView, url: Seq<char>) -> ChannelView {
    let fallback = if e.display_name.len() == 0 {
        unknown_name()
    } else {
        e.display_name
    };
    ChannelView {
        name: match e.tvg_name {
            Some(v) => if trim(v).len() > 0 {
                trim(v)
            } else {
                fallback
            },
            None => fallback,
        },
        url: url,
        logo_url: non_empty(e.tvg_logo),
        tvg_id: non_empty(e.tvg_id),
        tvg_chno: match e.tvg_chno {
            Some(v) => parse_i64_spec(v),
            None => None,
        },
        group: non_empty(e.group_title),
    }
}

// ---------------------------------------------------------------------
// Lines and the playlist state machine
// ---------------------------------------------------------------------

/// The index of the first `\n` at or after `i` (or past the end).
pub open spec fn line_end(t: Seq<char>, i: int) -> int
    decreases t.len() - i,
{
    if 0 <= i < t.len() && t[i] != '\n' {
        line_end(t, i + 1)
    } else {
        i
    }
}

/// A terminated line loses one trailing `\r` (a `\r\n` ending).
pub open spec fn strip_cr(l: Seq<char>) -> Seq<char> {
    if l.len() > 0 && l.last() == '\r' {
        l.drop_last()
    } else {
        l
    }
}

/// [`line_end`] is the first `\n` at or after `i`.
pub proof fn lemma_line_end(t: Seq<char>, i: int)
    requires
        0 <= i <= t.len(),
    ensures
        i <= line_end(t, i) <= t.len(),
        forall|m: int| i <= m < line_end(t, i) ==> #[trigger] t[m] != '\n',
        line_end(t, i) < t.len() ==> t[line_end(t, i)] == '\n',
    decreases t.len() - i,
{
    if i < t.len() && t[i] != '\n' {
        lemma_line_end(t, i + 1);
    }
}

/// The lines of `t` from position `p`, as `BufRead::lines` yields them:
/// split at `\n`, a `\r\n` ending stripped, and no empty line after a final
/// `\n`.
pub open spec fn lines_from(t: Seq<char>, p: int) -> Seq<Seq<char>>
    decreases t.len() - p,
{
    if p < 0 || p >= t.len() {
        Seq::empty()
    } else {
        proof {
            lemma_line_end(t, p);
        }
        let j = line_end(t, p);
        if j < t.len() {
            seq![strip_cr(t.subrange(p, j))] + lines_from(t, j + 1)
        } else {
            seq![t.subrange(p, t.len() as int)]
        }
    }
}

/// `#EXTINF:`, the tag that starts a channel entry.
pub open spec fn extinf_tag() -> Seq<char> {
    seq!['#', 'E', 'X', 'T', 'I', 'N', 'F', ':']
}

/// `true` when the line starts with `#EXTINF:`.
pub open spec fn is_extinf_line(l: Seq<char>) -> bool {
    l.len() >= 8 && l.take(8) == extinf_tag()
}

/// One line of the playlist: the pending `#EXTINF` entry afterwards, and
/// the channel the line completes, if any. Blank lines and `#` comments
/// leave the pending entry alone; an `#EXTINF:` line replaces it; any other
/// line is the URL of the pending entry, which it consumes (a line that
/// trims to nothing consumes it without producing a channel).
pub open spec fn step(pending: Option<ExtinfView>, l: Seq<char>) -> (
    Option<ExtinfView>,
    Option<ChannelView>,
) {
    if l.len() == 0 {
        (pending, None)
    } else if is_extinf_line(l) {
        (Some(extinf_spec(l.skip(8))), None)
    } else if l[0] == '#' {
        (pending, None)
    } else {
        match pending {
            None => (None, None),
            Some(e) => if trim(l).len() == 0 {
                (None, None)
            } else {
                (None, Some(channel_spec(e, trim(l))))
            },
        }
    }
}

/// Runs [`step`] over `ls` from no pending entry: the final pending entry
/// and every channel emitted, in order.
pub open spec fn run_lines(ls: Seq<Seq<char>>) -> (Option<ExtinfView>, Seq<ChannelView>)
    decreases ls.len(),
{
    if ls.len() == 0 {
        (None, Seq::empty())
    } else {
        let (p, out) = run_lines(ls.drop_last());
        let (p2, c) = step(p, ls.last());
        (
            p2,
            match c {
                Some(ch) => out.push(ch),
                None => out,
            },
        )
    }
}

/// The channels of a decoded playlist text.
pub open spec fn m3u_channels(t: Seq<char>) -> Seq<ChannelView> {
    run_lines(lines_from(t, 0)).1
}

/// The message for a playlist that is not valid UTF-8.
pub open spec fn invalid_utf8_message() -> Seq<char> {
    seq![
        'e', 'r', 'r', 'o', 'r', ' ', 'r', 'e', 'a', 'd', 'i', 'n', 'g', ' ', 'p', 'l', 'a', 'y',
        'l', 'i', 's', 't', ':', ' ', 's', 't', 'r', 'e', 'a', 'm', ' ', 'd', 'i', 'd', ' ', 'n',
        'o', 't', ' ', 'c', 'o', 'n', 't', 'a', 'i', 'n', ' ', 'v', 'a', 'l', 'i', 'd', ' ', 'U',
        'T', 'F', '-', '8',
    ]
}

/// The models of a list of channels.
pub open spec fn channel_views(v: Seq<ParsedChannel>) -> Seq<ChannelView> {
    v.map_values(|c: ParsedChannel| c@)
}

// ---------------------------------------------------------------------
// Executable parser
// ---------------------------------------------------------------------

/// Split the `#EXTINF` body at the first comma that is *not* inside a quoted
/// attribute value, returning (attribute list, display name).
pub fn split_first_unquoted_comma(s: &Vec<char>) -> (r: (Vec<char>, Vec<char>))
    ensures
        (r.0@, r.1@) == split_at_comma(s@),
{
    let mut in_quotes = false;
    let mut i: usize = 0;
    while i < s.len()
        invariant
            0 <= i <= s@.len(),
            comma_from(s@, 0, false) == comma_from(s@, i as int, in_quotes),
        decreases s.len() - i,
    {
        if s[i] == '"' {
            in_quotes = !in_quotes;
        } else if s[i] == ',' && !in_quotes {
            let mut a: Vec<char> = Vec::new();
            let mut b: Vec<char> = Vec::new();
            let mut k: usize = 0;
            while k < i
                invariant
                    0 <= k <= i < s@.len(),
                    a@ == s@.take(k as int),
                decreases i - k,
            {
                a.push(s[k]);
                assert(s@.take(k + 1) == s@.take(k as int).push(s@[k as int]));
                k = k + 1;
            }
            k = i + 1;
            while k < s.len()
                invariant
                    i < k <= s@.len(),
                    b@ == s@.subrange(i + 1, k as int),
                decreases s.len() - k,
            {
                b.push(s[k]);
                assert(s@.subrange(i + 1, k + 1) == s@.subrange(i + 1, k as int).push(s@[k as int]));
                k = k + 1;
            }
            assert(s@.subrange(i + 1, s@.len() as int) == s@.skip(i + 1));
            return (a, b);
        }
        i = i + 1;
    }
    (s.clone(), Vec::new())
}

/// `true` iff `v[lo..hi]`, ASCII-lowercased, equals `lit`.
fn lower_eq(v: &Vec<char>, lo: usize, hi: usize, lit: &[char]) -> (r: bool)
    requires
        lo <= hi <= v@.len(),
    ensures
        r == (lower_ascii_seq(v@.subrange(lo as int, hi as int)) == lit@),
{
    let ghost s = v@.subrange(lo as int, hi as int);
    if hi - lo != lit.len() {
        assert(lower_ascii_seq(s).len() != lit@.len());
        return false;
    }
    let mut m: usize = 0;
    while m < lit.len()
        invariant
            hi - lo == lit@.len(),
            lo <= hi <= v@.len(),
            s == v@.subrange(lo as int, hi as int),
            0 <= m <= lit@.len(),
            forall|q: int| 0 <= q < m ==> lower_ascii_seq(s)[q] == lit@[q],
        decreases lit.len() - m,
    {
        if to_ascii_lower(v[lo + m]) != lit[m] {
            assert(lower_ascii_seq(s)[m as int] != lit@[m as int]);
            return false;
        }
        m = m + 1;
    }
    assert(lower_ascii_seq(s) =~= lit@);
    true
}

/// Executable [`attr_match_at`].
fn match_attr_at(a: &Vec<char>, i: usize) -> (r: Option<(usize, usize)>)
    requires
        i < a@.len(),
    ensures
        match r {
            Some((j, k)) => attr_match_at(a@, i as int) == Some((j as int, k as int)),
            None => attr_match_at(a@, i as int) is None,
        },
{
    if !(('A' <= a[i] && a[i] <= 'Z') || ('a' <= a[i] && a[i] <= 'z') || ('0' <= a[i] && a[i]
        <= '9') || a[i] == '_' || a[i] == '-') {
        return None;
    }
    let mut j = i;
    while j < a.len() && (('A' <= a[j] && a[j] <= 'Z') || ('a' <= a[j] && a[j] <= 'z') || ('0'
        <= a[j] && a[j] <= '9') || a[j] == '_' || a[j] == '-')
        invariant
            i <= j <= a@.len(),
            key_end(a@, i as int) == key_end(a@, j as int),
        decreases a.len() - j,
    {
        j = j + 1;
    }
    if !(j < a.len() && a.len() - j > 1 && a[j] == '=' && a[j + 1] == '"') {
        return None;
    }
    let mut k = j + 2;
    while k < a.len() && a[k] != '"'
        invariant
            j + 2 <= k <= a@.len(),
            quote_from(a@, (j + 2) as int) == quote_from(a@, k as int),
        decreases a.len() - k,
    {
        k = k + 1;
    }
    if k < a.len() {
        Some((j, k))
    } else {
        None
    }
}

/// The values of the five attributes the parser reads.
pub struct AttrValues {
    pub tvg_name: Option<String>,
    pub tvg_id: Option<String>,
    pub tvg_chno: Option<String>,
    pub group_title: Option<String>,
    pub tvg_logo: Option<String>,
}

/// `true` when `vals` holds, for each of the five keys, its lookup in `ps`.
pub open spec fn values_match(vals: AttrValues, ps: Seq<(Seq<char>, Seq<char>)>) -> bool {
    &&& opt_chars(vals.tvg_name) == attr_lookup(ps, key_tvg_name())
    &&& opt_chars(vals.tvg_id) == attr_lookup(ps, key_tvg_id())
    &&& opt_chars(vals.tvg_chno) == attr_lookup(ps, key_tvg_chno())
    &&& opt_chars(vals.group_title) == attr_lookup(ps, key_group_title())
    &&& opt_chars(vals.tvg_logo) == attr_lookup(ps, key_tvg_logo())
}

/// Records one attribute `a[i..j]="a[j+2..k]"`.
fn record_attr(vals: &mut AttrValues, a: &Vec<char>, i: usize, j: usize, k: usize, Ghost(
    ps,
): Ghost<Seq<(Seq<char>, Seq<char>)>>)
    requires
        i <= j,
        j + 2 <= k <= a@.len(),
        values_match(*old(vals), ps),
    ensures
        values_match(
            *final(vals),
            ps.push((a@.subrange(i as int, j as int), a@.subrange(j + 2, k as int))),
        ),
{
    let ghost pair = (a@.subrange(i as int, j as int), a@.subrange(j + 2, k as int));
    let ghost ps2 = ps.push(pair);
    assert(ps2.drop_last() =~= ps);
    assert(ps2.last() == pair);
    if lower_eq(a, i, j, &['t', 'v', 'g', '-', 'n', 'a', 'm', 'e']) {
        vals.tvg_name = Some(string_of(a, j + 2, k));
    }
    if lower_eq(a, i, j, &['t', 'v', 'g', '-', 'i', 'd']) {
        vals.tvg_id = Some(string_of(a, j + 2, k));
    }
    if lower_eq(a, i, j, &['t', 'v', 'g', '-', 'c', 'h', 'n', 'o']) {
        vals.tvg_chno = Some(string_of(a, j + 2, k));
    }
    if lower_eq(a, i, j, &['g', 'r', 'o', 'u', 'p', '-', 't', 'i', 't', 'l', 'e']) {
        vals.group_title = Some(string_of(a, j + 2, k));
    }
    if lower_eq(a, i, j, &['t', 'v', 'g', '-', 'l', 'o', 'g', 'o']) {
        vals.tvg_logo = Some(string_of(a, j + 2, k));
    }
}

/// Scans an attribute list and returns the last value of each of the five
/// attributes the parser reads (keys compared case-insensitively).
fn scan_attrs(a: &Vec<char>) -> (vals: AttrValues)
    ensures
        values_match(vals, attrs_from(a@, 0)),
{
    let mut vals = AttrValues {
        tvg_name: None,
        tvg_id: None,
        tvg_chno: None,
        group_title: None,
        tvg_logo: None,
    };
    let ghost mut acc: Seq<(Seq<char>, Seq<char>)> = Seq::empty();
    let mut i: usize = 0;
    while i < a.len()
        invariant
            0 <= i <= a@.len(),
            attrs_from(a@, 0) == acc + attrs_from(a@, i as int),
            values_match(vals, acc),
        decreases a.len() - i,
    {
        proof {
            lemma_attr_match_bounds(a@, i as int);
        }
        match match_attr_at(a, i) {
            Some((j, k)) => {
                let ghost pair = (a@.subrange(i as int, j as int), a@.subrange(j + 2, k as int));
                record_attr(&mut vals, a, i, j, k, Ghost(acc));
                proof {
                    assert(attrs_from(a@, i as int) == seq![pair] + attrs_from(a@, k + 1));
                    assert(acc + (seq![pair] + attrs_from(a@, k + 1)) =~= acc.push(pair)
                        + attrs_from(a@, k + 1));
                    acc = acc.push(pair);
                }
                i = k + 1;
            },
            None => {
                assert(attrs_from(a@, i as int) == attrs_from(a@, i + 1));
                i = i + 1;
            },
        }
    }
    assert(acc + attrs_from(a@, i as int) =~= acc);
    vals
}

/// Parses the body of an `#EXTINF:` line (the text after the tag).
pub fn parse_extinf(body: &Vec<char>) -> (e: Extinf)
    ensures
        e@ == extinf_spec(body@),
{
    let (attr_part, name_part) = split_first_unquoted_comma(body);
    let vals = scan_attrs(&attr_part);
    let display_name = trimmed_string(&name_part, 0, name_part.len());
    assert(name_part@.subrange(0, name_part@.len() as int) == name_part@);
    Extinf {
        display_name,
        tvg_name: vals.tvg_name,
        tvg_id: vals.tvg_id,
        tvg_chno: vals.tvg_chno,
        group_title: vals.group_title,
        tvg_logo: vals.tvg_logo,
    }
}

/// `o`, unless it holds an empty string.
fn keep_non_empty(o: Option<String>) -> (r: Option<String>)
    ensures
        opt_chars(r) == non_empty(opt_chars(o)),
{
    match o {
        Some(v) => if v.as_str().is_empty() {
            None
        } else {
            Some(v)
        },
        None => None,
    }
}

/// Builds the channel for a pending `#EXTINF` entry and its URL.
pub fn make_channel(e: Extinf, url: String) -> (c: ParsedChannel)
    ensures
        c@ == channel_spec(e@, url@),
{
    let ghost ev = e@;
    let fallback = if e.display_name.as_str().is_empty() {
        string_from_slice(&['U', 'n', 'k', 'n', 'o', 'w', 'n'])
    } else {
        e.display_name
    };
    let name = match e.tvg_name {
        Some(v) => {
            let t = trim_str(v.as_str());
            if t.as_str().is_empty() {
                fallback
            } else {
                t
            }
        },
        None => fallback,
    };
    let tvg_chno = match e.tvg_chno {
        Some(v) => {
            let cv = chars_of(v.as_str());
            assert(cv@.subrange(0, cv@.len() as int) == cv@);
            parse_i64_range(&cv, 0, cv.len())
        },
        None => None,
    };
    let c = ParsedChannel {
        name,
        url,
        logo_url: keep_non_empty(e.tvg_logo),
        tvg_id: keep_non_empty(e.tvg_id),
        tvg_chno,
        group: keep_non_empty(e.group_title),
    };
    assert(c@.name == channel_spec(ev, url@).name);
    c
}

/// Processes one line of the playlist (see [`step`]).
fn process_line(pending: &mut Option<Extinf>, out: &mut Vec<ParsedChannel>, line: &Vec<char>)
    ensures
        ({
            let (p2, c) = step(opt_extinf(*old(pending)), line@);
            &&& opt_extinf(*final(pending)) == p2
            &&& channel_views(final(out)@) == match c {
                Some(ch) => channel_views(old(out)@).push(ch),
                None => channel_views(old(out)@),
            }
        }),
{
    if line.len() == 0 {
        return;
    }
    if has_prefix_at(line, 0, &['#', 'E', 'X', 'T', 'I', 'N', 'F', ':']) {
        let mut body: Vec<char> = Vec::new();
        let mut k: usize = 8;
        while k < line.len()
            invariant
                8 <= k <= line@.len(),
                body@ == line@.subrange(8, k as int),
            decreases line.len() - k,
        {
            body.push(line[k]);
            assert(line@.subrange(8, k + 1) == line@.subrange(8, k as int).push(line@[k as int]));
            k = k + 1;
        }
        assert(line@.subrange(8, line@.len() as int) == line@.skip(8));
        assert(line@.subrange(0, 8) == line@.take(8));
        *pending = Some(parse_extinf(&body));
        return;
    }
    assert(line@.len() >= 8 ==> line@.subrange(0, 8) == line@.take(8));
    if line[0] == '#' {
        return;
    }
    let taken = pending.take();
    match taken {
        None => {},
        Some(e) => {
            let url = trimmed_string(line, 0, line.len());
            assert(line@.subrange(0, line@.len() as int) == line@);
            if !url.as_str().is_empty() {
                let ghost before = out@;
                out.push(make_channel(e, url));
                assert(channel_views(out@) =~= channel_views(before).push(out@.last()@));
            }
        },
    }
}

/// The model of an optional pending entry.
pub open spec fn opt_extinf(o: Option<Extinf>) -> Option<ExtinfView> {
    match o {
        Some(e) => Some(e@),
        None => None,
    }
}

/// Runs the line state machine over a decoded playlist text, appending
/// every channel it yields to `out`.
fn parse_chars(t: &Vec<char>, out: &mut Vec<ParsedChannel>)
    ensures
        channel_views(final(out)@) == channel_views(old(out)@) + m3u_channels(t@),
{
    let ghost text = t@;
    let ghost start = channel_views(out@);
    let mut pending: Option<Extinf> = None;
    let ghost mut done: Seq<Seq<char>> = Seq::empty();
    let mut p: usize = 0;
    assert(done + lines_from(text, 0) =~= lines_from(text, 0));
    assert(start + run_lines(done).1 =~= start);
    while p < t.len()
        invariant
            0 <= p <= t@.len(),
            text == t@,
            lines_from(text, 0) == done + lines_from(text, p as int),
            opt_extinf(pending) == run_lines(done).0,
            channel_views(out@) == start + run_lines(done).1,
        decreases t.len() - p,
    {
        proof {
            lemma_line_end(text, p as int);
        }
        let mut j = p;
        while j < t.len() && t[j] != '\n'
            invariant
                p <= j <= t@.len(),
                line_end(text, p as int) == line_end(text, j as int),
                text == t@,
            decreases t.len() - j,
        {
            j = j + 1;
        }
        let mut e = j;
        if j < t.len() && j > p && t[j - 1] == '\r' {
            e = j - 1;
        }
        let mut line: Vec<char> = Vec::new();
        let mut k = p;
        while k < e
            invariant
                p <= k <= e <= t@.len(),
                line@ == t@.subrange(p as int, k as int),
            decreases e - k,
        {
            line.push(t[k]);
            assert(t@.subrange(p as int, k + 1) == t@.subrange(p as int, k as int).push(t@[k as int]));
            k = k + 1;
        }
        let ghost l = line@;
        proof {
            if j < t.len() {
                assert(strip_cr(text.subrange(p as int, j as int)) =~= l);
                assert(lines_from(text, p as int) == seq![l] + lines_from(text, j + 1));
            } else {
                assert(lines_from(text, p as int) == seq![l]);
            }
        }
        let ghost before = channel_views(out@);
        process_line(&mut pending, out, &line);
        proof {
            let d2 = done.push(l);
            assert(d2.drop_last() =~= done);
            assert(d2.last() == l);
            match step(run_lines(done).0, l).1 {
                Some(ch) => {
                    assert(start + run_lines(d2).1 =~= (start + run_lines(done).1).push(ch));
                },
                None => {},
            }
            if j < t.len() {
                assert(done + (seq![l] + lines_from(text, j + 1)) =~= d2 + lines_from(text, j + 1));
            } else {
                assert(done + seq![l] =~= d2 + lines_from(text, j as int));
            }
            done = d2;
        }
        if j < t.len() {
            p = j + 1;
        } else {
            p = j;
        }
    }
    assert(done + lines_from(text, p as int) =~= done);
}

/// The index of the first `\n` byte at or after `i` (or the length).
pub open spec fn byte_line_end(b: Seq<u8>, i: int) -> int
    decreases b.len() - i,
{
    if 0 <= i < b.len() && b[i] != 0x0au8 {
        byte_line_end(b, i + 1)
    } else {
        i
    }
}

/// [`byte_line_end`] is the first `\n` at or after `i`.
pub proof fn lemma_byte_line_end(b: Seq<u8>, i: int)
    requires
        0 <= i <= b.len(),
    ensures
        i <= byte_line_end(b, i) <= b.len(),
        byte_line_end(b, i) < b.len() ==> b[byte_line_end(b, i)] == 0x0au8,
    decreases b.len() - i,
{
    if i < b.len() && b[i] != 0x0au8 {
        lemma_byte_line_end(b, i + 1);
    }
}

/// Where the line that starts at `s` ends, its `\n` included.
pub open spec fn line_stop(b: Seq<u8>, s: int) -> int {
    let e = byte_line_end(b, s);
    if e < b.len() {
        e + 1
    } else {
        e
    }
}

/// How far the playlist bytes can be read from the line start `s`: lines
/// are read one at a time, and reading stops before the first line that is
/// not valid UTF-8.
pub open spec fn readable_end(b: Seq<u8>, s: int) -> int
    decreases b.len() - s,
{
    if s < 0 || s >= b.len() {
        s
    } else {
        proof {
            lemma_byte_line_end(b, s);
        }
        let t = line_stop(b, s);
        if vstd::utf8::valid_utf8(b.subrange(s, t)) {
            readable_end(b, t)
        } else {
            s
        }
    }
}

/// A byte run that is valid UTF-8 from line start `s` on is readable to its
/// end: each of its lines is valid UTF-8 on its own.
pub proof fn lemma_valid_utf8_readable(b: Seq<u8>, s: int)
    requires
        0 <= s <= b.len(),
        vstd::utf8::valid_utf8(b.subrange(s, b.len() as int)),
    ensures
        readable_end(b, s) == b.len(),
    decreases b.len() - s,
{
    if s < b.len() {
        lemma_byte_line_end(b, s);
        let t = line_stop(b, s);
        let bb = b.subrange(s, b.len() as int);
        if t < b.len() {
            let k = t - 1 - s;
            assert(bb[k] == 0x0au8);
            vstd::utf8::is_char_boundary_iff_not_is_continuation_byte(bb, k);
            vstd::utf8::valid_utf8_split(bb, k);
            let c = bb.subrange(k, bb.len() as int);
            assert(c[0] == 0x0au8);
            assert(vstd::utf8::valid_first_scalar(c));
            assert(vstd::utf8::length_of_first_scalar(c) == 1);
            assert(vstd::utf8::pop_first_scalar(c) =~= b.subrange(t, b.len() as int));
            lemma_valid_utf8_readable(b, t);
            reveal_with_fuel(vstd::utf8::is_char_boundary, 2);
            assert(vstd::utf8::is_char_boundary(c, 1));
            vstd::utf8::valid_utf8_split(c, 1);
            vstd::utf8::valid_utf8_concat(bb.subrange(0, k), c.subrange(0, 1));
            assert(bb.subrange(0, k) + c.subrange(0, 1) =~= b.subrange(s, t));
        } else {
            assert(b.subrange(s, t) =~= bb);
        }
        assert(vstd::utf8::valid_utf8(b.subrange(s, t)));
        assert(readable_end(b, s) == readable_end(b, t));
    }
}

/// The UTF-8 encoding of two texts one after the other is the two
/// encodings one after the other.
pub proof fn lemma_encode_utf8_concat(a: Seq<char>, b: Seq<char>)
    ensures
        vstd::utf8::encode_utf8(a + b) == vstd::utf8::encode_utf8(a) + vstd::utf8::encode_utf8(b),
    decreases a.len(),
{
    if a.len() == 0 {
        assert(a + b =~= b);
        assert(vstd::utf8::encode_utf8(a) =~= Seq::<u8>::empty());
        assert(Seq::<u8>::empty() + vstd::utf8::encode_utf8(b) =~= vstd::utf8::encode_utf8(b));
    } else {
        assert((a + b).drop_first() =~= a.drop_first() + b);
        assert((a + b)[0] == a[0]);
        lemma_encode_utf8_concat(a.drop_first(), b);
        assert(vstd::utf8::encode_utf8(a + b) =~= vstd::utf8::encode_scalar(a[0] as u32)
            + vstd::utf8::encode_utf8(a.drop_first() + b));
    }
}

/// Two valid UTF-8 byte runs one after the other are valid and decode to
/// the two texts one after the other.
pub proof fn lemma_decode_utf8_concat(x: Seq<u8>, y: Seq<u8>)
    requires
        vstd::utf8::valid_utf8(x),
        vstd::utf8::valid_utf8(y),
    ensures
        vstd::utf8::valid_utf8(x + y),
        vstd::utf8::decode_utf8(x + y) == vstd::utf8::decode_utf8(x) + vstd::utf8::decode_utf8(y),
{
    let cx = vstd::utf8::decode_utf8(x);
    let cy = vstd::utf8::decode_utf8(y);
    vstd::utf8::decode_utf8_encode_utf8(x);
    vstd::utf8::decode_utf8_encode_utf8(y);
    lemma_encode_utf8_concat(cx, cy);
    vstd::utf8::encode_utf8_valid_utf8(cx + cy);
    vstd::utf8::encode_utf8_decode_utf8(cx + cy);
}

/// Parse an M3U/M3U8 IPTV playlist, appending every channel to `out` as it
/// is discovered (in order), and return the number of channels appended.
///
/// Semantics: the `#EXTM3U` header and other comment lines (`#EXTGRP`,
/// `#PLAYLIST`, `#KODIPROP`, ...) are ignored. An `#EXTINF:` line starts a
/// pending channel; the next non-comment, non-empty line is its URL. A
/// dangling `#EXTINF:` at the end of the file is dropped. Both `\n` and
/// `\r\n` line endings are accepted. The playlist is read line by line:
/// at the first line that is not UTF-8 the channels of the lines before it
/// have been appended, and the result is an error.
pub fn parse_m3u(input: &[u8], out: &mut Vec<ParsedChannel>) -> (r: Result<usize, String>)
    ensures
        ({
            let g = readable_end(input@, 0);
            &&& 0 <= g <= input@.len()
            &&& vstd::utf8::valid_utf8(input@.subrange(0, g))
            &&& channel_views(final(out)@) == channel_views(old(out)@) + m3u_channels(
                vstd::utf8::decode_utf8(input@.subrange(0, g)),
            )
            &&& (r is Ok <==> g == input@.len())
            &&& (r is Ok <==> vstd::utf8::valid_utf8(input@))
            &&& r matches Ok(n) ==> n == final(out)@.len() - old(out)@.len()
            &&& r matches Err(e) ==> e@ == invalid_utf8_message()
        }),
{
    let mut text: Vec<char> = Vec::new();
    let mut s: usize = 0;
    assert(input@.subrange(0, 0) =~= Seq::<u8>::empty());
    assert(vstd::utf8::decode_utf8(Seq::<u8>::empty()) =~= Seq::<char>::empty());
    loop
        invariant
            0 <= s <= input@.len(),
            readable_end(input@, 0) == readable_end(input@, s as int),
            vstd::utf8::valid_utf8(input@.subrange(0, s as int)),
            text@ == vstd::utf8::decode_utf8(input@.subrange(0, s as int)),
        ensures
            0 <= s <= input@.len(),
            readable_end(input@, 0) == s,
            vstd::utf8::valid_utf8(input@.subrange(0, s as int)),
            text@ == vstd::utf8::decode_utf8(input@.subrange(0, s as int)),
        decreases input@.len() - s,
    {
        if s >= input.len() {
            break;
        }
        proof {
            lemma_byte_line_end(input@, s as int);
        }
        let mut e = s;
        while e < input.len() && input[e] != 0x0a
            invariant
                s <= e <= input@.len(),
                byte_line_end(input@, s as int) == byte_line_end(input@, e as int),
            decreases input.len() - e,
        {
            e = e + 1;
        }
        let t = if e < input.len() {
            e + 1
        } else {
            e
        };
        assert(t as int == line_stop(input@, s as int));
        let line = vstd::slice::slice_subrange(input, s, t);
        match str_from_utf8(line) {
            Some(l) => {
                proof {
                    let x = input@.subrange(0, s as int);
                    let y = input@.subrange(s as int, t as int);
                    vstd::utf8::encode_utf8_decode_utf8(l@);
                    lemma_decode_utf8_concat(x, y);
                    assert(x + y =~= input@.subrange(0, t as int));
                }
                let mut cs = chars_of(l);
                text.append(&mut cs);
                s = t;
            },
            None => {
                break;
            },
        }
    }
    proof {
        if vstd::utf8::valid_utf8(input@) {
            assert(input@.subrange(0, input@.len() as int) =~= input@);
            lemma_valid_utf8_readable(input@, 0);
        }
        assert(s == input@.len() ==> input@.subrange(0, s as int) =~= input@);
    }
    let n0 = out.len();
    let ghost before = out@;
    parse_chars(&text, out);
    assert(out@.len() == channel_views(out@).len());
    assert(before.len() == channel_views(before).len());
    if s == input.len() {
        Ok(out.len() - n0)
    } else {
        let e = string_from_slice(
            &[
                'e', 'r', 'r', 'o', 'r', ' ', 'r', 'e', 'a', 'd', 'i', 'n', 'g', ' ', 'p', 'l',
                'a', 'y', 'l', 'i', 's', 't', ':', ' ', 's', 't', 'r', 'e', 'a', 'm', ' ', 'd',
                'i', 'd', ' ', 'n', 'o', 't', ' ', 'c', 'o', 'n', 't', 'a', 'i', 'n', ' ', 'v',
                'a', 'l', 'i', 'd', ' ', 'U', 'T', 'F', '-', '8',
            ],
        );
        Err(e)
    }
}

} // verus!

verus! {

// ---------------------------------------------------------------------
// Line endings
// ---------------------------------------------------------------------

/// `t` with every `\n` written as `\r\n`.
pub open spec fn crlf(t: Seq<char>) -> Seq<char>
    decreases t.len(),
{
    if t.len() == 0 {
        t
    } else {
        crlf(t.drop_last()) + if t.last() == '\n' {
            seq!['\r', '\n']
        } else {
            seq![t.last()]
        }
    }
}

/// `t` holds no `c`.
pub open spec fn lacks(t: Seq<char>, c: char) -> bool {
    forall|i: int| 0 <= i < t.len() ==> #[trigger] t[i] != c
}

proof fn lemma_line_end_shift(t: Seq<char>, p: int, i: int)
    requires
        0 <= p <= i <= t.len(),
    ensures
        line_end(t, i) == p + line_end(t.skip(p), i - p),
    decreases t.len() - i,
{
    if i < t.len() && t[i] != '\n' {
        lemma_line_end_shift(t, p, i + 1);
    }
}

proof fn lemma_lines_shift(t: Seq<char>, p: int)
    requires
        0 <= p <= t.len(),
    ensures
        lines_from(t, p) == lines_from(t.skip(p), 0),
    decreases t.len() - p,
{
    if p < t.len() {
        let s = t.skip(p);
        lemma_line_end(t, p);
        lemma_line_end_shift(t, p, p);
        let j = line_end(t, p);
        if j < t.len() {
            assert(t.subrange(p, j) =~= s.subrange(0, j - p));
            lemma_lines_shift(t, j + 1);
            lemma_lines_shift(s, j - p + 1);
            assert(t.skip(j + 1) =~= s.skip(j - p + 1));
        } else {
            assert(t.subrange(p, t.len() as int) =~= s.subrange(0, s.len() as int));
        }
    } else {
        assert(t.skip(p).len() == 0);
    }
}

proof fn lemma_line_end_no_newline(t: Seq<char>, i: int)
    requires
        0 <= i <= t.len(),
        lacks(t, '\n'),
    ensures
        line_end(t, i) == t.len(),
    decreases t.len() - i,
{
    if i < t.len() {
        lemma_line_end_no_newline(t, i + 1);
    }
}

/// The lines of `a + "\n" + b`, for `a` without `\n`.
proof fn lemma_lines_split(a: Seq<char>, b: Seq<char>)
    requires
        lacks(a, '\n'),
    ensures
        lines_from(a + seq!['\n'] + b, 0) == seq![strip_cr(a)] + lines_from(b, 0),
{
    let t = a + seq!['\n'] + b;
    assert(lacks(t.take(a.len() as int), '\n')) by {
        assert(t.take(a.len() as int) =~= a);
    }
    lemma_line_end_upto(t, 0, a.len() as int);
    assert(t.subrange(0, a.len() as int) =~= a);
    lemma_lines_shift(t, a.len() + 1 as int);
    assert(t.skip(a.len() + 1 as int) =~= b);
}

proof fn lemma_line_end_upto(t: Seq<char>, i: int, k: int)
    requires
        0 <= i <= k < t.len(),
        t[k] == '\n',
        forall|m: int| i <= m < k ==> #[trigger] t[m] != '\n',
    ensures
        line_end(t, i) == k,
    decreases k - i,
{
    if i < k {
        lemma_line_end_upto(t, i + 1, k);
    }
}

proof fn lemma_crlf_concat(x: Seq<char>, y: Seq<char>)
    ensures
        crlf(x + y) == crlf(x) + crlf(y),
    decreases y.len(),
{
    if y.len() == 0 {
        assert(x + y =~= x);
        assert(crlf(x) + crlf(y) =~= crlf(x));
    } else {
        assert((x + y).drop_last() =~= x + y.drop_last());
        lemma_crlf_concat(x, y.drop_last());
        let tail = if y.last() == '\n' {
            seq!['\r', '\n']
        } else {
            seq![y.last()]
        };
        assert(crlf(x) + crlf(y.drop_last()) + tail =~= crlf(x) + (crlf(y.drop_last()) + tail));
    }
}

proof fn lemma_crlf_plain(x: Seq<char>)
    requires
        lacks(x, '\n'),
    ensures
        crlf(x) == x,
    decreases x.len(),
{
    if x.len() > 0 {
        lemma_crlf_plain(x.drop_last());
        assert(x.drop_last() + seq![x.last()] =~= x);
    }
}

/// `\n` and `\r\n` line endings split a text into the same lines, for a
/// text without other carriage returns.
#[verifier::spinoff_prover]
pub proof fn lemma_crlf_lines(t: Seq<char>)
    requires
        lacks(t, '\r'),
    ensures
        lines_from(crlf(t), 0) == lines_from(t, 0),
    decreases t.len(),
{
    if lacks(t, '\n') {
        lemma_crlf_plain(t);
    } else {
        let k = choose|k: int| 0 <= k < t.len() && t[k] == '\n';
        lemma_first_newline(t, 0, k);
        let k0 = first_newline(t, 0, k);
        let a = t.take(k0);
        let b = t.skip(k0 + 1);
        assert(t =~= a + seq!['\n'] + b);
        assert(lacks(a, '\n'));
        assert(lacks(b, '\r'));
        lemma_lines_split(a, b);
        lemma_crlf_concat(a + seq!['\n'], b);
        lemma_crlf_concat(a, seq!['\n']);
        lemma_crlf_plain(a);
        assert(crlf(seq!['\n']) =~= seq!['\r', '\n']) by {
            let one = seq!['\n'];
            assert(one.drop_last() =~= Seq::<char>::empty());
            assert(one.last() == '\n');
            assert(crlf(Seq::<char>::empty()) == Seq::<char>::empty());
            assert(crlf(one) == crlf(one.drop_last()) + seq!['\r', '\n']);
        }
        let a2 = a + seq!['\r'];
        assert(crlf(t) =~= a2 + seq!['\n'] + crlf(b));
        assert(lacks(a2, '\n'));
        lemma_lines_split(a2, crlf(b));
        assert(strip_cr(a2) =~= a);
        assert(strip_cr(a) == a) by {
            if a.len() > 0 {
                assert(a[a.len() - 1] != '\r');
            }
        }
        lemma_crlf_lines(b);
    }
}

/// The first `\n` at or after `i`, given one at `k`.
spec fn first_newline(t: Seq<char>, i: int, k: int) -> int
    decreases k - i,
{
    if i >= k || t[i] == '\n' {
        i
    } else {
        first_newline(t, i + 1, k)
    }
}

proof fn lemma_first_newline(t: Seq<char>, i: int, k: int)
    requires
        0 <= i <= k < t.len(),
        t[k] == '\n',
    ensures
        i <= first_newline(t, i, k) <= k,
        t[first_newline(t, i, k)] == '\n',
        forall|m: int| i <= m < first_newline(t, i, k) ==> #[trigger] t[m] != '\n',
    decreases k - i,
{
    if i < k && t[i] != '\n' {
        lemma_first_newline(t, i + 1, k);
    }
}

/// A playlist gives the same channels with `\r\n` line endings as with
/// `\n` ones (for a text with no other carriage return).
pub proof fn lemma_crlf_same_channels(t: Seq<char>)
    requires
        lacks(t, '\r'),
    ensures
        m3u_channels(crlf(t)) == m3u_channels(t),
{
    lemma_crlf_lines(t);
}

/// Every channel a playlist yields has a name and a URL, and the URL
/// carries no surrounding whitespace.
pub proof fn lemma_channels_have_name_and_url(t: Seq<char>)
    ensures
        forall|k: int|
            0 <= k < m3u_channels(t).len() ==> {
                let c = #[trigger] m3u_channels(t)[k];
                &&& c.name.len() > 0
                &&& c.url.len() > 0
                &&& trim(c.url) == c.url
            },
{
    lemma_run_lines_named(lines_from(t, 0));
}

proof fn lemma_run_lines_named(ls: Seq<Seq<char>>)
    ensures
        forall|k: int|
            0 <= k < run_lines(ls).1.len() ==> {
                let c = #[trigger] run_lines(ls).1[k];
                &&& c.name.len() > 0
                &&& c.url.len() > 0
                &&& trim(c.url) == c.url
            },
    decreases ls.len(),
{
    if ls.len() > 0 {
        lemma_run_lines_named(ls.drop_last());
        lemma_trim_idempotent(ls.last());
        assert(unknown_name().len() > 0);
    }
}

/// How many `"` characters `s` holds.
pub open spec fn quote_count(s: Seq<char>) -> nat
    decreases s.len(),
{
    if s.len() == 0 {
        0
    } else {
        quote_count(s.drop_last()) + if s.last() == '"' {
            1nat
        } else {
            0nat
        }
    }
}

/// `a` has balanced quotes, and each of its commas stands inside a quoted
/// value (after an odd number of quotes).
pub open spec fn commas_all_quoted(a: Seq<char>) -> bool {
    &&& quote_count(a) % 2 == 0
    &&& forall|j: int| 0 <= j < a.len() && a[j] == ',' ==> #[trigger] quote_count(a.take(j)) % 2 == 1
}

proof fn lemma_comma_from_prefix(s: Seq<char>, m: int, i: int)
    requires
        0 <= i <= m < s.len(),
        s[m] == ',',
        quote_count(s.take(m)) % 2 == 0,
        forall|j: int| i <= j < m && s[j] == ',' ==> #[trigger] quote_count(s.take(j)) % 2 == 1,
    ensures
        comma_from(s, i, quote_count(s.take(i)) % 2 == 1) == m,
    decreases m - i,
{
    if i < m {
        assert(s.take(i + 1).drop_last() =~= s.take(i));
        assert(s.take(i + 1).last() == s[i]);
        lemma_comma_from_prefix(s, m, i + 1);
    }
}

/// An `#EXTINF` body splits at its first comma outside quotes: for
/// attributes `a` whose quotes are balanced and whose commas are all
/// quoted, the body `a,n` has the attributes `a` and the display name
/// `trim(n)`, whatever commas `n` holds.
pub proof fn lemma_display_name_after_first_comma(a: Seq<char>, n: Seq<char>)
    requires
        commas_all_quoted(a),
    ensures
        split_at_comma(a + seq![','] + n) == (a, n),
        extinf_spec(a + seq![','] + n).display_name == trim(n),
{
    let s = a + seq![','] + n;
    let m = a.len() as int;
    assert(s.take(m) =~= a);
    assert(s.take(0) =~= Seq::<char>::empty());
    assert forall|j: int| 0 <= j < m && s[j] == ',' implies #[trigger] quote_count(s.take(j)) % 2
        == 1 by {
        assert(s.take(j) =~= a.take(j));
        assert(s[j] == a[j]);
    }
    lemma_comma_from_prefix(s, m, 0);
    assert(s.skip(m + 1) =~= n);
}

} // verus!
