//! The rows the SQLite store holds, and the computations around storing
//! them: the conversion of parsed channels into rows, group resolution by
//! (kind, name), import statistics, the `LIKE` pattern of a search and the
//! Xtream credentials of a playlist.
use vstd::prelude::*;

use crate::m3u::{opt_chars, ParsedChannel};
use crate::text::{chars_of, push_char, str_eq};

verus! {

broadcast use vstd::string::group_string_axioms;

/// A playlist row.
#[derive(Debug, Clone)]
pub struct Playlist {
    pub id: i64,
    pub name: String,
    pub source_type: String,
    pub source_url: String,
    pub xtream_base: Option<String>,
    pub created_at: i64,
}

/// A group row; `kind` is `live`, `vod` or `series`.
#[derive(Debug, Clone)]
pub struct Group {
    pub id: i64,
    pub playlist_id: i64,
    pub name: String,
    pub kind: String,
}

/// A channel row (live channel, VOD movie or series).
#[derive(Debug, Clone)]
pub struct Channel {
    pub id: i64,
    pub playlist_id: i64,
    pub group_id: Option<i64>,
    pub name: String,
    pub url: String,
    pub logo_url: Option<String>,
    pub tvg_id: Option<String>,
    pub tvg_chno: Option<i64>,
    pub kind: String,
    pub remote_id: Option<String>,
}

/// A cached series episode row.
#[derive(Debug, Clone)]
pub struct Episode {
    pub id: i64,
    pub channel_id: i64,
    pub season: i64,
    pub episode_num: i64,
    pub title: String,
    pub url: String,
    pub logo_url: Option<String>,
}

/// What an import added.
#[derive(Debug, Clone)]
pub struct ImportStats {
    pub channels: usize,
    pub groups: usize,
    pub vod: usize,
    pub series: usize,
}

/// One row ready for the unified importer (live / vod / series).
pub struct NewChannel {
    pub name: String,
    pub url: String,
    pub logo_url: Option<String>,
    pub tvg_id: Option<String>,
    pub tvg_chno: Option<i64>,
    pub kind: String,
    pub remote_id: Option<String>,
    pub group: Option<String>,
}

/// Model of a [`NewChannel`].
pub struct NewChannelView {
    pub name: Seq<char>,
    pub url: Seq<char>,
    pub logo_url: Option<Seq<char>>,
    pub tvg_id: Option<Seq<char>>,
    pub tvg_chno: Option<i64>,
    pub kind: Seq<char>,
    pub remote_id: Option<Seq<char>>,
    pub group: Option<Seq<char>>,
}

impl View for NewChannel {
    type V = NewChannelView;

    open spec fn view(&self) -> NewChannelView {
        NewChannelView {
            name: self.name@,
            url: self.url@,
            logo_url: opt_chars(self.logo_url),
            tvg_id: opt_chars(self.tvg_id),
            tvg_chno: self.tvg_chno,
            kind: self.kind@,
            remote_id: opt_chars(self.remote_id),
            group: opt_chars(self.group),
        }
    }
}

impl NewChannel {
    /// An M3U channel as a row of kind `live`, fields carried over.
    pub fn from_parsed(ch: ParsedChannel) -> (r: NewChannel)
        ensures
            r@ == (NewChannelView {
                name: ch@.name,
                url: ch@.url,
                logo_url: ch@.logo_url,
                tvg_id: ch@.tvg_id,
                tvg_chno: ch@.tvg_chno,
                kind: "live"@,
                remote_id: None,
                group: ch@.group,
            }),
    {
        NewChannel {
            name: ch.name,
            url: ch.url,
            logo_url: ch.logo_url,
            tvg_id: ch.tvg_id,
            tvg_chno: ch.tvg_chno,
            kind: String::from_str("live"),
            remote_id: None,
            group: ch.group,
        }
    }
}

impl From<ParsedChannel> for NewChannel {
    /// See [`NewChannel::from_parsed`], which states what the conversion
    /// gives.
    fn from(ch: ParsedChannel) -> (r: NewChannel) {
        NewChannel::from_parsed(ch)
    }
}

impl vstd::std_specs::convert::FromSpecImpl<ParsedChannel> for NewChannel {
    /// The conversion is specified on [`NewChannel::from_parsed`] (over
    /// views), not here.
    open spec fn obeys_from_spec() -> bool {
        false
    }

    open spec fn from_spec(v: ParsedChannel) -> NewChannel {
        vstd::pervasive::arbitrary()
    }
}

/// How many rows of `items` have kind `kind`.
pub open spec fn count_kind(items: Seq<NewChannel>, kind: Seq<char>) -> nat
    decreases items.len(),
{
    if items.len() == 0 {
        0
    } else {
        count_kind(items.drop_last(), kind) + if items.last().kind@ == kind {
            1nat
        } else {
            0nat
        }
    }
}

/// The statistics of an import of `items` that created `groups_created`
/// groups: rows per kind, and the new groups.
pub fn import_stats(items: &Vec<NewChannel>, groups_created: usize) -> (r: ImportStats)
    ensures
        r.channels == count_kind(items@, "live"@),
        r.vod == count_kind(items@, "vod"@),
        r.series == count_kind(items@, "series"@),
        r.groups == groups_created,
{
    let mut live: usize = 0;
    let mut vod: usize = 0;
    let mut series: usize = 0;
    let mut i: usize = 0;
    while i < items.len()
        invariant
            0 <= i <= items@.len(),
            live == count_kind(items@.take(i as int), "live"@),
            vod == count_kind(items@.take(i as int), "vod"@),
            series == count_kind(items@.take(i as int), "series"@),
            live <= i,
            vod <= i,
            series <= i,
        decreases items.len() - i,
    {
        assert(items@.take(i + 1).drop_last() =~= items@.take(i as int));
        assert(items@.take(i + 1).last() == items@[i as int]);
        let k = items[i].kind.as_str();
        if str_eq(k, "live") {
            live = live + 1;
        }
        if str_eq(k, "vod") {
            vod = vod + 1;
        }
        if str_eq(k, "series") {
            series = series + 1;
        }
        i = i + 1;
    }
    assert(items@.take(items@.len() as int) =~= items@);
    ImportStats { channels: live, groups: groups_created, vod, series }
}

/// Group ids already known for a playlist, keyed by (kind, name): VOD and
/// series may share category names with live channels.
pub struct GroupIndex {
    pub entries: Vec<(i64, String, String)>,
}

/// The id of the first entry with this kind and name.
pub open spec fn group_lookup(es: Seq<(i64, String, String)>, kind: Seq<char>, name: Seq<char>) -> Option<
    i64,
>
    decreases es.len(),
{
    if es.len() == 0 {
        None
    } else if es[0].1@ == kind && es[0].2@ == name {
        Some(es[0].0)
    } else {
        group_lookup(es.drop_first(), kind, name)
    }
}

impl GroupIndex {
    /// The group id for `(kind, name)`, if known.
    pub fn find(&self, kind: &str, name: &str) -> (r: Option<i64>)
        ensures
            r == group_lookup(self.entries@, kind@, name@),
    {
        let mut i: usize = 0;
        assert(self.entries@.skip(0) =~= self.entries@);
        while i < self.entries.len()
            invariant
                0 <= i <= self.entries@.len(),
                group_lookup(self.entries@, kind@, name@) == group_lookup(
                    self.entries@.skip(i as int),
                    kind@,
                    name@,
                ),
            decreases self.entries.len() - i,
        {
            assert(self.entries@.skip(i as int).drop_first() =~= self.entries@.skip(i + 1));
            assert(self.entries@.skip(i as int)[0] == self.entries@[i as int]);
            let e = &self.entries[i];
            if str_eq(e.1.as_str(), kind) && str_eq(e.2.as_str(), name) {
                return Some(e.0);
            }
            i = i + 1;
        }
        None
    }

    /// Records a new group.
    pub fn add(&mut self, id: i64, kind: String, name: String)
        ensures
            final(self).entries@ == old(self).entries@.push((id, kind, name)),
    {
        self.entries.push((id, kind, name));
    }
}

/// A newly recorded group is found under its (kind, name) unless one was
/// known already; other lookups are unchanged.
pub proof fn lemma_group_lookup_push(es: Seq<(i64, String, String)>, e: (i64, String, String), kind: Seq<
    char,
>, name: Seq<char>)
    ensures
        group_lookup(es.push(e), kind, name) == match group_lookup(es, kind, name) {
            Some(id) => Some(id),
            None => if e.1@ == kind && e.2@ == name {
                Some(e.0)
            } else {
                None
            },
        },
    decreases es.len(),
{
    let p = es.push(e);
    if es.len() > 0 {
        assert(p.drop_first() =~= es.drop_first().push(e));
        assert(p[0] == es[0]);
        lemma_group_lookup_push(es.drop_first(), e, kind, name);
        if es[0].1@ == kind && es[0].2@ == name {
            assert(group_lookup(p, kind, name) == Some(es[0].0));
            assert(group_lookup(es, kind, name) == Some(es[0].0));
        } else {
            assert(group_lookup(p, kind, name) == group_lookup(p.drop_first(), kind, name));
            assert(group_lookup(es, kind, name) == group_lookup(es.drop_first(), kind, name));
        }
    } else {
        assert(p.drop_first() =~= Seq::<(i64, String, String)>::empty());
        assert(p[0] == e);
        assert(group_lookup(p.drop_first(), kind, name) is None);
    }
}

/// `text` as a `LIKE` pattern matching it anywhere: `\`, `%` and `_` are
/// escaped with `\`, and the whole is wrapped in `%`.
pub open spec fn like_escape(s: Seq<char>) -> Seq<char>
    decreases s.len(),
{
    if s.len() == 0 {
        Seq::empty()
    } else {
        let c = s.last();
        like_escape(s.drop_last()) + if c == '\\' || c == '%' || c == '_' {
            seq!['\\', c]
        } else {
            seq![c]
        }
    }
}

/// Case-insensitive substring search pattern, with `%` and `_` escaped.
pub fn like_pattern(query: &str) -> (r: String)
    ensures
        r@ == seq!['%'] + like_escape(query@) + seq!['%'],
{
    let v = chars_of(query);
    let mut s = String::new();
    push_char(&mut s, '%');
    let mut i: usize = 0;
    while i < v.len()
        invariant
            0 <= i <= v@.len(),
            v@ == query@,
            s@ == seq!['%'] + like_escape(v@.take(i as int)),
        decreases v.len() - i,
    {
        assert(v@.take(i + 1).drop_last() =~= v@.take(i as int));
        let c = v[i];
        if c == '\\' || c == '%' || c == '_' {
            push_char(&mut s, '\\');
        }
        push_char(&mut s, c);
        assert(s@ =~= seq!['%'] + like_escape(v@.take(i + 1)));
        i = i + 1;
    }
    assert(v@.take(v@.len() as int) =~= v@);
    push_char(&mut s, '%');
    s
}

/// Xtream base/user/pass for a playlist, when all three are stored.
pub fn xtream_creds(base: Option<String>, user: Option<String>, pass: Option<String>) -> (r: Option<
    (String, String, String),
>)
    ensures
        match (base, user, pass) {
            (Some(b), Some(u), Some(p)) => r == Some((b, u, p)),
            _ => r is None,
        },
{
    match (base, user, pass) {
        (Some(b), Some(u), Some(p)) => Some((b, u, p)),
        _ => None,
    }
}

} // verus!
