//! Decisions of the ffmpeg-backed TS → HLS remux sessions: which stream a
//! namespace id names, the ffmpeg command line, what to do with an exited
//! session, which session to evict or reap, the stderr ring buffer, and
//! which segment names may be served.
use vstd::prelude::*;

use super::EPISODE_ID_OFFSET;
use crate::text::{chars_of, owned, push_char, str_eq};

verus! {

broadcast use vstd::string::group_string_axioms;

/// Maximum number of concurrent ffmpeg sessions; beyond this the least
/// recently used session is evicted (exited sessions first).
pub const MAX_SESSIONS: usize = 6;

/// Sessions idle for longer than this many milliseconds are killed.
pub const IDLE_TIMEOUT_MS: u64 = 60000;

/// How many stderr lines are kept per session.
pub const STDERR_LINES: usize = 20;

/// The row a stream namespace id refers to.
pub enum StreamSource {
    /// A channel, by its row id.
    Channel(i64),
    /// A series episode, by its row id.
    Episode(i64),
}

/// The row a namespace id refers to: ids at or above
/// [`EPISODE_ID_OFFSET`] are episodes (shifted back), smaller ones channels.
pub open spec fn source_of(id: u64) -> StreamSource {
    if id >= EPISODE_ID_OFFSET {
        StreamSource::Episode((id - EPISODE_ID_OFFSET) as i64)
    } else {
        StreamSource::Channel(id as i64)
    }
}

/// Episode ids (at or above [`EPISODE_ID_OFFSET`]) map back to the
/// episodes table; smaller ids are channels.
pub fn stream_source(id: u64) -> (r: StreamSource)
    ensures
        r == source_of(id),
{
    if id >= EPISODE_ID_OFFSET {
        StreamSource::Episode((id - EPISODE_ID_OFFSET) as i64)
    } else {
        StreamSource::Channel(id as i64)
    }
}

/// Channel ids and shifted episode ids never collide: a channel id (below
/// the offset) names its channel, and an episode id shifted into the
/// namespace (as the play payload does) names that episode again.
pub proof fn lemma_id_namespaces_disjoint(channel_id: u64, episode_id: u64)
    requires
        channel_id < EPISODE_ID_OFFSET,
        episode_id <= i64::MAX,
    ensures
        source_of(channel_id) == StreamSource::Channel(channel_id as i64),
        source_of((episode_id + EPISODE_ID_OFFSET) as u64) == StreamSource::Episode(episode_id as i64),
        channel_id != episode_id + EPISODE_ID_OFFSET,
{
}

/// Remux mode: "vod" and "episode" rows are files, everything else live.
pub fn is_file_kind(kind: &str) -> (r: bool)
    ensures
        r == (kind@ == "vod"@ || kind@ == "episode"@),
{
    str_eq(kind, "vod") || str_eq(kind, "episode")
}

/// The ffmpeg arguments for remuxing `url` into HLS: `segments` is the
/// segment file name pattern and `playlist` the playlist file. Files (`vod`)
/// are paced in real time and produce one complete playlist; live streams
/// keep a small sliding window. Only the first video and first audio stream
/// are kept (subtitle tracks cannot be muxed into HLS and would abort the
/// session). Video is copied untouched; audio is re-encoded to stereo AAC,
/// because no browser's Media Source Extensions decode the AC3/EAC3 audio
/// that IPTV streams commonly carry, so a plain `-c copy` remux would play
/// without sound.
pub open spec fn remux_args_spec(url: Seq<char>, vod: bool, segments: Seq<char>, playlist: Seq<char>) -> Seq<
    Seq<char>,
> {
    let pace = if vod {
        seq!["-re"@]
    } else {
        Seq::empty()
    };
    let common = seq![
        "-hide_banner"@,
        "-loglevel"@,
        "error"@,
        "-user_agent"@,
        "AndroIPTV/0.1.0"@,
        "-i"@,
        url,
        "-map"@,
        "0:v:0?"@,
        "-map"@,
        "0:a:0?"@,
        "-sn"@,
        "-c:v"@,
        "copy"@,
        "-c:a"@,
        "aac"@,
        "-ac"@,
        "2"@,
        "-b:a"@,
        "128k"@,
        "-f"@,
        "hls"@,
    ];
    let mode = if vod {
        seq![
            "-hls_time"@,
            "6"@,
            "-hls_list_size"@,
            "0"@,
            "-hls_playlist_type"@,
            "vod"@,
            "-hls_flags"@,
            "independent_segments"@,
        ]
    } else {
        seq![
            "-hls_time"@,
            "4"@,
            "-hls_list_size"@,
            "8"@,
            "-hls_flags"@,
            "delete_segments+independent_segments"@,
        ]
    };
    pace + common + mode + seq!["-hls_segment_filename"@, segments, playlist]
}

/// The texts of a list of strings.
pub open spec fn arg_texts(v: Seq<String>) -> Seq<Seq<char>> {
    v.map_values(|s: String| s@)
}

fn push_arg(args: &mut Vec<String>, a: &str)
    ensures
        arg_texts(final(args)@) == arg_texts(old(args)@).push(a@),
{
    let ghost before = args@;
    args.push(owned(a));
    assert(arg_texts(args@) =~= arg_texts(before).push(a@));
}

/// The ffmpeg command line (without the program) for a remux session.
pub fn remux_args(url: &str, vod: bool, segments: &str, playlist: &str) -> (r: Vec<String>)
    ensures
        arg_texts(r@) == remux_args_spec(url@, vod, segments@, playlist@),
{
    let mut a: Vec<String> = Vec::new();
    if vod {
        push_arg(&mut a, "-re");
    }
    push_arg(&mut a, "-hide_banner");
    push_arg(&mut a, "-loglevel");
    push_arg(&mut a, "error");
    push_arg(&mut a, "-user_agent");
    push_arg(&mut a, "AndroIPTV/0.1.0");
    push_arg(&mut a, "-i");
    push_arg(&mut a, url);
    push_arg(&mut a, "-map");
    push_arg(&mut a, "0:v:0?");
    push_arg(&mut a, "-map");
    push_arg(&mut a, "0:a:0?");
    push_arg(&mut a, "-sn");
    push_arg(&mut a, "-c:v");
    push_arg(&mut a, "copy");
    push_arg(&mut a, "-c:a");
    push_arg(&mut a, "aac");
    push_arg(&mut a, "-ac");
    push_arg(&mut a, "2");
    push_arg(&mut a, "-b:a");
    push_arg(&mut a, "128k");
    push_arg(&mut a, "-f");
    push_arg(&mut a, "hls");
    if vod {
        push_arg(&mut a, "-hls_time");
        push_arg(&mut a, "6");
        push_arg(&mut a, "-hls_list_size");
        push_arg(&mut a, "0");
        push_arg(&mut a, "-hls_playlist_type");
        push_arg(&mut a, "vod");
        push_arg(&mut a, "-hls_flags");
        push_arg(&mut a, "independent_segments");
    } else {
        push_arg(&mut a, "-hls_time");
        push_arg(&mut a, "4");
        push_arg(&mut a, "-hls_list_size");
        push_arg(&mut a, "8");
        push_arg(&mut a, "-hls_flags");
        push_arg(&mut a, "delete_segments+independent_segments");
    }
    push_arg(&mut a, "-hls_segment_filename");
    push_arg(&mut a, segments);
    push_arg(&mut a, playlist);
    assert(arg_texts(a@) =~= remux_args_spec(url@, vod, segments@, playlist@));
    a
}

/// What happens to a session whose ffmpeg process has exited.
pub enum ExitedSession {
    /// A file remuxed to completion: keep serving the finished package.
    Keep,
    /// A file that died before completing: stop, with this message.
    Fail(String),
    /// A live stream: replace it with a fresh process.
    Replace,
}

/// The message for a file remux that died before its playlist completed.
pub open spec fn remux_failure_message(tail: Seq<char>) -> Seq<char> {
    if tail.len() == 0 {
        "ffmpeg exited before the stream was remuxed (no error output captured)"@
    } else {
        "ffmpeg exited before the stream was remuxed:\n"@ + tail
    }
}

/// Decides what to do with an exited session: `vod` says the stream is a
/// file, `complete` that its playlist ends with `#EXT-X-ENDLIST`, `tail`
/// is its captured stderr.
pub fn exited_session(vod: bool, complete: bool, tail: &str) -> (r: ExitedSession)
    ensures
        vod && complete ==> r == ExitedSession::Keep,
        vod && !complete ==> (r matches ExitedSession::Fail(m) && m@ == remux_failure_message(
            tail@,
        )),
        !vod ==> r == ExitedSession::Replace,
{
    if vod && complete {
        ExitedSession::Keep
    } else if vod {
        if tail.is_empty() {
            ExitedSession::Fail(
                String::from_str("ffmpeg exited before the stream was remuxed (no error output captured)"),
            )
        } else {
            let mut m = String::from_str("ffmpeg exited before the stream was remuxed:\n");
            m.append(tail);
            ExitedSession::Fail(m)
        }
    } else {
        ExitedSession::Replace
    }
}

/// A session considered for eviction: its id, whether its process is still
/// running, and when it was last accessed (a monotonic tick count).
pub struct EvictionCandidate {
    pub id: u64,
    pub alive: bool,
    pub last_access: u64,
}

/// Eviction order: exited sessions before running ones, then least
/// recently used first.
pub open spec fn evicts_before(a: EvictionCandidate, b: EvictionCandidate) -> bool {
    (!a.alive && b.alive) || (a.alive == b.alive && a.last_access < b.last_access)
}

/// The first candidate that no other candidate precedes in eviction order.
pub open spec fn is_victim(cs: Seq<EvictionCandidate>, i: int) -> bool {
    &&& 0 <= i < cs.len()
    &&& forall|j: int| 0 <= j < cs.len() ==> !evicts_before(#[trigger] cs[j], cs[i])
    &&& forall|j: int| 0 <= j < i ==> evicts_before(cs[i], #[trigger] cs[j])
}

/// Picks the session to evict when the store is full: `None` only when
/// there is no candidate.
pub fn eviction_victim(cs: &Vec<EvictionCandidate>) -> (r: Option<u64>)
    ensures
        cs@.len() == 0 <==> r is None,
        r matches Some(id) ==> exists|i: int| is_victim(cs@, i) && cs@[i].id == id,
{
    if cs.len() == 0 {
        return None;
    }
    let mut best: usize = 0;
    let mut k: usize = 1;
    while k < cs.len()
        invariant
            0 <= best < k <= cs@.len(),
            forall|j: int| 0 <= j < k ==> !evicts_before(#[trigger] cs@[j], cs@[best as int]),
            forall|j: int| 0 <= j < best ==> evicts_before(cs@[best as int], #[trigger] cs@[j]),
        decreases cs.len() - k,
    {
        let c = &cs[k];
        let b = &cs[best];
        if (!c.alive && b.alive) || (c.alive == b.alive && c.last_access < b.last_access) {
            best = k;
        }
        k = k + 1;
    }
    assert(is_victim(cs@, best as int));
    Some(cs[best].id)
}

/// What `ensure_session` finds registered for a namespace id.
pub enum SessionState {
    /// No session.
    Absent,
    /// A session whose ffmpeg process is still running.
    Running,
    /// A session whose process has exited: `complete` says its playlist
    /// ends with `#EXT-X-ENDLIST`, `tail` is its captured stderr.
    Exited { complete: bool, tail: String },
}

/// What `ensure_session` does.
pub enum SessionPlan {
    /// Keep serving the registered session.
    Keep,
    /// Give up with this message (a file remux that died before completing).
    Fail(String),
    /// Start a fresh ffmpeg process, after removing the exited session of
    /// this id (`replace`) and the session `evict` to make room.
    Start { replace: bool, evict: Option<u64> },
}

/// Decides `ensure_session` for a stream (`vod` for a file) whose session
/// is in `state`, while `registered` sessions exist; `candidates` are the
/// registered sessions (all of them when a new one is wanted and the store
/// is full), looked at only to make room for a new one. A full store always
/// evicts one, so it never holds more than [`MAX_SESSIONS`].
pub fn session_plan(state: SessionState, vod: bool, registered: usize, candidates: &Vec<
    EvictionCandidate,
>) -> (r: SessionPlan)
    requires
        state is Absent && registered >= MAX_SESSIONS ==> candidates@.len() == registered,
    ensures
        match state {
            SessionState::Running => r == SessionPlan::Keep,
            SessionState::Exited { complete, tail } => if !vod {
                r == (SessionPlan::Start { replace: true, evict: None })
            } else if complete {
                r == SessionPlan::Keep
            } else {
                r matches SessionPlan::Fail(m) && m@ == remux_failure_message(tail@)
            },
            SessionState::Absent => if registered < MAX_SESSIONS {
                r == (SessionPlan::Start { replace: false, evict: None })
            } else {
                &&& r matches SessionPlan::Start { replace, evict }
                &&& !replace
                &&& evict matches Some(id) && exists|i: int|
                    is_victim(candidates@, i) && candidates@[i].id == id
            },
        },
{
    match state {
        SessionState::Running => SessionPlan::Keep,
        SessionState::Exited { complete, tail } => match exited_session(vod, complete, tail.as_str()) {
            ExitedSession::Keep => SessionPlan::Keep,
            ExitedSession::Fail(m) => SessionPlan::Fail(m),
            ExitedSession::Replace => SessionPlan::Start { replace: true, evict: None },
        },
        SessionState::Absent => if registered < MAX_SESSIONS {
            SessionPlan::Start { replace: false, evict: None }
        } else {
            SessionPlan::Start { replace: false, evict: eviction_victim(candidates) }
        },
    }
}

/// The ids of the sessions idle for longer than [`IDLE_TIMEOUT_MS`]: each
/// entry is a session id and its idle time in milliseconds.
pub fn stale_sessions(idle: &Vec<(u64, u64)>) -> (r: Vec<u64>)
    ensures
        r@ == idle@.filter(|e: (u64, u64)| e.1 > IDLE_TIMEOUT_MS).map_values(|e: (u64, u64)| e.0),
{
    let mut out: Vec<u64> = Vec::new();
    let mut i: usize = 0;
    while i < idle.len()
        invariant
            0 <= i <= idle@.len(),
            out@ == idle@.take(i as int).filter(|e: (u64, u64)| e.1 > IDLE_TIMEOUT_MS).map_values(
                |e: (u64, u64)| e.0,
            ),
        decreases idle.len() - i,
    {
        proof {
            reveal_with_fuel(Seq::<_>::filter, 1);
        }
        assert(idle@.take(i + 1).drop_last() =~= idle@.take(i as int));
        let ghost before = out@;
        if idle[i].1 > IDLE_TIMEOUT_MS {
            out.push(idle[i].0);
        }
        assert(out@ =~= idle@.take(i + 1).filter(|e: (u64, u64)| e.1 > IDLE_TIMEOUT_MS).map_values(
            |e: (u64, u64)| e.0,
        ));
        i = i + 1;
    }
    assert(idle@.take(idle@.len() as int) =~= idle@);
    out
}

/// The last stderr lines of a session (at most [`STDERR_LINES`], oldest
/// first).
pub struct StderrRing {
    lines: Vec<String>,
}

/// `lines` after one more line arrives: the oldest is dropped once the
/// ring is full.
pub open spec fn ring_push(lines: Seq<Seq<char>>, line: Seq<char>) -> Seq<Seq<char>> {
    if lines.len() >= STDERR_LINES {
        lines.drop_first().push(line)
    } else {
        lines.push(line)
    }
}

/// The lines joined with `\n`.
pub open spec fn join_lines(lines: Seq<Seq<char>>) -> Seq<char>
    decreases lines.len(),
{
    if lines.len() == 0 {
        Seq::empty()
    } else if lines.len() == 1 {
        lines[0]
    } else {
        join_lines(lines.drop_last()) + seq!['\n'] + lines.last()
    }
}

/// The ring after `lines` arrived, in order, into an empty one.
pub open spec fn ring_after(lines: Seq<Seq<char>>) -> Seq<Seq<char>>
    decreases lines.len(),
{
    if lines.len() == 0 {
        Seq::empty()
    } else {
        ring_push(ring_after(lines.drop_last()), lines.last())
    }
}

/// The ring holds exactly the last [`STDERR_LINES`] lines that arrived
/// (all of them while fewer arrived), oldest first.
pub proof fn lemma_ring_keeps_last_lines(lines: Seq<Seq<char>>)
    ensures
        ring_after(lines) == if lines.len() <= STDERR_LINES {
            lines
        } else {
            lines.skip(lines.len() - STDERR_LINES)
        },
    decreases lines.len(),
{
    if lines.len() > 0 {
        let d = lines.drop_last();
        lemma_ring_keeps_last_lines(d);
        if d.len() < STDERR_LINES {
            assert(d.push(lines.last()) =~= lines);
        } else if d.len() == STDERR_LINES {
            assert(d.drop_first().push(lines.last()) =~= lines.skip(lines.len() - STDERR_LINES));
        } else {
            assert(d.skip(d.len() - STDERR_LINES).drop_first().push(lines.last()) =~= lines.skip(
                lines.len() - STDERR_LINES,
            ));
        }
    }
}

impl View for StderrRing {
    type V = Seq<Seq<char>>;

    closed spec fn view(&self) -> Seq<Seq<char>> {
        self.lines@.map_values(|s: String| s@)
    }
}

impl StderrRing {
    /// The ring never holds more than [`STDERR_LINES`] lines.
    pub closed spec fn wf(&self) -> bool {
        self.lines@.len() <= STDERR_LINES
    }

    /// An empty ring.
    pub fn new() -> (r: StderrRing)
        ensures
            r.wf(),
            r@ == Seq::<Seq<char>>::empty(),
    {
        let r = StderrRing { lines: Vec::new() };
        assert(r@ =~= Seq::<Seq<char>>::empty());
        r
    }

    /// Records one stderr line, dropping the oldest when full.
    pub fn push(&mut self, line: String)
        requires
            old(self).wf(),
        ensures
            final(self).wf(),
            final(self)@ == ring_push(old(self)@, line@),
    {
        let ghost before = self@;
        if self.lines.len() >= STDERR_LINES {
            self.lines.remove(0);
        }
        self.lines.push(line);
        assert(self@ =~= ring_push(before, line@));
    }

    /// The captured lines joined with `\n` (most recent last).
    pub fn tail(&self) -> (r: String)
        ensures
            r@ == join_lines(self@),
    {
        let mut s = String::new();
        let mut i: usize = 0;
        while i < self.lines.len()
            invariant
                0 <= i <= self.lines@.len(),
                s@ == join_lines(self@.take(i as int)),
            decreases self.lines.len() - i,
        {
            let ghost pre = self@.take(i + 1);
            assert(pre.drop_last() =~= self@.take(i as int));
            if i > 0 {
                push_char(&mut s, '\n');
            }
            s.append(self.lines[i].as_str());
            assert(s@ =~= join_lines(pre));
            i = i + 1;
        }
        assert(self@.take(self@.len() as int) =~= self@);
        s
    }
}

/// Only plain file names are served as segments: not empty, not `.` or
/// `..`, and only ASCII letters, digits, `.`, `_` and `-`.
pub open spec fn valid_segment_name_spec(name: Seq<char>) -> bool {
    &&& name.len() > 0
    &&& name != seq!['.']
    &&& name != seq!['.', '.']
    &&& forall|i: int|
        0 <= i < name.len() ==> {
            let c = #[trigger] name[i];
            ('a' <= c && c <= 'z') || ('A' <= c && c <= 'Z') || ('0' <= c && c <= '9') || c == '.'
                || c == '_' || c == '-'
        }
}

/// A name accepted as a segment stays inside the session directory: it
/// names no parent or current directory and holds no path separator,
/// drive colon or whitespace.
pub proof fn lemma_segment_name_is_plain(name: Seq<char>)
    requires
        valid_segment_name_spec(name),
    ensures
        name.len() > 0,
        name != seq!['.', '.'],
        name != seq!['.'],
        forall|i: int|
            0 <= i < name.len() ==> #[trigger] name[i] != '/' && name[i] != '\\' && name[i] != ':'
                && name[i] != ' ',
{
    assert forall|i: int| 0 <= i < name.len() implies #[trigger] name[i] != '/' && name[i] != '\\'
        && name[i] != ':' && name[i] != ' ' by {
        let c = name[i];
        assert(('a' <= c && c <= 'z') || ('A' <= c && c <= 'Z') || ('0' <= c && c <= '9') || c == '.'
            || c == '_' || c == '-');
    }
}

/// Rejects any path traversal attempt ("..", slashes, backslashes,
/// colons, ...).
pub fn valid_segment_name(name: &str) -> (r: bool)
    ensures
        r == valid_segment_name_spec(name@),
{
    let v = chars_of(name);
    if v.len() == 0 {
        return false;
    }
    if v.len() == 1 && v[0] == '.' {
        assert(v@ =~= seq!['.']);
        return false;
    }
    if v.len() == 2 && v[0] == '.' && v[1] == '.' {
        assert(v@ =~= seq!['.', '.']);
        return false;
    }
    assert(v@ != seq!['.']) by {
        if v@.len() == 1 {
            assert(v@[0] != seq!['.'][0]);
        }
    }
    assert(v@ != seq!['.', '.']) by {
        if v@.len() == 2 {
            assert(v@[0] != '.' || v@[1] != '.');
        }
    }
    let mut i: usize = 0;
    while i < v.len()
        invariant
            v@ == name@,
            0 <= i <= v@.len(),
            forall|k: int|
                0 <= k < i ==> {
                    let c = #[trigger] v@[k];
                    ('a' <= c && c <= 'z') || ('A' <= c && c <= 'Z') || ('0' <= c && c <= '9') || c
                        == '.' || c == '_' || c == '-'
                },
        decreases v.len() - i,
    {
        let c = v[i];
        if !(('a' <= c && c <= 'z') || ('A' <= c && c <= 'Z') || ('0' <= c && c <= '9') || c == '.'
            || c == '_' || c == '-') {
            return false;
        }
        i = i + 1;
    }
    true
}

/// The bytes of `#EXT-X-ENDLIST`, the tag ffmpeg writes at the end of a
/// completed file remux.
pub open spec fn endlist_tag() -> Seq<u8> {
    seq![0x23u8, 0x45u8, 0x58u8, 0x54u8, 0x2du8, 0x58u8, 0x2du8, 0x45u8, 0x4eu8, 0x44u8, 0x4cu8,
        0x49u8, 0x53u8, 0x54u8]
}

/// `t` occurs in `s` at position `i`.
pub open spec fn bytes_at(s: Seq<u8>, t: Seq<u8>, i: int) -> bool {
    0 <= i && i + t.len() <= s.len() && s.subrange(i, i + t.len()) == t
}

/// Whether a session's playlist is complete: it holds `#EXT-X-ENDLIST`.
pub fn playlist_complete(playlist: &[u8]) -> (r: bool)
    ensures
        r == exists|i: int| bytes_at(playlist@, endlist_tag(), i),
{
    let tag: [u8; 14] = [0x23, 0x45, 0x58, 0x54, 0x2d, 0x58, 0x2d, 0x45, 0x4e, 0x44, 0x4c, 0x49, 0x53,
        0x54];
    assert(tag@ == endlist_tag());
    if playlist.len() < 14 {
        assert(forall|i: int| !bytes_at(playlist@, endlist_tag(), i));
        return false;
    }
    let last = playlist.len() - 14;
    let mut i: usize = 0;
    while i <= last
        invariant
            last == playlist@.len() - 14,
            playlist@.len() <= usize::MAX,
            tag@ == endlist_tag(),
            0 <= i <= last + 1,
            forall|k: int| 0 <= k < i ==> !bytes_at(playlist@, endlist_tag(), k),
        decreases last + 1 - i,
    {
        let mut m: usize = 0;
        while m < 14 && playlist[i + m] == tag[m]
            invariant
                i <= last,
                last == playlist@.len() - 14,
                i + 14 <= playlist@.len() <= usize::MAX,
                tag@ == endlist_tag(),
                0 <= m <= 14,
                forall|q: int| 0 <= q < m ==> playlist@[i + q] == tag@[q],
            decreases 14 - m,
        {
            m = m + 1;
        }
        if m == 14 {
            assert(playlist@.subrange(i as int, i + 14) =~= endlist_tag());
            assert(bytes_at(playlist@, endlist_tag(), i as int));
            return true;
        }
        assert(playlist@.subrange(i as int, i + 14)[m as int] != endlist_tag()[m as int]);
        i = i + 1;
    }
    assert(forall|k: int| i <= k ==> !bytes_at(playlist@, endlist_tag(), k));
    false
}

/// The file names the bundled ffmpeg binary may have beside the program,
/// for a build's target triple: the desktop name, the Android native-library
/// name, then a plain `ffmpeg`.
pub fn sidecar_names(triple: &str) -> (r: Vec<String>)
    ensures
        r@.len() == 3,
        r@[0]@ == "ffmpeg-"@ + triple@,
        r@[1]@ == "libffmpeg-"@ + triple@ + ".so"@,
        r@[2]@ == "ffmpeg"@,
{
    let mut desktop = String::from_str("ffmpeg-");
    desktop.append(triple);
    let mut android = String::from_str("libffmpeg-");
    android.append(triple);
    android.append(".so");
    let mut v: Vec<String> = Vec::new();
    v.push(desktop);
    v.push(android);
    v.push(String::from_str("ffmpeg"));
    v
}

/// The session evicted to make room: an exited session whenever there is
/// one, and among the sessions as alive as it, one accessed no later than
/// any other.
pub proof fn lemma_victim_is_exited_first_then_oldest(cs: Seq<EvictionCandidate>, v: int)
    requires
        is_victim(cs, v),
    ensures
        (exists|j: int| 0 <= j < cs.len() && !(#[trigger] cs[j]).alive) ==> !cs[v].alive,
        forall|j: int|
            0 <= j < cs.len() && (#[trigger] cs[j]).alive == cs[v].alive ==> cs[v].last_access
                <= cs[j].last_access,
{
    assert forall|j: int| 0 <= j < cs.len() && !(#[trigger] cs[j]).alive implies !cs[v].alive by {
        assert(!evicts_before(cs[j], cs[v]));
    }
    assert forall|j: int|
        0 <= j < cs.len() && (#[trigger] cs[j]).alive == cs[v].alive implies cs[v].last_access
        <= cs[j].last_access by {
        assert(!evicts_before(cs[j], cs[v]));
    }
}

/// A session is reaped exactly when it has been idle for more than a
/// minute (60000 ms): `r` as [`stale_sessions`] gives it holds exactly the
/// ids of such entries.
pub proof fn lemma_stale_means_idle_over_a_minute(idle: Seq<(u64, u64)>, r: Seq<u64>)
    requires
        r == idle.filter(|e: (u64, u64)| e.1 > IDLE_TIMEOUT_MS).map_values(|e: (u64, u64)| e.0),
    ensures
        forall|id: u64|
            #[trigger] r.contains(id) <==> exists|k: int|
                0 <= k < idle.len() && (#[trigger] idle[k]).0 == id && idle[k].1 > 60000,
{
    let f = |e: (u64, u64)| e.1 > IDLE_TIMEOUT_MS;
    let fl = idle.filter(f);
    idle.filter_lemma(f);
    assert forall|id: u64| #[trigger] r.contains(id) <==> exists|k: int|
        0 <= k < idle.len() && (#[trigger] idle[k]).0 == id && idle[k].1 > 60000 by {
        if r.contains(id) {
            let q = choose|q: int| 0 <= q < r.len() && r[q] == id;
            assert(fl.contains(fl[q]));
            idle.lemma_filter_contains_rev(f, fl[q]);
            assert(idle.contains(fl[q]));
            let k = choose|k: int| 0 <= k < idle.len() && idle[k] == fl[q];
            assert(idle[k].0 == id && idle[k].1 > 60000);
        }
        if exists|k: int| 0 <= k < idle.len() && (#[trigger] idle[k]).0 == id && idle[k].1 > 60000 {
            let k = choose|k: int| 0 <= k < idle.len() && (#[trigger] idle[k]).0 == id && idle[k].1
                > 60000;
            assert(f(idle[k]));
            assert(fl.contains(idle[k]));
            let q = choose|q: int| 0 <= q < fl.len() && fl[q] == idle[k];
            assert(r[q] == id);
        }
    }
}

/// The remux command reads `url` (`-i`), keeps the video as it is
/// (`-c:v copy`) and re-encodes the audio to AAC, and writes `playlist`
/// last, with its segments named by `segments`. A file is paced in real time
/// (`-re` before everything else) and written as one complete VOD playlist;
/// a live stream is not paced and keeps a window whose old segments are
/// deleted.
pub proof fn lemma_remux_command(url: Seq<char>, vod: bool, segments: Seq<char>, playlist: Seq<char>)
    ensures
        ({
            let a = remux_args_spec(url, vod, segments, playlist);
            let off: int = if vod {
                1
            } else {
                0
            };
            &&& a.len() == if vod {
                34int
            } else {
                31int
            }
            &&& vod ==> a[0] == "-re"@
            &&& a[off] == "-hide_banner"@
            &&& a[off + 5] == "-i"@ && a[off + 6] == url
            &&& a[off + 12] == "-c:v"@ && a[off + 13] == "copy"@
            &&& a[off + 14] == "-c:a"@ && a[off + 15] == "aac"@
            &&& vod ==> a[off + 26] == "-hls_playlist_type"@ && a[off + 27] == "vod"@
            &&& !vod ==> a[off + 26] == "-hls_flags"@ && a[off + 27]
                == "delete_segments+independent_segments"@
            &&& a[a.len() - 3] == "-hls_segment_filename"@
            &&& a[a.len() - 2] == segments
            &&& a[a.len() - 1] == playlist
        }),
{
}

} // verus!
