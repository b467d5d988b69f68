//! Rich presence ("Listening to ..." / "Watching ..."): the worker that
//! coalesces playback updates and decides what the chat client is shown.
//!
//! Updates flow even while the setting is off, so turning it on mid-track
//! shows the current item at once; the worker just does not transmit then.
//! Paused (or ended) playback shows nothing. Times are in milliseconds.

use vstd::prelude::*;
use crate::session::opt_str;
use crate::text::{byte_prefix, decimal, decimal_int, opt_chars, prefix_bytes, push_char, push_decimal, push_decimal_i64, push_str};

verus! {

/// Uploaded asset keys: the fallback large image and music badge, and the
/// badge on video activities.
pub const ASSET_LOGO: &'static str = "waverunner";
pub const ASSET_FILM: &'static str = "film";

/// Discord allows about five updates per 20 s; keep sends this far apart.
pub const MIN_SEND_GAP_MS: u64 = 2000;

/// A position this far off the transmitted progress anchor is a seek.
pub const SEEK_DRIFT_MS: i64 = 4000;

/// A duration report this far off the known one replaces it.
pub const DURATION_SLACK_MS: i64 = 2000;

#[derive(PartialEq, Eq, Structural, Clone, Copy)]
pub enum Kind {
    Music,
    Video,
}

/// What is playing, as the presence card shows it.
pub struct Media {
    pub kind: Kind,
    /// Bold line (track / movie / show title).
    pub details: String,
    /// Second line (artist / year / episode code and title).
    pub state: String,
    /// HTTPS art URL; none shows the uploaded logo.
    pub large_image: Option<String>,
    pub large_text: String,
    /// (label, url).
    pub button: Option<(String, String)>,
    pub duration_ms: i64,
    pub position_ms: i64,
    pub paused: bool,
}

/// An update from the player.
pub enum Msg {
    SetMedia(Media),
    Tick(Kind, i64),
    Pause(Kind, bool),
    Duration(Kind, i64),
    /// Held at the end of the queue: nothing is playing.
    SoftEnd(Kind),
    Stop(Kind),
    /// The setting flipped.
    Enabled,
}

/// The worker's state.
pub struct Worker {
    pub enabled: bool,
    pub desired: Option<Media>,
    /// Anchor (wall-clock ms) of the transmitted progress bar.
    pub shown_start_ms: Option<i64>,
    pub showing: bool,
    /// The card needs transmitting.
    pub dirty: bool,
}

pub open spec fn abs(v: int) -> int {
    if v < 0 {
        -v
    } else {
        v
    }
}

/// The desired media is of kind `kind`.
pub open spec fn desired_is(w: Worker, kind: Kind) -> bool {
    w.desired matches Some(m) && m.kind == kind
}

impl Worker {
    pub fn new(enabled: bool) -> (w: Worker)
        ensures
            w.enabled == enabled,
            w.desired is None,
            w.shown_start_ms is None,
            !w.showing,
            !w.dirty,
    {
        Worker { enabled, desired: None, shown_start_ms: None, showing: false, dirty: false }
    }

    /// Take one update at wall-clock time `now_ms`. Updates for another kind
    /// of media than the desired one are ignored.
    pub fn apply(&mut self, msg: Msg, now_ms: i64)
        ensures
            final(self).enabled == old(self).enabled,
            final(self).shown_start_ms == old(self).shown_start_ms,
            final(self).showing == old(self).showing,
            match msg {
                Msg::SetMedia(m) => final(self).desired == Some(m) && final(self).dirty,
                Msg::Enabled => final(self).desired == old(self).desired && final(self).dirty,
                Msg::Tick(kind, pos) => if desired_is(*old(self), kind) {
                    let m = old(self).desired->0;
                    let seek = !m.paused && (old(self).shown_start_ms matches Some(start)
                        && abs(pos - (now_ms - start)) > SEEK_DRIFT_MS);
                    &&& final(self).desired == Some(Media { position_ms: pos, ..m })
                    &&& final(self).dirty == (old(self).dirty || seek)
                } else {
                    final(self).desired == old(self).desired && final(self).dirty == old(self).dirty
                },
                Msg::Pause(kind, p) => if desired_is(*old(self), kind) && old(self).desired->0.paused != p {
                    final(self).desired == Some(Media { paused: p, ..old(self).desired->0 }) && final(self).dirty
                } else {
                    final(self).desired == old(self).desired && final(self).dirty == old(self).dirty
                },
                Msg::Duration(kind, d) => if desired_is(*old(self), kind) && d > 0 && abs(d - old(self).desired->0.duration_ms) > DURATION_SLACK_MS {
                    final(self).desired == Some(Media { duration_ms: d, ..old(self).desired->0 }) && final(self).dirty
                } else {
                    final(self).desired == old(self).desired && final(self).dirty == old(self).dirty
                },
                Msg::SoftEnd(kind) => if desired_is(*old(self), kind) && !old(self).desired->0.paused {
                    final(self).desired == Some(Media { paused: true, ..old(self).desired->0 }) && final(self).dirty
                } else {
                    final(self).desired == old(self).desired && final(self).dirty == old(self).dirty
                },
                Msg::Stop(kind) => if desired_is(*old(self), kind) {
                    final(self).desired is None && final(self).dirty
                } else {
                    final(self).desired == old(self).desired && final(self).dirty == old(self).dirty
                },
            },
    {
        match msg {
            Msg::SetMedia(m) => {
                self.desired = Some(m);
                self.dirty = true;
            },
            Msg::Enabled => {
                self.dirty = true;
            },
            Msg::Tick(kind, pos) => {
                let start = self.shown_start_ms;
                if let Some(mut m) = self.desired.take() {
                    if m.kind == kind {
                        m.position_ms = pos;
                        if !m.paused {
                            if let Some(s) = start {
                                let expected = (now_ms as i128) - (s as i128);
                                let d = (pos as i128) - expected;
                                let drift = if d < 0 {
                                    -d
                                } else {
                                    d
                                };
                                if drift > SEEK_DRIFT_MS as i128 {
                                    self.dirty = true;
                                }
                            }
                        }
                    }
                    self.desired = Some(m);
                }
            },
            Msg::Pause(kind, p) => {
                if let Some(mut m) = self.desired.take() {
                    if m.kind == kind && m.paused != p {
                        m.paused = p;
                        self.dirty = true;
                    }
                    self.desired = Some(m);
                }
            },
            Msg::Duration(kind, d) => {
                if let Some(mut m) = self.desired.take() {
                    let diff = (d as i128) - (m.duration_ms as i128);
                    let far = diff > DURATION_SLACK_MS as i128 || diff < -(DURATION_SLACK_MS as i128);
                    if m.kind == kind && d > 0 && far {
                        m.duration_ms = d;
                        self.dirty = true;
                    }
                    self.desired = Some(m);
                }
            },
            Msg::SoftEnd(kind) => {
                if let Some(mut m) = self.desired.take() {
                    if m.kind == kind && !m.paused {
                        m.paused = true;
                        self.dirty = true;
                    }
                    self.desired = Some(m);
                }
            },
            Msg::Stop(kind) => {
                let matches = match &self.desired {
                    Some(m) => m.kind == kind,
                    None => false,
                };
                if matches {
                    self.desired = None;
                    self.dirty = true;
                }
            },
        }
    }

    /// The setting flipped: remember it and retransmit.
    pub fn set_enabled(&mut self, enabled: bool)
        ensures
            final(self).enabled == enabled,
            final(self).dirty,
            final(self).desired == old(self).desired,
            final(self).showing == old(self).showing,
            final(self).shown_start_ms == old(self).shown_start_ms,
    {
        self.enabled = enabled;
        self.apply(Msg::Enabled, 0);
    }

    /// No update for a heartbeat period: re-assert what should be shown.
    pub fn heartbeat(&mut self)
        ensures
            final(self).dirty == (old(self).dirty || old(self).desired is Some),
            final(self).desired == old(self).desired,
            final(self).enabled == old(self).enabled,
            final(self).showing == old(self).showing,
            final(self).shown_start_ms == old(self).shown_start_ms,
    {
        if self.desired.is_some() {
            self.dirty = true;
        }
    }
}

/// How long to hold a send after one `elapsed_ms` ago: the rest of the
/// minimum gap, or nothing.
pub fn send_wait_ms(elapsed_ms: Option<u64>) -> (r: Option<u64>)
    ensures
        r == match elapsed_ms {
            Some(e) => if e < MIN_SEND_GAP_MS { Some((MIN_SEND_GAP_MS - e) as u64) } else { None },
            None => None,
        },
{
    match elapsed_ms {
        Some(e) => if e < MIN_SEND_GAP_MS {
            Some(MIN_SEND_GAP_MS - e)
        } else {
            None
        },
        None => None,
    }
}

/// The card to set.
pub struct ActivityPlan {
    /// "Listening to" (music) or "Watching" (video); the member list shows
    /// the state line for music and the details line for video.
    pub kind: Kind,
    pub details: Option<String>,
    pub state: Option<String>,
    pub large_image: String,
    pub small_image: String,
    pub large_text: Option<String>,
    /// Progress bar (start, end), wall-clock ms.
    pub timestamps: Option<(i64, i64)>,
    pub button: Option<(String, String)>,
}

/// What the transmitter does now.
pub enum Transmit {
    /// Nothing to send.
    Idle,
    /// Take the card down.
    Clear,
    /// Set this card (connecting first when needed).
    Send(ActivityPlan),
}

/// A one-character line is padded with a space (the service rejects
/// one-character strings); an empty line is left out.
pub open spec fn padded_line(s: Seq<char>) -> Option<Seq<char>> {
    if s.len() == 0 {
        None
    } else if s.len() == 1 && (s[0] as u32) < 128 {
        Some(s.push(' '))
    } else {
        Some(s)
    }
}

fn pad_line(s: &String) -> (r: Option<String>)
    ensures
        opt_str(r) == padded_line(s@),
{
    let n = s.unicode_len();
    if n == 0 {
        None
    } else if n == 1 && (s.get_char(0) as u32) < 128 {
        let mut t = s.clone();
        crate::text::push_char(&mut t, ' ');
        Some(t)
    } else {
        Some(s.clone())
    }
}

/// The progress anchor for media `m` at `now`: playing media with a known
/// duration started `position` ago.
pub open spec fn anchor(m: Media, now_ms: int) -> Option<int> {
    if !m.paused && m.duration_ms > 0 {
        Some(now_ms - m.position_ms)
    } else {
        None
    }
}

/// The progress bar (start, end) for media `m` at `now`, when it has an
/// anchor and both ends fit in the 64-bit range.
pub open spec fn progress_bar(m: Media, now_ms: int) -> Option<(i64, i64)> {
    match anchor(m, now_ms) {
        Some(s) => {
            let e = s + m.duration_ms;
            if i64::MIN <= s <= i64::MAX && i64::MIN <= e <= i64::MAX {
                Some((s as i64, e as i64))
            } else {
                None
            }
        },
        None => None,
    }
}

impl Worker {
    /// Decide what to transmit at wall-clock `now_ms`. Nothing when clean;
    /// when the client id is not `configured`, the change is dropped; while
    /// `cooling_down` after a failure it waits (staying dirty). With nothing
    /// to show (disabled, or no playing media) a showing card is cleared and
    /// the change is done. Otherwise the card for the desired media is set.
    pub fn transmit_step(&mut self, configured: bool, cooling_down: bool, now_ms: i64) -> (r: Transmit)
        ensures
            final(self).desired == old(self).desired,
            final(self).enabled == old(self).enabled,
            ({
                let show = old(self).enabled && (old(self).desired matches Some(m) && !m.paused);
                if !old(self).dirty || cooling_down && configured {
                    r is Idle && *final(self) == *old(self)
                } else if !configured {
                    r is Idle && !final(self).dirty && final(self).showing == old(self).showing
                        && final(self).shown_start_ms == old(self).shown_start_ms
                } else if !show {
                    &&& (r is Clear) == old(self).showing
                    &&& (r is Idle) == !old(self).showing
                    &&& !final(self).dirty && !final(self).showing
                    &&& final(self).shown_start_ms == if old(self).showing { None } else { old(self).shown_start_ms }
                } else {
                    let m = old(self).desired->0;
                    &&& *final(self) == *old(self)
                    &&& r matches Transmit::Send(p) && {
                        &&& p.kind == m.kind
                        &&& opt_str(p.details) == padded_line(m.details@)
                        &&& opt_str(p.state) == padded_line(m.state@)
                        &&& p.large_image@ == match m.large_image {
                            Some(u) => u@,
                            None => ASSET_LOGO@,
                        }
                        &&& p.small_image@ == if m.kind == Kind::Music { ASSET_LOGO@ } else { ASSET_FILM@ }
                        &&& opt_str(p.large_text) == if m.large_text@.len() == 0 { None } else { Some(m.large_text@) }
                        &&& p.timestamps == progress_bar(m, now_ms as int)
                        &&& p.button == m.button
                    }
                }
            }),
    {
        if !self.dirty {
            return Transmit::Idle;
        }
        if !configured {
            self.dirty = false;
            return Transmit::Idle;
        }
        if cooling_down {
            return Transmit::Idle;
        }
        let show = self.enabled && match &self.desired {
            Some(m) => !m.paused,
            None => false,
        };
        if !show {
            let r = if self.showing {
                self.showing = false;
                self.shown_start_ms = None;
                Transmit::Clear
            } else {
                Transmit::Idle
            };
            self.dirty = false;
            return r;
        }
        let m = self.desired.as_ref().unwrap();
        let timestamps = if !m.paused && m.duration_ms > 0 {
            let start = (now_ms as i128) - (m.position_ms as i128);
            let end = start + (m.duration_ms as i128);
            if start >= i64::MIN as i128 && start <= i64::MAX as i128 && end <= i64::MAX as i128 && end >= i64::MIN as i128 {
                Some((start as i64, end as i64))
            } else {
                None
            }
        } else {
            None
        };
        let large_image = match &m.large_image {
            Some(u) => u.clone(),
            None => ASSET_LOGO.to_string(),
        };
        let small_image = match m.kind {
            Kind::Music => ASSET_LOGO.to_string(),
            Kind::Video => ASSET_FILM.to_string(),
        };
        let large_text = if m.large_text.unicode_len() == 0 {
            None
        } else {
            Some(m.large_text.clone())
        };
        let button = match &m.button {
            Some((l, u)) => Some((l.clone(), u.clone())),
            None => None,
        };
        Transmit::Send(
            ActivityPlan {
                kind: m.kind,
                details: pad_line(&m.details),
                state: pad_line(&m.state),
                large_image,
                small_image,
                large_text,
                timestamps,
                button,
            },
        )
    }

    /// The card was set (`ok`) with progress anchor `start_ms`, or setting it
    /// failed and the connection is gone.
    pub fn sent(&mut self, ok: bool, start_ms: Option<i64>)
        ensures
            final(self).desired == old(self).desired,
            final(self).enabled == old(self).enabled,
            ok ==> final(self).showing && final(self).shown_start_ms == start_ms && !final(self).dirty,
            !ok ==> !final(self).showing && final(self).shown_start_ms is None && final(self).dirty == old(self).dirty,
    {
        if ok {
            self.showing = true;
            self.shown_start_ms = start_ms;
            self.dirty = false;
        } else {
            self.showing = false;
            self.shown_start_ms = None;
        }
    }
}

// ---------------------------------------------------------------------------
// What the card says about a track, a movie or an episode
// ---------------------------------------------------------------------------

/// `names` joined with ", ".
pub open spec fn join_comma(names: Seq<Seq<char>>) -> Seq<char>
    decreases names.len(),
{
    if names.len() == 0 {
        Seq::empty()
    } else if names.len() == 1 {
        names[0]
    } else {
        join_comma(names.drop_last()) + ", "@ + names.last()
    }
}

/// The artist line of a track: its credited names joined, else its artist
/// tag when that is not empty. `None`: fall back to the album's first
/// credited artist.
pub fn track_artist(credits: &[String], tag: Option<String>) -> (r: Option<String>)
    ensures
        opt_str(r) == if credits@.len() > 0 {
            Some(join_comma(credits@.map_values(|x: String| x@)))
        } else {
            match tag {
                Some(t) => if t@.len() > 0 {
                    Some(t@)
                } else {
                    None
                },
                None => None,
            }
        },
{
    let ghost names = credits@.map_values(|x: String| x@);
    if credits.len() > 0 {
        let mut out = credits[0].clone();
        let mut i: usize = 1;
        proof {
            assert(names.take(1) =~= seq![names[0]]);
        }
        while i < credits.len()
            invariant
                1 <= i <= credits@.len(),
                names == credits@.map_values(|x: String| x@),
                out@ == join_comma(names.take(i as int)),
            decreases credits.len() - i,
        {
            push_str(&mut out, ", ");
            push_str(&mut out, credits[i].as_str());
            proof {
                reveal_strlit(", ");
                let t = names.take(i as int + 1);
                assert(t.drop_last() =~= names.take(i as int));
                assert(t.last() == credits@[i as int]@);
            }
            i += 1;
        }
        proof {
            assert(names.take(credits@.len() as int) =~= names);
        }
        Some(out)
    } else {
        match tag {
            Some(t) => if t.unicode_len() > 0 {
                Some(t)
            } else {
                None
            },
            None => None,
        }
    }
}

/// `v` clamped to the 64-bit range.
pub open spec fn clamp_i64(v: int) -> i64 {
    if v > i64::MAX {
        i64::MAX
    } else if v < i64::MIN {
        i64::MIN
    } else {
        v as i64
    }
}

fn scaled(v: i64, factor: i64) -> (r: i64)
    requires
        0 < factor <= 0x10000,
    ensures
        r == clamp_i64(v * factor),
{
    assert(-0x8000_0000_0000_0000_0000 <= (v as int) * (factor as int) <= 0x8000_0000_0000_0000_0000) by (nonlinear_arith)
        requires
            i64::MIN <= v <= i64::MAX,
            0 < factor <= 0x10000,
    ;
    let p: i128 = (v as i128) * (factor as i128);
    if p > i64::MAX as i128 {
        i64::MAX
    } else if p < i64::MIN as i128 {
        i64::MIN
    } else {
        p as i64
    }
}

/// Cover Art Archive front cover of a release group.
pub open spec fn caa_group_url(group: Seq<char>) -> Seq<char> {
    "https://coverartarchive.org/release-group/"@ + group + "/front-250"@
}

/// Cover Art Archive front cover of one release.
pub open spec fn caa_release_url_spec(release: Seq<char>) -> Seq<char> {
    "https://coverartarchive.org/release/"@ + release + "/front-250"@
}

pub open spec fn mb_group_url(group: Seq<char>) -> Seq<char> {
    "https://musicbrainz.org/release-group/"@ + group
}

pub open spec fn tmdb_page_url(kind: Seq<char>, id: Seq<char>) -> Seq<char> {
    "https://www.themoviedb.org/"@ + kind + "/"@ + id
}

pub open spec fn tmdb_detail_url_spec(kind: Seq<char>, id: Seq<char>) -> Seq<char> {
    "https://api.themoviedb.org/3/"@ + kind + "/"@ + id
}

pub open spec fn poster_url_spec(path: Seq<char>) -> Seq<char> {
    "https://image.tmdb.org/t/p/w342"@ + path
}

pub open spec fn opt_pair(b: Option<(String, String)>) -> Option<(Seq<char>, Seq<char>)> {
    match b {
        Some((l, u)) => Some((l@, u@)),
        None => None,
    }
}

fn concat3(a: &str, b: &str, c: &str) -> (r: String)
    ensures
        r@ == a@ + b@ + c@,
{
    let mut s = String::new();
    push_str(&mut s, a);
    push_str(&mut s, b);
    push_str(&mut s, c);
    s
}

/// The cover of release `release` (whether the archive has one is asked
/// of the network by the caller).
pub fn caa_release_url(release: &str) -> (r: String)
    ensures
        r@ == caa_release_url_spec(release@),
{
    proof {
        reveal_strlit("https://coverartarchive.org/release/");
        reveal_strlit("/front-250");
    }
    concat3("https://coverartarchive.org/release/", release, "/front-250")
}

/// The TMDB detail endpoint of title `id` of `kind` ("movie" | "tv").
pub fn tmdb_detail_url(kind: &str, id: &str) -> (r: String)
    ensures
        r@ == tmdb_detail_url_spec(kind@, id@),
{
    let mut s = String::new();
    push_str(&mut s, "https://api.themoviedb.org/3/");
    push_str(&mut s, kind);
    push_str(&mut s, "/");
    push_str(&mut s, id);
    s
}

/// A TMDB poster path as the image URL shown on the card.
pub fn poster_url(path: &str) -> (r: String)
    ensures
        r@ == poster_url_spec(path@),
{
    let mut s = String::new();
    push_str(&mut s, "https://image.tmdb.org/t/p/w342");
    push_str(&mut s, path);
    s
}

/// The "View on TMDB" button of a matched title (`kind`: "movie" | "tv");
/// none without a TMDB id.
pub open spec fn tmdb_button_spec(kind: Seq<char>, tmdb_id: Option<String>) -> Option<(Seq<char>, Seq<char>)> {
    match tmdb_id {
        Some(id) => if id@.len() > 0 {
            Some(("View on TMDB"@, tmdb_page_url(kind, id@)))
        } else {
            None
        },
        None => None,
    }
}

pub fn tmdb_button(kind: &str, tmdb_id: &Option<String>) -> (r: Option<(String, String)>)
    ensures
        opt_pair(r) == tmdb_button_spec(kind@, *tmdb_id),
{
    match tmdb_id {
        Some(id) => if id.unicode_len() > 0 {
            let mut u = String::new();
            push_str(&mut u, "https://www.themoviedb.org/");
            push_str(&mut u, kind);
            push_str(&mut u, "/");
            push_str(&mut u, id.as_str());
            Some((String::from_str("View on TMDB"), u))
        } else {
            None
        },
        None => None,
    }
}

/// The card of a track: title over artist, album as hover text, the
/// release's own cover when it has one, else its release group's, and a
/// MusicBrainz button when the album is matched. `runtime_s` is seconds.
pub fn music_media(
    title: String,
    artist: String,
    album_title: Option<String>,
    group_id: Option<String>,
    release_cover: Option<String>,
    runtime_s: Option<i64>,
) -> (m: Media)
    ensures
        m.kind == Kind::Music,
        m.details == title,
        m.state == artist,
        m.large_text@ == match album_title {
            Some(a) => a@,
            None => Seq::<char>::empty(),
        },
        opt_str(m.large_image) == match release_cover {
            Some(u) => Some(u@),
            None => match group_id {
                Some(g) => Some(caa_group_url(g@)),
                None => None,
            },
        },
        opt_pair(m.button) == match group_id {
            Some(g) => Some(("View on MusicBrainz"@, mb_group_url(g@))),
            None => None,
        },
        m.duration_ms == clamp_i64(
            match runtime_s {
                Some(v) => v as int,
                None => 0,
            } * 1000,
        ),
        m.position_ms == 0,
        !m.paused,
{
    let (group_image, button) = match &group_id {
        Some(g) => {
            let img = concat3("https://coverartarchive.org/release-group/", g.as_str(), "/front-250");
            let mut u = String::new();
            push_str(&mut u, "https://musicbrainz.org/release-group/");
            push_str(&mut u, g.as_str());
            (Some(img), Some((String::from_str("View on MusicBrainz"), u)))
        },
        None => (None, None),
    };
    let large_image = match release_cover {
        Some(u) => Some(u),
        None => group_image,
    };
    let large_text = match album_title {
        Some(a) => a,
        None => String::new(),
    };
    let secs: i64 = match runtime_s {
        Some(v) => v,
        None => 0,
    };
    Media {
        kind: Kind::Music,
        details: title,
        state: artist,
        large_image,
        large_text,
        button,
        duration_ms: scaled(secs, 1000),
        position_ms: 0,
        paused: false,
    }
}

/// The year line of a movie: the first four bytes of its release date,
/// else "Movie".
pub open spec fn movie_year(release_date: Option<String>) -> Seq<char> {
    match release_date {
        Some(d) => match byte_prefix(d@, 4) {
            Some(y) => y,
            None => "Movie"@,
        },
        None => "Movie"@,
    }
}

/// The card of a movie: title over year, "Title (year)" as hover text.
/// `poster` is the poster URL found for its TMDB id; `runtime_min` is
/// minutes.
pub fn movie_media(
    title: String,
    release_date: Option<String>,
    tmdb_id: Option<String>,
    poster: Option<String>,
    runtime_min: Option<i64>,
) -> (m: Media)
    ensures
        m.kind == Kind::Video,
        m.details == title,
        m.state@ == movie_year(release_date),
        m.large_text@ == title@ + " ("@ + movie_year(release_date) + ")"@,
        m.large_image == poster,
        opt_pair(m.button) == tmdb_button_spec("movie"@, tmdb_id),
        m.duration_ms == clamp_i64(
            match runtime_min {
                Some(v) => v as int,
                None => 0,
            } * 60000,
        ),
        m.position_ms == 0,
        !m.paused,
{
    let year = match &release_date {
        Some(d) => match prefix_bytes(d.as_str(), 4) {
            Some(y) => y,
            None => String::from_str("Movie"),
        },
        None => String::from_str("Movie"),
    };
    proof {
        reveal_strlit("Movie");
        reveal_strlit("movie");
    }
    let mut large_text = title.clone();
    push_str(&mut large_text, " (");
    push_str(&mut large_text, year.as_str());
    push_str(&mut large_text, ")");
    let button = tmdb_button("movie", &tmdb_id);
    let mins: i64 = match runtime_min {
        Some(v) => v,
        None => 0,
    };
    Media {
        kind: Kind::Video,
        details: title,
        state: year,
        large_image: poster,
        large_text,
        button,
        duration_ms: scaled(mins, 60000),
        position_ms: 0,
        paused: false,
    }
}

/// A number at least two digits wide (`{:02}`).
pub open spec fn pad2(n: int) -> Seq<char> {
    if 0 <= n < 10 {
        seq!['0'] + decimal(n as nat)
    } else {
        decimal_int(n)
    }
}

fn push_pad2(out: &mut String, n: i64)
    ensures
        final(out)@ == old(out)@ + pad2(n as int),
{
    if 0 <= n && n < 10 {
        push_char(out, '0');
        push_decimal(out, n as u64);
    } else {
        push_decimal_i64(out, n);
    }
}

/// An episode's code: "S01E02", or "E02" without a season, with "-03"
/// after it for a range; empty without an episode number.
pub open spec fn episode_code(season: Option<i64>, ep: Option<i64>, ep_end: Option<i64>) -> Seq<char> {
    let base = match (season, ep) {
        (Some(s), Some(e)) => "S"@ + pad2(s as int) + "E"@ + pad2(e as int),
        (None, Some(e)) => "E"@ + pad2(e as int),
        _ => Seq::empty(),
    };
    match (ep, ep_end) {
        (Some(e), Some(end)) => if end > e {
            base + "-"@ + pad2(end as int)
        } else {
            base
        },
        _ => base,
    }
}

/// The second line of an episode card: "code — title", or whichever of
/// the two there is.
pub open spec fn episode_line(code: Seq<char>, title: Seq<char>) -> Seq<char> {
    if code.len() > 0 && title.len() > 0 {
        code + " \u{2014} "@ + title
    } else if code.len() > 0 {
        code
    } else {
        title
    }
}

/// The card of an episode: show title over its code and title, the show as
/// hover text. `poster` is the poster URL found for the show's TMDB id;
/// `runtime_min` is minutes.
pub fn episode_media(
    show_title: String,
    tmdb_id: Option<String>,
    season: Option<i64>,
    ep: Option<i64>,
    ep_end: Option<i64>,
    ep_title: String,
    poster: Option<String>,
    runtime_min: Option<i64>,
) -> (m: Media)
    ensures
        m.kind == Kind::Video,
        m.details == show_title,
        m.state@ == episode_line(episode_code(season, ep, ep_end), ep_title@),
        m.large_text == show_title,
        m.large_image == poster,
        opt_pair(m.button) == tmdb_button_spec("tv"@, tmdb_id),
        m.duration_ms == clamp_i64(
            match runtime_min {
                Some(v) => v as int,
                None => 0,
            } * 60000,
        ),
        m.position_ms == 0,
        !m.paused,
{
    let mut code = String::new();
    match (season, ep) {
        (Some(s), Some(e)) => {
            push_str(&mut code, "S");
            push_pad2(&mut code, s);
            push_str(&mut code, "E");
            push_pad2(&mut code, e);
        },
        (None, Some(e)) => {
            push_str(&mut code, "E");
            push_pad2(&mut code, e);
        },
        _ => {},
    }
    match (ep, ep_end) {
        (Some(e), Some(end)) => if end > e {
            push_str(&mut code, "-");
            push_pad2(&mut code, end);
        },
        _ => {},
    }
    let state = if code.unicode_len() > 0 && ep_title.unicode_len() > 0 {
        let mut st = code.clone();
        push_str(&mut st, " \u{2014} ");
        push_str(&mut st, ep_title.as_str());
        st
    } else if code.unicode_len() > 0 {
        code
    } else {
        ep_title
    };
    proof {
        reveal_strlit("tv");
    }
    let button = tmdb_button("tv", &tmdb_id);
    let mins: i64 = match runtime_min {
        Some(v) => v,
        None => 0,
    };
    Media {
        kind: Kind::Video,
        details: show_title.clone(),
        state,
        large_image: poster,
        large_text: show_title,
        button,
        duration_ms: scaled(mins, 60000),
        position_ms: 0,
        paused: false,
    }
}

} // verus!
