//! Fingerprinting a file by reading only what the fingerprint needs: the
//! container headers that locate the media region, then the first and last
//! chunk of that region (or of the whole file). The caller reads each range
//! asked for and hands the bytes back; the fingerprint that comes out is
//! the one `content_hash` describes for the whole file, so a scan costs a
//! few chunks of reads per file however large the file is.

use vstd::prelude::*;
use crate::content_hash::{
    be_val, container_of, container_spec, fingerprint_spec, flac_blocks, flac_region_spec, hex16, is_apetagex, is_flac_magic,
    is_id3, is_mdat, le32, le64, le64_bytes, lemma_be_bound, lemma_pow256_values, media_region_spec, mp3_region_spec,
    mp4_boxes, pair_view, push_hex, read_be, sample_spec, string_opt_view, syncsafe_at, syncsafe_spec, xxh3_64,
    xxh3_64_of, Container,
};
use crate::text::push_str;

verus! {

/// `w` is what `d` holds at `at..at + w.len()`.
pub open spec fn window(d: Seq<u8>, at: int, w: Seq<u8>) -> bool {
    0 <= at && at + w.len() <= d.len() && w == d.subrange(at, at + w.len())
}

pub open spec fn min_int(a: int, b: int) -> int {
    if a < b {
        a
    } else {
        b
    }
}

/// A file of `len` bytes seen through its first bytes `head` and its last
/// bytes `tail` (zero elsewhere).
pub open spec fn sparse(len: int, head: Seq<u8>, tail: Seq<u8>) -> Seq<u8> {
    Seq::new(
        len as nat,
        |i: int|
            if i < head.len() {
                head[i]
            } else if i >= len - tail.len() {
                tail[i - (len - tail.len())]
            } else {
                0u8
            },
    )
}

proof fn lemma_be_window(d: Seq<u8>, at: int, w: Seq<u8>, i: int, n: nat)
    requires
        window(d, at, w),
        at <= i,
        i + n <= at + w.len(),
    ensures
        be_val(d, i, n) == be_val(w, i - at, n),
    decreases n,
{
    if n > 0 {
        lemma_be_window(d, at, w, i, (n - 1) as nat);
        assert(d[i + n - 1] == w[i - at + n - 1]);
    }
}

/// The MP3 region depends only on the first 10 and the last 160 bytes.
proof fn lemma_mp3_windows(d: Seq<u8>, head: Seq<u8>, tail: Seq<u8>)
    requires
        d.len() >= 10,
        head.len() == 10,
        tail.len() == min_int(160, d.len() as int),
        window(d, 0, head),
        window(d, d.len() - tail.len(), tail),
    ensures
        mp3_region_spec(d) == mp3_region_spec(sparse(d.len() as int, head, tail)),
{
    let len = d.len() as int;
    let sp = sparse(len, head, tail);
    let t = tail.len() as int;
    assert forall|k: int| 0 <= k < 10 implies #[trigger] sp[k] == d[k] by {
        assert(head[k] == d[k]);
    }
    assert forall|k: int| len - t <= k < len implies #[trigger] sp[k] == d[k] by {
        if k >= 10 {
            assert(tail[k - (len - t)] == d[k]);
        } else {
            assert(head[k] == d[k]);
        }
    }
    assert(sp.len() == len);
    assert(is_id3(d, 0) == is_id3(sp, 0));
    assert(d[5] == sp[5]);
    assert(syncsafe_spec(d, 6) == syncsafe_spec(sp, 6)) by {
        assert(d[6] == sp[6] && d[7] == sp[7] && d[8] == sp[8] && d[9] == sp[9]);
    }
    if len >= 128 {
        assert(d[len - 128] == sp[len - 128]);
        assert(d[len - 127] == sp[len - 127]);
        assert(d[len - 126] == sp[len - 126]);
    }
    let end1: int = if len >= 128 && d[len - 128] == 0x54 && d[len - 127] == 0x41 && d[len - 126] == 0x47 {
        len - 128
    } else {
        len
    };
    if end1 >= 32 {
        let a = end1 - 32;
        assert(a >= len - t);
        assert forall|j: int| 0 <= j < 24 implies #[trigger] d[a + j] == sp[a + j] by {
            assert(sp[a + j] == d[a + j]);
        }
        assert(d[a] == sp[a] && d[a + 1] == sp[a + 1] && d[a + 2] == sp[a + 2] && d[a + 3] == sp[a + 3]);
        assert(d[a + 4] == sp[a + 4] && d[a + 5] == sp[a + 5] && d[a + 6] == sp[a + 6] && d[a + 7] == sp[a + 7]);
        assert(is_apetagex(d, a) == is_apetagex(sp, a));
        assert(d[a + 12] == sp[a + 12] && d[a + 13] == sp[a + 13] && d[a + 14] == sp[a + 14] && d[a + 15] == sp[a + 15]);
        assert(le32(d, a + 12) == le32(sp, a + 12));
        assert(d[a + 23] == sp[a + 23]);
    }
}

/// Byte `i` of the file seen through `head` and `tail`.
fn byte_at(len: u64, head: &[u8], tail: &[u8], i: u64) -> (b: u8)
    requires
        tail@.len() <= len,
        head@.len() <= 10,
        i < len,
        i < head@.len() || i >= len - tail@.len(),
    ensures
        b == sparse(len as int, head@, tail@)[i as int],
{
    if i < head.len() as u64 {
        head[i as usize]
    } else {
        tail[(i - (len - tail.len() as u64)) as usize]
    }
}

/// The MP3 region of a file of `len` bytes from its first 10 and last
/// `min(160, len)` bytes.
#[verifier::rlimit(60)]
fn mp3_windows(len: u64, head: &[u8], tail: &[u8]) -> (r: Option<(u64, u64)>)
    requires
        len >= 10,
        head@.len() == 10,
        tail@.len() == min_int(160, len as int),
    ensures
        pair_view(r) == mp3_region_spec(sparse(len as int, head@, tail@)),
{
    let ghost sp = sparse(len as int, head@, tail@);
    assert(sp.len() == len);
    let mut start: u64 = 0;
    if head[0] == 0x49 && head[1] == 0x44 && head[2] == 0x33 {
        let size = syncsafe_at(head, 6);
        proof {
            assert(sp[6] == head[6] && sp[7] == head[7] && sp[8] == head[8] && sp[9] == head[9]);
        }
        let footer: u64 = if head[5] & 0x10 != 0 {
            10
        } else {
            0
        };
        start = 10 + size + footer;
    }
    proof {
        assert(sp[0] == head[0] && sp[1] == head[1] && sp[2] == head[2] && sp[5] == head[5]);
        assert(sp[6] == head[6] && sp[7] == head[7] && sp[8] == head[8] && sp[9] == head[9]);
    }
    let mut end = len;
    if end >= 128 && byte_at(len, head, tail, end - 128) == 0x54 && byte_at(len, head, tail, end - 127) == 0x41
        && byte_at(len, head, tail, end - 126) == 0x47 {
        end = end - 128;
    }
    if end >= 32 {
        let a = end - 32;
        if byte_at(len, head, tail, a) == 0x41 && byte_at(len, head, tail, a + 1) == 0x50 && byte_at(len, head, tail, a + 2)
            == 0x45 && byte_at(len, head, tail, a + 3) == 0x54 && byte_at(len, head, tail, a + 4) == 0x41 && byte_at(
            len,
            head,
            tail,
            a + 5,
        ) == 0x47 && byte_at(len, head, tail, a + 6) == 0x45 && byte_at(len, head, tail, a + 7) == 0x58 {
            let tag_size = byte_at(len, head, tail, a + 12) as u64 + byte_at(len, head, tail, a + 13) as u64 * 256
                + byte_at(len, head, tail, a + 14) as u64 * 65536 + byte_at(len, head, tail, a + 15) as u64 * 16777216;
            let header: u64 = if byte_at(len, head, tail, a + 23) & 0x80 != 0 {
                32
            } else {
                0
            };
            let total = tag_size + header;
            end = if total >= end {
                0
            } else {
                end - total
            };
        }
    }
    if start < end && end <= len {
        Some((start, end))
    } else {
        None
    }
}

// ---------------------------------------------------------------------------
// The reading protocol
// ---------------------------------------------------------------------------

/// What the caller is asked to do next.
pub enum ReadStep {
    /// Read `len` bytes at offset `at` of the file and hand them to `feed`.
    Read { at: u64, len: u64 },
    /// The fingerprint is known (none for an empty file).
    Done(Option<String>),
}

enum Phase {
    /// Waiting for the first `min(10, len)` bytes.
    Head,
    /// MP3: have the first 10 bytes, waiting for the last `min(160, len)`.
    Mp3Tail(Vec<u8>),
    /// FLAC after an ID3v2 block: waiting for the 4 bytes at this offset.
    FlacMagic(u64),
    /// FLAC: waiting for the metadata block header at this offset.
    FlacWalk(u64),
    /// MP4: waiting for the box header at this offset.
    Mp4Walk(u64),
    /// Sampling `start..end` (media region when `true`): waiting for its
    /// first chunk.
    SampleHead(u64, u64, bool),
    /// Have the first chunk of `start..end`, waiting for the rest of the
    /// sample.
    SampleTail(u64, u64, bool, Vec<u8>),
    /// The fingerprint was given.
    Finished,
}

/// The state of reading a file for its fingerprint.
pub struct FingerprintReads {
    len: u64,
    chunk: u64,
    kind: Container,
    ext: Ghost<Option<Seq<char>>>,
    phase: Phase,
    want: Option<(u64, u64)>,
}

/// The container the fingerprint looks for, by extension.
pub open spec fn kind_of(ext: Option<Seq<char>>) -> Container {
    match ext {
        Some(e) => container_spec(e),
        None => Container::Other,
    }
}

/// How many bytes the first chunk of a `n`-byte span takes.
pub open spec fn first_len(n: int, chunk: int) -> int {
    if chunk < n {
        chunk
    } else {
        n
    }
}

/// The fingerprint that samples `s..e` of `d`: `a:` for a media region,
/// `f:` for the whole file.
pub open spec fn sampled(d: Seq<u8>, s: int, e: int, chunk: int, media: bool) -> Option<Seq<char>> {
    Some((if media { "a:"@ } else { "f:"@ }) + hex16(xxh3_64_of(sample_spec(d, s, e, chunk))))
}

/// A finished step gives the fingerprint of `d`.
pub open spec fn answers(s: ReadStep, d: Seq<u8>, ext: Option<Seq<char>>, chunk: int) -> bool {
    match s {
        ReadStep::Done(x) => string_opt_view(x) == fingerprint_spec(d, ext, chunk),
        ReadStep::Read { .. } => true,
    }
}

/// The largest read the protocol asks for.
pub open spec fn max_read(chunk: int) -> int {
    if chunk < 160 {
        160
    } else {
        chunk
    }
}

impl FingerprintReads {
    /// The file's length.
    pub closed spec fn file_len(&self) -> int {
        self.len as int
    }

    /// The chunk size.
    pub closed spec fn chunk_size(&self) -> int {
        self.chunk as int
    }

    /// The file's extension.
    pub closed spec fn extension(&self) -> Option<Seq<char>> {
        self.ext@
    }

    /// The read the state waits for: (offset, length).
    pub closed spec fn request(&self) -> Option<(int, int)> {
        match self.want {
            Some((a, n)) => Some((a as int, n as int)),
            None => None,
        }
    }

    /// The offset of the read the state waits for.
    pub closed spec fn request_at(&self) -> int {
        match self.want {
            Some((a, n)) => a as int,
            None => 0,
        }
    }

    /// The state's own consistency: the read it waits for fits its phase.
    pub closed spec fn wf(&self) -> bool {
        let len = self.len as int;
        let chunk = self.chunk as int;
        &&& self.kind == kind_of(self.ext@)
        &&& self.chunk <= 0x4000_0000_0000_0000
        &&& self.len > 0
        &&& match self.phase {
            Phase::Head => {
                &&& (self.kind == Container::Mp3 || self.kind == Container::Flac)
                &&& self.want == Some((0u64, min_int(10, len) as u64))
            },
            Phase::Mp3Tail(h) => {
                &&& self.kind == Container::Mp3
                &&& len >= 10
                &&& h@.len() == 10
                &&& self.want == Some(((len - min_int(160, len)) as u64, min_int(160, len) as u64))
            },
            Phase::FlacMagic(p) => {
                &&& self.kind == Container::Flac
                &&& p + 4 <= len
                &&& self.want == Some((p, 4u64))
            },
            Phase::FlacWalk(pos) => {
                &&& self.kind == Container::Flac
                &&& pos + 4 <= len
                &&& self.want == Some((pos, 4u64))
            },
            Phase::Mp4Walk(pos) => {
                &&& self.kind == Container::Mp4
                &&& pos + 8 <= len
                &&& self.want == Some((pos, min_int(16, len - pos) as u64))
            },
            Phase::SampleHead(s, e, media) => {
                &&& s < e <= len
                &&& self.want == Some((s, first_len(e - s, chunk) as u64))
            },
            Phase::SampleTail(s, e, media, h) => {
                &&& s < e <= len
                &&& e - s > chunk
                &&& h@.len() == chunk
                &&& self.want == Some(
                    if e - s > 2 * chunk {
                        ((e - chunk) as u64, chunk as u64)
                    } else {
                        ((s + chunk) as u64, (e - s - chunk) as u64)
                    },
                )
            },
            Phase::Finished => self.want is None,
        }
    }

    /// Every byte read so far is what file `d` holds there, and what is
    /// still to come leads to `d`'s fingerprint.
    pub closed spec fn follows(&self, d: Seq<u8>) -> bool {
        let chunk = self.chunk as int;
        &&& d.len() == self.len
        &&& match self.phase {
            Phase::Head => true,
            Phase::Mp3Tail(h) => window(d, 0, h@),
            Phase::FlacMagic(p) => flac_region_spec(d) == if is_flac_magic(d, p as int) {
                flac_blocks(d, p + 4)
            } else {
                None
            },
            Phase::FlacWalk(pos) => flac_region_spec(d) == flac_blocks(d, pos as int),
            Phase::Mp4Walk(pos) => mp4_boxes(d, 0) == mp4_boxes(d, pos as int),
            Phase::SampleHead(s, e, media) => fingerprint_spec(d, self.ext@, chunk) == sampled(d, s as int, e as int, chunk, media),
            Phase::SampleTail(s, e, media, h) => {
                &&& window(d, s as int, h@)
                &&& fingerprint_spec(d, self.ext@, chunk) == sampled(d, s as int, e as int, chunk, media)
            },
            Phase::Finished => true,
        }
    }

    /// After a step `s` the state follows `d` (while reading goes on) and a
    /// given fingerprint is `d`'s.
    pub open spec fn ok_after(&self, s: ReadStep, d: Seq<u8>) -> bool {
        &&& (s is Read ==> self.follows(d))
        &&& answers(s, d, self.extension(), self.chunk_size())
    }
}

fn append_bytes(out: &mut Vec<u8>, b: &[u8])
    ensures
        final(out)@ == old(out)@ + b@,
{
    let ghost start = out@;
    let mut i: usize = 0;
    while i < b.len()
        invariant
            i <= b@.len(),
            out@ == start + b@.take(i as int),
        decreases b.len() - i,
    {
        out.push(b[i]);
        i += 1;
        assert(out@ =~= start + b@.take(i as int));
    }
    assert(b@.take(b@.len() as int) =~= b@);
}

/// The fingerprint text of the sample made of the span length `n`, its
/// first chunk `a` and the rest `b` of the sample.
fn fingerprint_text(media: bool, n: u64, a: &[u8], b: &[u8]) -> (r: String)
    ensures
        r@ == (if media { "a:"@ } else { "f:"@ }) + hex16(xxh3_64_of(le64_bytes(n as nat) + a@ + b@)),
{
    let mut sample = le64(n);
    append_bytes(&mut sample, a);
    append_bytes(&mut sample, b);
    let h = xxh3_64(&sample);
    let mut out = String::new();
    if media {
        push_str(&mut out, "a:");
    } else {
        push_str(&mut out, "f:");
    }
    push_hex(&mut out, h, 16);
    proof {
        assert(out@ =~= (if media { "a:"@ } else { "f:"@ }) + hex16(xxh3_64_of(le64_bytes(n as nat) + a@ + b@)));
    }
    out
}

proof fn lemma_sample_parts(d: Seq<u8>, s: int, e: int, chunk: int, a: Seq<u8>, b: Seq<u8>)
    requires
        0 <= s < e <= d.len(),
        chunk >= 0,
        window(d, s, a),
        a.len() == first_len(e - s, chunk),
        b == (if e - s > 2 * chunk {
            d.subrange(e - chunk, e)
        } else if e - s > chunk {
            d.subrange(s + chunk, e)
        } else {
            Seq::<u8>::empty()
        }),
    ensures
        sample_spec(d, s, e, chunk) == le64_bytes((e - s) as nat) + a + b,
{
}

proof fn lemma_fallback(d: Seq<u8>, ext: Option<Seq<char>>, chunk: int)
    requires
        d.len() > 0,
        media_region_spec(d, ext) matches Some((s, e)) ==> e <= s,
    ensures
        fingerprint_spec(d, ext, chunk) == sampled(d, 0, d.len() as int, chunk, false),
{
}

proof fn lemma_region(d: Seq<u8>, ext: Option<Seq<char>>, chunk: int, s: int, e: int)
    requires
        d.len() > 0,
        media_region_spec(d, ext) == Some((s, e)),
        e > s,
    ensures
        fingerprint_spec(d, ext, chunk) == sampled(d, s, e, chunk, true),
{
}

impl FingerprintReads {
    /// Go on to sample `s..e`: ask for its first chunk.
    fn to_sample(&mut self, s: u64, e: u64, media: bool) -> (step: ReadStep)
        requires
            s < e <= old(self).len,
        ensures
            final(self).len == old(self).len,
            final(self).chunk == old(self).chunk,
            final(self).kind == old(self).kind,
            final(self).ext == old(self).ext,
            final(self).phase == Phase::SampleHead(s, e, media),
            final(self).want == Some((s, first_len(e - s, old(self).chunk as int) as u64)),
            step == (ReadStep::Read { at: s, len: first_len(e - s, old(self).chunk as int) as u64 }),
    {
        let n = e - s;
        let first = if self.chunk < n {
            self.chunk
        } else {
            n
        };
        self.phase = Phase::SampleHead(s, e, media);
        self.want = Some((s, first));
        ReadStep::Read { at: s, len: first }
    }

    /// Fall back to the whole file.
    fn to_whole_file(&mut self) -> (step: ReadStep)
        requires
            old(self).len > 0,
        ensures
            final(self).len == old(self).len,
            final(self).chunk == old(self).chunk,
            final(self).kind == old(self).kind,
            final(self).ext == old(self).ext,
            final(self).phase == Phase::SampleHead(0, old(self).len, false),
            final(self).want == Some((0u64, first_len(old(self).len as int, old(self).chunk as int) as u64)),
            step == (ReadStep::Read { at: 0, len: first_len(old(self).len as int, old(self).chunk as int) as u64 }),
    {
        let len = self.len;
        self.to_sample(0, len, false)
    }

    /// Walk FLAC metadata blocks from `pos`: ask for the block header, or
    /// fall back when none fits.
    fn to_flac_walk(&mut self, pos: u64) -> (step: ReadStep)
        requires
            old(self).len > 0,
        ensures
            final(self).len == old(self).len,
            final(self).chunk == old(self).chunk,
            final(self).kind == old(self).kind,
            final(self).ext == old(self).ext,
            pos + 4 > old(self).len ==> final(self).phase == Phase::SampleHead(0, old(self).len, false)
                && final(self).want == Some((0u64, first_len(old(self).len as int, old(self).chunk as int) as u64))
                && step == (ReadStep::Read { at: 0, len: first_len(old(self).len as int, old(self).chunk as int) as u64 }),
            pos + 4 <= old(self).len ==> final(self).phase == Phase::FlacWalk(pos) && final(self).want == Some((pos, 4u64))
                && step == (ReadStep::Read { at: pos, len: 4 }),
    {
        if pos > self.len || self.len - pos < 4 {
            self.to_whole_file()
        } else {
            self.phase = Phase::FlacWalk(pos);
            self.want = Some((pos, 4));
            ReadStep::Read { at: pos, len: 4 }
        }
    }

    /// Walk MP4 boxes from `pos`: ask for the box header, or fall back when
    /// none fits.
    fn to_mp4_walk(&mut self, pos: u64) -> (step: ReadStep)
        requires
            old(self).len > 0,
        ensures
            final(self).len == old(self).len,
            final(self).chunk == old(self).chunk,
            final(self).kind == old(self).kind,
            final(self).ext == old(self).ext,
            pos + 8 > old(self).len ==> final(self).phase == Phase::SampleHead(0, old(self).len, false)
                && final(self).want == Some((0u64, first_len(old(self).len as int, old(self).chunk as int) as u64))
                && step == (ReadStep::Read { at: 0, len: first_len(old(self).len as int, old(self).chunk as int) as u64 }),
            pos + 8 <= old(self).len ==> final(self).phase == Phase::Mp4Walk(pos)
                && final(self).want == Some((pos, min_int(16, old(self).len - pos) as u64))
                && step == (ReadStep::Read { at: pos, len: min_int(16, old(self).len - pos) as u64 }),
    {
        if pos > self.len || self.len - pos < 8 {
            self.to_whole_file()
        } else {
            let k: u64 = if self.len - pos < 16 {
                self.len - pos
            } else {
                16
            };
            self.phase = Phase::Mp4Walk(pos);
            self.want = Some((pos, k));
            ReadStep::Read { at: pos, len: k }
        }
    }

    /// Begin fingerprinting a file of `len` bytes with extension
    /// `extension` and chunk size `chunk`: the first step.
    pub fn start(len: u64, extension: Option<&str>, chunk: u64) -> (r: (FingerprintReads, ReadStep))
        requires
            chunk <= 0x4000_0000_0000_0000,
        ensures
            r.0.file_len() == len,
            r.0.chunk_size() == chunk,
            r.0.extension() == crate::content_hash::ext_view(extension),
            r.0.wf() || r.1 is Done,
            forall|d: Seq<u8>| d.len() == len ==> #[trigger] r.0.ok_after(r.1, d),
            r.1 matches ReadStep::Read { at, len: n } ==> r.0.request() == Some((at as int, n as int)) && at + n <= len
                && n <= max_read(chunk as int),
            r.1 is Done ==> r.0.request() is None,
    {
        let kind = match extension {
            Some(e) => container_of(e),
            None => Container::Other,
        };
        let ghost ext = crate::content_hash::ext_view(extension);
        let mut p = FingerprintReads { len, chunk, kind, ext: Ghost(ext), phase: Phase::Finished, want: None };
        if len == 0 {
            return (p, ReadStep::Done(None));
        }
        let step = match kind {
            Container::Mp3 | Container::Flac => {
                let h: u64 = if len < 10 {
                    len
                } else {
                    10
                };
                p.phase = Phase::Head;
                p.want = Some((0, h));
                ReadStep::Read { at: 0, len: h }
            },
            Container::Mp4 => p.to_mp4_walk(0),
            Container::Other => p.to_whole_file(),
        };
        proof {
            assert forall|d: Seq<u8>| d.len() == len implies #[trigger] p.ok_after(step, d) by {
                if kind == Container::Mp4 {
                    if len < 8 {
                        assert(mp4_boxes(d, 0) is None);
                        lemma_fallback(d, ext, chunk as int);
                    }
                } else if kind == Container::Other {
                    lemma_fallback(d, ext, chunk as int);
                }
            }
        }
        (p, step)
    }
}

/// One step of the protocol from `before` to `after`, having read `bytes`:
/// the file's length, chunk size and extension stay, the new state is
/// consistent, it follows every file that `before` followed and that holds
/// `bytes` where they were read, a given fingerprint is that file's, and a
/// new request fits the file and `max_read`.
spec fn stepped(before: FingerprintReads, after: FingerprintReads, bytes: Seq<u8>, step: ReadStep) -> bool {
    &&& after.len == before.len
    &&& after.chunk == before.chunk
    &&& after.kind == before.kind
    &&& after.ext == before.ext
    &&& after.wf()
    &&& forall|d: Seq<u8>| before.follows(d) && window(d, before.request_at(), bytes) ==> #[trigger] after.ok_after(step, d)
    &&& (step matches ReadStep::Read { at, len: n } ==> after.request() == Some((at as int, n as int)) && at + n <= after.len
        && n <= max_read(after.chunk as int))
    &&& (step is Done ==> after.request() is None)
}

impl FingerprintReads {
    /// Take the bytes read for the current request (`request`) and give the
    /// next step. Reads stay within the file and within `max_read`.
    pub fn feed(&mut self, bytes: &[u8]) -> (step: ReadStep)
        requires
            old(self).wf(),
            old(self).request() matches Some((at, n)) && bytes@.len() == n,
        ensures
            final(self).file_len() == old(self).file_len(),
            final(self).chunk_size() == old(self).chunk_size(),
            final(self).extension() == old(self).extension(),
            final(self).wf(),
            forall|d: Seq<u8>|
                old(self).follows(d) && window(d, old(self).request_at(), bytes@) ==> #[trigger] final(self).ok_after(step, d),
            step matches ReadStep::Read { at, len: n } ==> final(self).request() == Some((at as int, n as int)) && at + n
                <= final(self).file_len() && n <= max_read(final(self).chunk_size()),
            step is Done ==> final(self).request() is None,
    {
        let ghost old_self = *self;
        let mut phase = Phase::Finished;
        std::mem::swap(&mut phase, &mut self.phase);
        assert(phase == old_self.phase);
        let step = match phase {
            Phase::Head => self.feed_head(bytes, Ghost(old_self)),
            Phase::Mp3Tail(h) => self.feed_mp3_tail(bytes, h, Ghost(old_self)),
            Phase::FlacMagic(p) => self.feed_flac_magic(bytes, p, Ghost(old_self)),
            Phase::FlacWalk(pos) => self.feed_flac_walk(bytes, pos, Ghost(old_self)),
            Phase::Mp4Walk(pos) => self.feed_mp4_walk(bytes, pos, Ghost(old_self)),
            Phase::SampleHead(s, e, media) => self.feed_sample_head(bytes, s, e, media, Ghost(old_self)),
            Phase::SampleTail(s, e, media, h) => self.feed_sample_tail(bytes, s, e, media, h, Ghost(old_self)),
            Phase::Finished => {
                self.want = None;
                ReadStep::Done(None)
            },
        };
        proof {
            assert(stepped(old_self, *self, bytes@, step));
        }
        step
    }

    #[verifier::rlimit(40)]
    fn feed_head(&mut self, bytes: &[u8], Ghost(before): Ghost<FingerprintReads>) -> (step: ReadStep)
        requires
            before.wf(),
            before.phase == Phase::Head,
            old(self).len == before.len,
            old(self).chunk == before.chunk,
            old(self).kind == before.kind,
            old(self).ext == before.ext,
            before.request() matches Some((at, n)) && bytes@.len() == n,
        ensures
            stepped(before, *final(self), bytes@, step),
    {
        let ghost ext = before.ext@;
        let ghost ch = before.chunk as int;
        let len = self.len;
        let chunk = self.chunk;
        if self.kind == Container::Mp3 {
            if len < 10 {
                let step = self.to_whole_file();
                proof {
                    assert forall|d: Seq<u8>| before.follows(d) && window(d, before.request_at(), bytes@) implies #[trigger] self.ok_after(step, d) by {
                        assert(mp3_region_spec(d) is None);
                        lemma_fallback(d, ext, ch);
                    }
                }
                return step;
            }
            let t: u64 = if len < 160 {
                len
            } else {
                160
            };
            let mut h: Vec<u8> = Vec::new();
            append_bytes(&mut h, bytes);
            proof {
                assert(h@ =~= bytes@);
            }
            self.phase = Phase::Mp3Tail(h);
            self.want = Some((len - t, t));
            let step = ReadStep::Read { at: len - t, len: t };
            proof {
                assert forall|d: Seq<u8>| before.follows(d) && window(d, before.request_at(), bytes@) implies #[trigger] self.ok_after(step, d) by {
                }
            }
            return step;
        }
        // FLAC
        if len < 4 {
            let step = self.to_whole_file();
            proof {
                assert forall|d: Seq<u8>| before.follows(d) && window(d, before.request_at(), bytes@) implies #[trigger] self.ok_after(step, d) by {
                    assert(flac_region_spec(d) is None);
                    lemma_fallback(d, ext, ch);
                }
            }
            return step;
        }
        if bytes[0] == 0x49 && bytes[1] == 0x44 && bytes[2] == 0x33 {
            if len < 10 {
                let step = self.to_whole_file();
                proof {
                    assert forall|d: Seq<u8>| before.follows(d) && window(d, before.request_at(), bytes@) implies #[trigger] self.ok_after(step, d) by {
                        assert(d[0] == bytes@[0] && d[1] == bytes@[1] && d[2] == bytes@[2]);
                        assert(flac_region_spec(d) is None);
                        lemma_fallback(d, ext, ch);
                    }
                }
                return step;
            }
            let p = syncsafe_at(bytes, 6) + 10;
            if p > len || len - p < 4 {
                let step = self.to_whole_file();
                proof {
                    assert forall|d: Seq<u8>| before.follows(d) && window(d, before.request_at(), bytes@) implies #[trigger] self.ok_after(step, d) by {
                        assert(d[0] == bytes@[0] && d[1] == bytes@[1] && d[2] == bytes@[2]);
                        assert(d[6] == bytes@[6] && d[7] == bytes@[7] && d[8] == bytes@[8] && d[9] == bytes@[9]);
                        assert(flac_region_spec(d) is None);
                        lemma_fallback(d, ext, ch);
                    }
                }
                return step;
            }
            self.phase = Phase::FlacMagic(p);
            self.want = Some((p, 4));
            let step = ReadStep::Read { at: p, len: 4 };
            proof {
                assert forall|d: Seq<u8>| before.follows(d) && window(d, before.request_at(), bytes@) implies #[trigger] self.ok_after(step, d) by {
                    assert(d[0] == bytes@[0] && d[1] == bytes@[1] && d[2] == bytes@[2]);
                    assert(d[6] == bytes@[6] && d[7] == bytes@[7] && d[8] == bytes@[8] && d[9] == bytes@[9]);
                }
            }
            return step;
        }
        if bytes[0] == 0x66 && bytes[1] == 0x4c && bytes[2] == 0x61 && bytes[3] == 0x43 {
            let step = self.to_flac_walk(4);
            proof {
                assert forall|d: Seq<u8>| before.follows(d) && window(d, before.request_at(), bytes@) implies #[trigger] self.ok_after(step, d) by {
                    assert(d[0] == bytes@[0] && d[1] == bytes@[1] && d[2] == bytes@[2] && d[3] == bytes@[3]);
                    if len < 8 {
                        assert(flac_blocks(d, 4) is None);
                        lemma_fallback(d, ext, ch);
                    }
                }
            }
            return step;
        }
        let step = self.to_whole_file();
        proof {
            assert forall|d: Seq<u8>| before.follows(d) && window(d, before.request_at(), bytes@) implies #[trigger] self.ok_after(step, d) by {
                assert(d[0] == bytes@[0] && d[1] == bytes@[1] && d[2] == bytes@[2] && d[3] == bytes@[3]);
                assert(flac_region_spec(d) is None);
                lemma_fallback(d, ext, ch);
            }
        }
        step
    }

    #[verifier::rlimit(40)]
    fn feed_mp3_tail(&mut self, bytes: &[u8], h: Vec<u8>, Ghost(before): Ghost<FingerprintReads>) -> (step: ReadStep)
        requires
            before.wf(),
            before.phase == Phase::Mp3Tail(h),
            old(self).len == before.len,
            old(self).chunk == before.chunk,
            old(self).kind == before.kind,
            old(self).ext == before.ext,
            before.request() matches Some((at, n)) && bytes@.len() == n,
        ensures
            stepped(before, *final(self), bytes@, step),
    {
        let ghost ext = before.ext@;
        let ghost ch = before.chunk as int;
        let len = self.len;
        let chunk = self.chunk;
        let r = mp3_windows(len, &h, bytes);
        proof {
            assert forall|d: Seq<u8>| before.follows(d) && window(d, before.request_at(), bytes@) implies media_region_spec(d, ext) == pair_view(r) by {
                lemma_mp3_windows(d, h@, bytes@);
            }
        }
        match r {
            Some((s, e)) => {
                let step = self.to_sample(s, e, true);
                proof {
                    assert forall|d: Seq<u8>| before.follows(d) && window(d, before.request_at(), bytes@) implies #[trigger] self.ok_after(step, d) by {
                        lemma_region(d, ext, ch, s as int, e as int);
                    }
                }
                step
            },
            None => {
                let step = self.to_whole_file();
                proof {
                    assert forall|d: Seq<u8>| before.follows(d) && window(d, before.request_at(), bytes@) implies #[trigger] self.ok_after(step, d) by {
                        lemma_fallback(d, ext, ch);
                    }
                }
                step
            },
        }
    }

    #[verifier::rlimit(40)]
    fn feed_flac_magic(&mut self, bytes: &[u8], p: u64, Ghost(before): Ghost<FingerprintReads>) -> (step: ReadStep)
        requires
            before.wf(),
            before.phase == Phase::FlacMagic(p),
            old(self).len == before.len,
            old(self).chunk == before.chunk,
            old(self).kind == before.kind,
            old(self).ext == before.ext,
            before.request() matches Some((at, n)) && bytes@.len() == n,
        ensures
            stepped(before, *final(self), bytes@, step),
    {
        let ghost ext = before.ext@;
        let ghost ch = before.chunk as int;
        let len = self.len;
        let chunk = self.chunk;
        if bytes[0] == 0x66 && bytes[1] == 0x4c && bytes[2] == 0x61 && bytes[3] == 0x43 {
            let step = self.to_flac_walk(p + 4);
            proof {
                assert forall|d: Seq<u8>| before.follows(d) && window(d, before.request_at(), bytes@) implies #[trigger] self.ok_after(step, d) by {
                    assert(d[p as int] == bytes@[0] && d[p + 1] == bytes@[1] && d[p + 2] == bytes@[2] && d[p + 3] == bytes@[3]);
                    if p + 8 > len {
                        assert(flac_blocks(d, p + 4) is None);
                        lemma_fallback(d, ext, ch);
                    }
                }
            }
            step
        } else {
            let step = self.to_whole_file();
            proof {
                assert forall|d: Seq<u8>| before.follows(d) && window(d, before.request_at(), bytes@) implies #[trigger] self.ok_after(step, d) by {
                    assert(d[p as int] == bytes@[0] && d[p + 1] == bytes@[1] && d[p + 2] == bytes@[2] && d[p + 3] == bytes@[3]);
                    lemma_fallback(d, ext, ch);
                }
            }
            step
        }
    }

    #[verifier::rlimit(40)]
    fn feed_flac_walk(&mut self, bytes: &[u8], pos: u64, Ghost(before): Ghost<FingerprintReads>) -> (step: ReadStep)
        requires
            before.wf(),
            before.phase == Phase::FlacWalk(pos),
            old(self).len == before.len,
            old(self).chunk == before.chunk,
            old(self).kind == before.kind,
            old(self).ext == before.ext,
            before.request() matches Some((at, n)) && bytes@.len() == n,
        ensures
            stepped(before, *final(self), bytes@, step),
    {
        let ghost ext = before.ext@;
        let ghost ch = before.chunk as int;
        let len = self.len;
        let chunk = self.chunk;
        let size = read_be(bytes, 1, 3);
        proof {
            lemma_be_bound(bytes@, 1, 3);
            lemma_pow256_values();
        }
        if size + 4 >= len - pos {
            let step = self.to_whole_file();
            proof {
                assert forall|d: Seq<u8>| before.follows(d) && window(d, before.request_at(), bytes@) implies #[trigger] self.ok_after(step, d) by {
                    lemma_be_window(d, pos as int, bytes@, pos + 1, 3);
                    assert(flac_blocks(d, pos as int) is None);
                    lemma_fallback(d, ext, ch);
                }
            }
            return step;
        }
        let next = pos + 4 + size;
        if bytes[0] & 0x80 != 0 {
            let step = self.to_sample(next, len, true);
            proof {
                assert forall|d: Seq<u8>| before.follows(d) && window(d, before.request_at(), bytes@) implies #[trigger] self.ok_after(step, d) by {
                    lemma_be_window(d, pos as int, bytes@, pos + 1, 3);
                    assert(d[pos as int] == bytes@[0]);
                    assert(flac_blocks(d, pos as int) == Some((next as int, len as int)));
                    lemma_region(d, ext, ch, next as int, len as int);
                }
            }
            step
        } else {
            let step = self.to_flac_walk(next);
            proof {
                assert forall|d: Seq<u8>| before.follows(d) && window(d, before.request_at(), bytes@) implies #[trigger] self.ok_after(step, d) by {
                    lemma_be_window(d, pos as int, bytes@, pos + 1, 3);
                    assert(d[pos as int] == bytes@[0]);
                    assert(flac_blocks(d, pos as int) == flac_blocks(d, next as int));
                    if next + 4 > len {
                        assert(flac_blocks(d, next as int) is None);
                        lemma_fallback(d, ext, ch);
                    }
                }
            }
            step
        }
    }

    #[verifier::rlimit(40)]
    fn feed_mp4_walk(&mut self, bytes: &[u8], pos: u64, Ghost(before): Ghost<FingerprintReads>) -> (step: ReadStep)
        requires
            before.wf(),
            before.phase == Phase::Mp4Walk(pos),
            old(self).len == before.len,
            old(self).chunk == before.chunk,
            old(self).kind == before.kind,
            old(self).ext == before.ext,
            before.request() matches Some((at, n)) && bytes@.len() == n,
        ensures
            stepped(before, *final(self), bytes@, step),
    {
        let ghost ext = before.ext@;
        let ghost ch = before.chunk as int;
        let len = self.len;
        let chunk = self.chunk;
        let size32 = read_be(bytes, 0, 4);
        let large = size32 == 1;
        if large && len - pos < 16 {
            let step = self.to_whole_file();
            proof {
                assert forall|d: Seq<u8>| before.follows(d) && window(d, before.request_at(), bytes@) implies #[trigger] self.ok_after(step, d) by {
                    lemma_be_window(d, pos as int, bytes@, pos as int, 4);
                    assert(mp4_boxes(d, pos as int) is None);
                    lemma_fallback(d, ext, ch);
                }
            }
            return step;
        }
        let body_start = if large {
            pos + 16
        } else {
            pos + 8
        };
        let box_size: u64 = if large {
            read_be(bytes, 8, 8)
        } else if size32 == 0 {
            len - pos
        } else {
            size32
        };
        if box_size < 8 || box_size > len - pos {
            let step = self.to_whole_file();
            proof {
                assert forall|d: Seq<u8>| before.follows(d) && window(d, before.request_at(), bytes@) implies #[trigger] self.ok_after(step, d) by {
                    lemma_be_window(d, pos as int, bytes@, pos as int, 4);
                    if large {
                        lemma_be_window(d, pos as int, bytes@, pos + 8, 8);
                    }
                    assert(mp4_boxes(d, pos as int) is None);
                    lemma_fallback(d, ext, ch);
                }
            }
            return step;
        }
        let end = pos + box_size;
        if bytes[4] == 0x6d && bytes[5] == 0x64 && bytes[6] == 0x61 && bytes[7] == 0x74 {
            if end > body_start {
                let step = self.to_sample(body_start, end, true);
                proof {
                    assert forall|d: Seq<u8>| before.follows(d) && window(d, before.request_at(), bytes@) implies #[trigger] self.ok_after(step, d) by {
                        lemma_be_window(d, pos as int, bytes@, pos as int, 4);
                        if large {
                            lemma_be_window(d, pos as int, bytes@, pos + 8, 8);
                        }
                        assert(d[pos + 4] == bytes@[4] && d[pos + 5] == bytes@[5] && d[pos + 6] == bytes@[6] && d[pos + 7] == bytes@[7]);
                        assert(mp4_boxes(d, pos as int) == Some((body_start as int, end as int)));
                        lemma_region(d, ext, ch, body_start as int, end as int);
                    }
                }
                step
            } else {
                let step = self.to_whole_file();
                proof {
                    assert forall|d: Seq<u8>| before.follows(d) && window(d, before.request_at(), bytes@) implies #[trigger] self.ok_after(step, d) by {
                        lemma_be_window(d, pos as int, bytes@, pos as int, 4);
                        if large {
                            lemma_be_window(d, pos as int, bytes@, pos + 8, 8);
                        }
                        assert(d[pos + 4] == bytes@[4] && d[pos + 5] == bytes@[5] && d[pos + 6] == bytes@[6] && d[pos + 7] == bytes@[7]);
                        assert(mp4_boxes(d, pos as int) == Some((body_start as int, end as int)));
                        lemma_fallback(d, ext, ch);
                    }
                }
                step
            }
        } else {
            let step = self.to_mp4_walk(end);
            proof {
                assert forall|d: Seq<u8>| before.follows(d) && window(d, before.request_at(), bytes@) implies #[trigger] self.ok_after(step, d) by {
                    lemma_be_window(d, pos as int, bytes@, pos as int, 4);
                    if large {
                        lemma_be_window(d, pos as int, bytes@, pos + 8, 8);
                    }
                    assert(d[pos + 4] == bytes@[4] && d[pos + 5] == bytes@[5] && d[pos + 6] == bytes@[6] && d[pos + 7] == bytes@[7]);
                    assert(mp4_boxes(d, pos as int) == mp4_boxes(d, end as int));
                    if end + 8 > len {
                        assert(mp4_boxes(d, end as int) is None);
                        lemma_fallback(d, ext, ch);
                    }
                }
            }
            step
        }
    }

    #[verifier::rlimit(40)]
    fn feed_sample_head(&mut self, bytes: &[u8], s: u64, e: u64, media: bool, Ghost(before): Ghost<FingerprintReads>) -> (step: ReadStep)
        requires
            before.wf(),
            before.phase == Phase::SampleHead(s, e, media),
            old(self).len == before.len,
            old(self).chunk == before.chunk,
            old(self).kind == before.kind,
            old(self).ext == before.ext,
            before.request() matches Some((at, n)) && bytes@.len() == n,
        ensures
            stepped(before, *final(self), bytes@, step),
    {
        let ghost ext = before.ext@;
        let ghost ch = before.chunk as int;
        let len = self.len;
        let chunk = self.chunk;
        let span = e - s;
        if span > chunk {
            let mut h: Vec<u8> = Vec::new();
            append_bytes(&mut h, bytes);
            proof {
                assert(h@ =~= bytes@);
            }
            let (a, k) = if span > 2 * chunk {
                (e - chunk, chunk)
            } else {
                (s + chunk, span - chunk)
            };
            self.phase = Phase::SampleTail(s, e, media, h);
            self.want = Some((a, k));
            let step = ReadStep::Read { at: a, len: k };
            proof {
                assert forall|d: Seq<u8>| before.follows(d) && window(d, before.request_at(), bytes@) implies #[trigger] self.ok_after(step, d) by {
                }
            }
            step
        } else {
            let text = fingerprint_text(media, span, bytes, &[]);
            self.phase = Phase::Finished;
            self.want = None;
            let step = ReadStep::Done(Some(text));
            proof {
                assert forall|d: Seq<u8>| before.follows(d) && window(d, before.request_at(), bytes@) implies #[trigger] self.ok_after(step, d) by {
                    lemma_sample_parts(d, s as int, e as int, ch, bytes@, Seq::<u8>::empty());
                    assert(bytes@ + Seq::<u8>::empty() =~= bytes@);
                }
            }
            step
        }
    }

    #[verifier::rlimit(40)]
    fn feed_sample_tail(&mut self, bytes: &[u8], s: u64, e: u64, media: bool, h: Vec<u8>, Ghost(before): Ghost<FingerprintReads>) -> (step: ReadStep)
        requires
            before.wf(),
            before.phase == Phase::SampleTail(s, e, media, h),
            old(self).len == before.len,
            old(self).chunk == before.chunk,
            old(self).kind == before.kind,
            old(self).ext == before.ext,
            before.request() matches Some((at, n)) && bytes@.len() == n,
        ensures
            stepped(before, *final(self), bytes@, step),
    {
        let ghost ext = before.ext@;
        let ghost ch = before.chunk as int;
        let len = self.len;
        let chunk = self.chunk;
        let span = e - s;
        let text = fingerprint_text(media, span, &h, bytes);
        self.phase = Phase::Finished;
        self.want = None;
        let step = ReadStep::Done(Some(text));
        proof {
            assert forall|d: Seq<u8>| before.follows(d) && window(d, before.request_at(), bytes@) implies #[trigger] self.ok_after(step, d) by {
                lemma_sample_parts(d, s as int, e as int, ch, h@, bytes@);
            }
        }
        step
    }
}

} // verus!
