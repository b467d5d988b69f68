//! Content fingerprints that survive retagging.
//!
//! The fingerprint covers the media region of a file — the bytes a tag editor
//! never touches — located by container arithmetic alone (headers state their
//! own sizes). When the container is unknown or does not parse cleanly the
//! whole file is fingerprinted instead. Values carry their kind: `a:<hex>`
//! for a media region, `f:<hex>` for a whole file, so two fingerprints can
//! only be equal when they measured the same kind of thing.
//!
//! A region is fingerprinted by its length and its first and last `chunk`
//! bytes (all of it when shorter than two chunks).

use vstd::prelude::*;
use crate::text::{ascii_lower_seq, ascii_lowercase, chars_eq, chars_of, push_char, push_str};

verus! {

/// Chunk size for music files.
pub const AUDIO_CHUNK: u64 = 4 * 1024 * 1024;

/// Chunk size for video files.
pub const VIDEO_CHUNK: u64 = 1024 * 1024;

// ---------------------------------------------------------------------------
// Byte fields
// ---------------------------------------------------------------------------

/// Big-endian value of `d[i..i + n]`.
pub open spec fn be_val(d: Seq<u8>, i: int, n: nat) -> nat
    decreases n,
{
    if n == 0 {
        0
    } else {
        be_val(d, i, (n - 1) as nat) * 256 + d[i + n - 1] as nat
    }
}

/// Little-endian 32-bit value of `d[i..i + 4]`.
pub open spec fn le32(d: Seq<u8>, i: int) -> nat {
    d[i] as nat + d[i + 1] as nat * 256 + d[i + 2] as nat * 65536 + d[i + 3] as nat * 16777216
}

/// ID3v2 "syncsafe" size: four 7-bit groups, most significant first.
pub open spec fn syncsafe_spec(d: Seq<u8>, i: int) -> nat {
    (d[i] % 128) as nat * 2097152 + (d[i + 1] % 128) as nat * 16384 + (d[i + 2] % 128) as nat
        * 128 + (d[i + 3] % 128) as nat
}

pub open spec fn pow256(n: nat) -> nat
    decreases n,
{
    if n == 0 {
        1
    } else {
        256 * pow256((n - 1) as nat)
    }
}

pub(crate) proof fn lemma_be_bound(d: Seq<u8>, i: int, n: nat)
    ensures
        be_val(d, i, n) < pow256(n),
    decreases n,
{
    if n > 0 {
        lemma_be_bound(d, i, (n - 1) as nat);
        let p = be_val(d, i, (n - 1) as nat);
        let q = pow256((n - 1) as nat);
        let b = d[i + n - 1] as nat;
        assert(p * 256 + b < 256 * q) by (nonlinear_arith)
            requires
                p < q,
                b < 256,
        ;
    }
}

/// Big-endian value of `d[i..i + n]`, `n <= 8`.
pub fn read_be(d: &[u8], i: usize, n: usize) -> (v: u64)
    requires
        n <= 8,
        i + n <= d@.len(),
    ensures
        v == be_val(d@, i as int, n as nat),
{
    let mut v: u64 = 0;
    let mut k: usize = 0;
    while k < n
        invariant
            n <= 8,
            i + n <= d@.len(),
            k <= n,
            v == be_val(d@, i as int, k as nat),
        decreases n - k,
    {
        proof {
            lemma_be_bound(d@, i as int, k as nat);
            lemma_pow256_mono(k as nat, 7);
        }
        proof {
            lemma_pow256_values();
        }
        let dl = d.len();
        assert(i + k < dl);
        v = v * 256 + d[i + k] as u64;
        k += 1;
    }
    v
}

pub(crate) proof fn lemma_pow256_values()
    ensures
        pow256(3) == 16777216,
        pow256(7) == 72057594037927936,
{
    reveal_with_fuel(pow256, 8);
}

proof fn lemma_pow256_mono(a: nat, b: nat)
    requires
        a <= b,
    ensures
        pow256(a) <= pow256(b),
    decreases b,
{
    if a < b {
        lemma_pow256_mono(a, (b - 1) as nat);
    }
}

/// The ID3v2 syncsafe integer in `b[0..4]`.
pub fn syncsafe(b: &[u8]) -> (v: u64)
    requires
        b@.len() >= 4,
    ensures
        v == syncsafe_spec(b@, 0),
{
    (b[0] % 128) as u64 * 2097152 + (b[1] % 128) as u64 * 16384 + (b[2] % 128) as u64 * 128 + (
    b[3] % 128) as u64
}

pub(crate) fn syncsafe_at(d: &[u8], i: usize) -> (v: u64)
    requires
        i + 4 <= d@.len(),
    ensures
        v == syncsafe_spec(d@, i as int),
{
    (d[i] % 128) as u64 * 2097152 + (d[i + 1] % 128) as u64 * 16384 + (d[i + 2] % 128) as u64
        * 128 + (d[i + 3] % 128) as u64
}

// ---------------------------------------------------------------------------
// Container regions
// ---------------------------------------------------------------------------

pub open spec fn is_id3(d: Seq<u8>, i: int) -> bool {
    d[i] == 0x49 && d[i + 1] == 0x44 && d[i + 2] == 0x33
}

/// MP3: after a leading ID3v2 block (10-byte header, syncsafe size, 10-byte
/// footer when flagged), before a trailing ID3v1 "TAG" block (128 bytes) and
/// an APEv2 footer before that (32 bytes stating the tag's size, plus a
/// 32-byte header when flagged).
pub open spec fn mp3_region_spec(d: Seq<u8>) -> Option<(int, int)> {
    let len = d.len() as int;
    if len < 10 {
        None
    } else {
        let start: int = if is_id3(d, 0) {
            10 + syncsafe_spec(d, 6) + if d[5] & 0x10 != 0 { 10int } else { 0int }
        } else {
            0
        };
        let end1: int = if len >= 128 && d[len - 128] == 0x54 && d[len - 127] == 0x41 && d[len
            - 126] == 0x47 {
            len - 128
        } else {
            len
        };
        let end: int = if end1 >= 32 && is_apetagex(d, end1 - 32) {
            let total = le32(d, end1 - 32 + 12) + if d[end1 - 32 + 23] & 0x80 != 0 {
                32int
            } else {
                0int
            };
            if total >= end1 {
                0
            } else {
                end1 - total
            }
        } else {
            end1
        };
        if start < end && end <= len {
            Some((start, end))
        } else {
            None
        }
    }
}

pub open spec fn is_apetagex(d: Seq<u8>, i: int) -> bool {
    d[i] == 0x41 && d[i + 1] == 0x50 && d[i + 2] == 0x45 && d[i + 3] == 0x54 && d[i + 4] == 0x41
        && d[i + 5] == 0x47 && d[i + 6] == 0x45 && d[i + 7] == 0x58
}

/// Walk FLAC metadata blocks (type byte with last-block flag, 24-bit
/// big-endian length) from `pos`; audio starts after the last one.
pub open spec fn flac_blocks(d: Seq<u8>, pos: int) -> Option<(int, int)>
    decreases d.len() - pos,
{
    let len = d.len() as int;
    if pos < 0 || pos + 4 > len {
        None
    } else {
        let next = pos + 4 + be_val(d, pos + 1, 3);
        if next >= len {
            None
        } else if d[pos] & 0x80 != 0 {
            Some((next, len))
        } else {
            flac_blocks(d, next)
        }
    }
}

pub open spec fn is_flac_magic(d: Seq<u8>, i: int) -> bool {
    d[i] == 0x66 && d[i + 1] == 0x4c && d[i + 2] == 0x61 && d[i + 3] == 0x43
}

/// FLAC: "fLaC" (possibly after an ID3v2 block), then metadata blocks.
pub open spec fn flac_region_spec(d: Seq<u8>) -> Option<(int, int)> {
    let len = d.len() as int;
    if len < 4 {
        None
    } else if is_id3(d, 0) {
        if len < 10 {
            None
        } else {
            let p: int = 10 + syncsafe_spec(d, 6) as int;
            if p + 4 > len {
                None
            } else if is_flac_magic(d, p) {
                flac_blocks(d, p + 4)
            } else {
                None
            }
        }
    } else if is_flac_magic(d, 0) {
        flac_blocks(d, 4)
    } else {
        None
    }
}

pub open spec fn is_mdat(d: Seq<u8>, i: int) -> bool {
    d[i] == 0x6d && d[i + 1] == 0x64 && d[i + 2] == 0x61 && d[i + 3] == 0x74
}

/// Walk MP4 top-level boxes from `pos` (32-bit size + fourcc; size 1 = 64-bit
/// size follows, size 0 = to end of file) to the `mdat` box's payload.
pub open spec fn mp4_boxes(d: Seq<u8>, pos: int) -> Option<(int, int)>
    decreases d.len() - pos,
{
    let len = d.len() as int;
    if pos < 0 || pos + 8 > len {
        None
    } else {
        let size32 = be_val(d, pos, 4) as int;
        let large = size32 == 1;
        if large && len - pos < 16 {
            None
        } else {
            let body_start = if large {
                pos + 16
            } else {
                pos + 8
            };
            let box_size: int = if large {
                be_val(d, pos + 8, 8) as int
            } else if size32 == 0 {
                len - pos
            } else {
                size32
            };
            if box_size < 8 || pos + box_size > len {
                None
            } else if is_mdat(d, pos + 4) {
                Some((body_start, pos + box_size))
            } else {
                mp4_boxes(d, pos + box_size)
            }
        }
    }
}

/// Which container an extension names (ASCII case-insensitive).
#[derive(Clone, Copy, PartialEq, Eq, Structural)]
pub enum Container {
    Mp3,
    Flac,
    Mp4,
    Other,
}

pub open spec fn container_spec(ext: Seq<char>) -> Container {
    let e = ascii_lower_seq(ext);
    if e == "mp3"@ {
        Container::Mp3
    } else if e == "flac"@ {
        Container::Flac
    } else if e == "m4a"@ || e == "mp4"@ || e == "m4b"@ || e == "mov"@ || e == "m4v"@ {
        Container::Mp4
    } else {
        Container::Other
    }
}

/// (start, end) of the media bytes for a file with extension `ext`.
pub open spec fn media_region_spec(d: Seq<u8>, ext: Option<Seq<char>>) -> Option<(int, int)> {
    match ext {
        None => None,
        Some(e) => match container_spec(e) {
            Container::Mp3 => mp3_region_spec(d),
            Container::Flac => flac_region_spec(d),
            Container::Mp4 => mp4_boxes(d, 0),
            Container::Other => None,
        },
    }
}

pub open spec fn pair_view(r: Option<(u64, u64)>) -> Option<(int, int)> {
    match r {
        Some((a, b)) => Some((a as int, b as int)),
        None => None,
    }
}

#[verifier::rlimit(40)]
fn mp3_region(d: &[u8]) -> (r: Option<(u64, u64)>)
    ensures
        pair_view(r) == mp3_region_spec(d@),
        r matches Some((a, b)) ==> b <= d@.len(),
{
    let len = d.len();
    if len < 10 {
        return None;
    }
    let mut start: u64 = 0;
    if d[0] == 0x49 && d[1] == 0x44 && d[2] == 0x33 {
        let size = syncsafe_at(d, 6);
        let footer: u64 = if d[5] & 0x10 != 0 {
            10
        } else {
            0
        };
        start = 10 + size + footer;
    }
    let mut end = len;
    if end >= 128 && d[end - 128] == 0x54 && d[end - 127] == 0x41 && d[end - 126] == 0x47 {
        end = end - 128;
    }
    if end >= 32 {
        let a = end - 32;
        if d[a] == 0x41 && d[a + 1] == 0x50 && d[a + 2] == 0x45 && d[a + 3] == 0x54 && d[a + 4]
            == 0x41 && d[a + 5] == 0x47 && d[a + 6] == 0x45 && d[a + 7] == 0x58 {
            let tag_size = d[a + 12] as u64 + d[a + 13] as u64 * 256 + d[a + 14] as u64 * 65536
                + d[a + 15] as u64 * 16777216;
            let header: u64 = if d[a + 23] & 0x80 != 0 {
                32
            } else {
                0
            };
            let total = tag_size + header;
            end = if total >= end as u64 {
                0
            } else {
                end - total as usize
            };
        }
    }
    if start < end as u64 && end <= len {
        Some((start, end as u64))
    } else {
        None
    }
}

fn flac_region(d: &[u8]) -> (r: Option<(u64, u64)>)
    ensures
        pair_view(r) == flac_region_spec(d@),
        r matches Some((a, b)) ==> b <= d@.len(),
{
    let len = d.len();
    if len < 4 {
        return None;
    }
    let mut pos: usize;
    if d[0] == 0x49 && d[1] == 0x44 && d[2] == 0x33 {
        if len < 10 {
            return None;
        }
        let p = syncsafe_at(d, 6) + 10;
        if p + 4 > len as u64 {
            return None;
        }
        let p = p as usize;
        if !(d[p] == 0x66 && d[p + 1] == 0x4c && d[p + 2] == 0x61 && d[p + 3] == 0x43) {
            return None;
        }
        pos = p + 4;
    } else {
        if !(d[0] == 0x66 && d[1] == 0x4c && d[2] == 0x61 && d[3] == 0x43) {
            return None;
        }
        pos = 4;
    }
    let ghost start = pos;
    loop
        invariant
            len == d@.len(),
            pos <= len,
            flac_region_spec(d@) == flac_blocks(d@, start as int),
            flac_blocks(d@, start as int) == flac_blocks(d@, pos as int),
        decreases len - pos,
    {
        if len - pos < 4 {
            return None;
        }
        let last = d[pos] & 0x80 != 0;
        let size = read_be(d, pos + 1, 3);
        proof {
            lemma_be_bound(d@, pos + 1, 3);
        }
        proof {
            lemma_pow256_values();
        }
        if size + 4 >= (len - pos) as u64 {
            return None;
        }
        let next = pos + 4 + size as usize;
        if last {
            return Some((next as u64, len as u64));
        }
        pos = next;
    }
}

fn mp4_region(d: &[u8]) -> (r: Option<(u64, u64)>)
    ensures
        pair_view(r) == mp4_boxes(d@, 0),
        r matches Some((a, b)) ==> b <= d@.len(),
{
    let len = d.len();
    let mut pos: usize = 0;
    while len - pos >= 8
        invariant
            len == d@.len(),
            pos <= len,
            mp4_boxes(d@, 0) == mp4_boxes(d@, pos as int),
        decreases len - pos,
    {
        let size32 = read_be(d, pos, 4);
        let large = size32 == 1;
        if large && len - pos < 16 {
            return None;
        }
        let body_start = if large {
            pos + 16
        } else {
            pos + 8
        };
        let box_size: u64 = if large {
            read_be(d, pos + 8, 8)
        } else if size32 == 0 {
            (len - pos) as u64
        } else {
            size32
        };
        if box_size < 8 || box_size > (len - pos) as u64 {
            return None;
        }
        if d[pos + 4] == 0x6d && d[pos + 5] == 0x64 && d[pos + 6] == 0x61 && d[pos + 7] == 0x74 {
            return Some((body_start as u64, pos as u64 + box_size));
        }
        pos = pos + box_size as usize;
    }
    None
}

pub(crate) fn container_of(ext: &str) -> (c: Container)
    ensures
        c == container_spec(ext@),
{
    let e = chars_of(ext);
    let l = ascii_lowercase(&e);
    if chars_eq(&l, &chars_of("mp3")) {
        Container::Mp3
    } else if chars_eq(&l, &chars_of("flac")) {
        Container::Flac
    } else if chars_eq(&l, &chars_of("m4a")) || chars_eq(&l, &chars_of("mp4")) || chars_eq(
        &l,
        &chars_of("m4b"),
    ) || chars_eq(&l, &chars_of("mov")) || chars_eq(&l, &chars_of("m4v")) {
        Container::Mp4
    } else {
        Container::Other
    }
}

/// (start, end) byte offsets of the media data of `content`, per the
/// container its extension names; `None` for unknown containers and parse
/// trouble.
pub fn media_region(content: &[u8], extension: Option<&str>) -> (r: Option<(u64, u64)>)
    ensures
        pair_view(r) == media_region_spec(
            content@,
            match extension {
                Some(e) => Some(e@),
                None => None,
            },
        ),
        r matches Some((a, b)) ==> b <= content@.len(),
{
    match extension {
        None => None,
        Some(e) => match container_of(e) {
            Container::Mp3 => mp3_region(content),
            Container::Flac => flac_region(content),
            Container::Mp4 => mp4_region(content),
            Container::Other => None,
        },
    }
}

// ---------------------------------------------------------------------------
// Fingerprints
// ---------------------------------------------------------------------------

/// The 8 little-endian bytes of `n`.
pub open spec fn le64_bytes(n: nat) -> Seq<u8> {
    Seq::new(8, |i: int| ((n / pow256(i as nat)) % 256) as u8)
}

/// What a region is fingerprinted by: its length (8 bytes, little-endian),
/// its first `chunk` bytes, then its last `chunk` bytes when it is longer
/// than two chunks, or the rest of it when it is longer than one.
pub open spec fn sample_spec(d: Seq<u8>, start: int, end: int, chunk: int) -> Seq<u8> {
    let len = end - start;
    let first = if chunk < len {
        chunk
    } else {
        len
    };
    le64_bytes(len as nat) + d.subrange(start, start + first) + if len > 2 * chunk {
        d.subrange(end - chunk, end)
    } else if len > chunk {
        d.subrange(start + chunk, end)
    } else {
        Seq::empty()
    }
}

/// What `xxhash_rust::xxh3::xxh3_64` returns for these bytes.
pub uninterp spec fn xxh3_64_of(data: Seq<u8>) -> u64;

/// `xxhash_rust::xxh3::xxh3_64` (XXH3, 64-bit, seed 0). Claimed: the result is
/// `xxh3_64_of` of the bytes — the same bytes always give the same hash.
#[verifier::external_body]
pub(crate) fn xxh3_64(data: &[u8]) -> (h: u64)
    ensures
        h == xxh3_64_of(data@),
{
    xxhash_rust::xxh3::xxh3_64(data)
}

pub open spec fn hex_char(d: nat) -> char {
    if d < 10 {
        ((d as int) + ('0' as int)) as char
    } else {
        ((d as int) - 10 + ('a' as int)) as char
    }
}

/// The low `k` hex digits of `n`, most significant first, lowercase.
pub open spec fn hex_digits(n: nat, k: nat) -> Seq<char>
    decreases k,
{
    if k == 0 {
        Seq::empty()
    } else {
        hex_digits(n / 16, (k - 1) as nat).push(hex_char(n % 16))
    }
}

/// `format!("{:016x}", h)`.
pub open spec fn hex16(h: u64) -> Seq<char> {
    hex_digits(h as nat, 16)
}

pub(crate) fn push_hex(out: &mut String, n: u64, k: u64)
    ensures
        final(out)@ == old(out)@ + hex_digits(n as nat, k as nat),
    decreases k,
{
    if k > 0 {
        push_hex(out, n / 16, k - 1);
        let d = n % 16;
        let c = if d < 10 {
            crate::text::char_from_ascii((d + 48) as u8)
        } else {
            crate::text::char_from_ascii((d + 87) as u8)
        };
        push_char(out, c);
    }
}

pub(crate) fn le64(n: u64) -> (r: Vec<u8>)
    ensures
        r@ == le64_bytes(n as nat),
{
    let mut r: Vec<u8> = Vec::new();
    let mut v = n;
    let mut i: u64 = 0;
    assert(pow256(0) == 1);
    assert(n as nat / 1 == n as nat);
    while i < 8
        invariant
            i <= 8,
            r@.len() == i,
            v == n as nat / pow256(i as nat),
            forall|k: int| 0 <= k < i ==> r@[k] == le64_bytes(n as nat)[k],
        decreases 8 - i,
    {
        proof {
            lemma_pow256_pos(i as nat);
            vstd::arithmetic::div_mod::lemma_div_denominator(n as int, pow256(i as nat) as int, 256);
        }
        r.push((v % 256) as u8);
        v = v / 256;
        i += 1;
    }
    assert(r@ =~= le64_bytes(n as nat));
    r
}

proof fn lemma_pow256_pos(n: nat)
    ensures
        pow256(n) > 0,
        pow256(n + 1) == pow256(n) * 256,
    decreases n,
{
    if n > 0 {
        lemma_pow256_pos((n - 1) as nat);
    }
}

fn push_range(out: &mut Vec<u8>, d: &[u8], from: usize, to: usize)
    requires
        from <= to <= d@.len(),
    ensures
        final(out)@ == old(out)@ + d@.subrange(from as int, to as int),
{
    let ghost start = out@;
    let mut i = from;
    while i < to
        invariant
            from <= i <= to <= d@.len(),
            out@ == start + d@.subrange(from as int, i as int),
        decreases to - i,
    {
        out.push(d[i]);
        i += 1;
        assert(out@ =~= start + d@.subrange(from as int, i as int));
    }
}

/// The bytes a region is fingerprinted by.
pub fn region_sample(d: &[u8], start: u64, end: u64, chunk: u64) -> (r: Vec<u8>)
    requires
        start < end <= d@.len(),
        chunk <= 0x4000_0000_0000_0000,
    ensures
        r@ == sample_spec(d@, start as int, end as int, chunk as int),
{
    let len = end - start;
    let first = if chunk < len {
        chunk
    } else {
        len
    };
    let dl = d.len();
    assert(end as int <= dl as int);
    let mut r = le64(len);
    push_range(&mut r, d, start as usize, (start + first) as usize);
    if len > 2 * chunk {
        push_range(&mut r, d, (end - chunk) as usize, end as usize);
    } else if len > chunk {
        push_range(&mut r, d, (start + chunk) as usize, end as usize);
    } else {
        assert(r@ + Seq::<u8>::empty() =~= r@);
    }
    r
}

/// Fingerprint of `content` (a file's bytes) with extension `ext` and the
/// given chunk size: `a:` + 16 hex digits for the media region when one is
/// found, `f:` + 16 hex digits for the whole file otherwise; `None` for an
/// empty file.
pub open spec fn fingerprint_spec(d: Seq<u8>, ext: Option<Seq<char>>, chunk: int) -> Option<
    Seq<char>,
> {
    if d.len() == 0 {
        None
    } else {
        match media_region_spec(d, ext) {
            Some((s, e)) if e > s => Some("a:"@ + hex16(xxh3_64_of(sample_spec(d, s, e, chunk)))),
            _ => Some("f:"@ + hex16(xxh3_64_of(sample_spec(d, 0, d.len() as int, chunk)))),
        }
    }
}

pub open spec fn ext_view(e: Option<&str>) -> Option<Seq<char>> {
    match e {
        Some(s) => Some(s@),
        None => None,
    }
}

pub open spec fn string_opt_view(r: Option<String>) -> Option<Seq<char>> {
    match r {
        Some(s) => Some(s@),
        None => None,
    }
}

/// Fingerprint with an explicit chunk size.
pub fn hash_with_chunk(content: &[u8], extension: Option<&str>, chunk: u64) -> (r: Option<String>)
    requires
        chunk <= 0x4000_0000_0000_0000,
    ensures
        string_opt_view(r) == fingerprint_spec(content@, ext_view(extension), chunk as int),
{
    let len = content.len() as u64;
    if len == 0 {
        return None;
    }
    let mut out = String::new();
    match media_region(content, extension) {
        Some((start, end)) => {
            if end > start {
                let sample = region_sample(content, start, end, chunk);
                let h = xxh3_64(&sample);
                push_str(&mut out, "a:");
                push_hex(&mut out, h, 16);
                return Some(out);
            }
        },
        None => {},
    }
    let sample = region_sample(content, 0, len, chunk);
    let h = xxh3_64(&sample);
    push_str(&mut out, "f:");
    push_hex(&mut out, h, 16);
    Some(out)
}

/// Fingerprint of a music file's bytes (4 MiB chunks).
pub fn hash_file(content: &[u8], extension: Option<&str>) -> (r: Option<String>)
    ensures
        string_opt_view(r) == fingerprint_spec(content@, ext_view(extension), AUDIO_CHUNK as int),
{
    hash_with_chunk(content, extension, AUDIO_CHUNK)
}

/// Fingerprint of a video file's bytes (1 MiB chunks).
pub fn hash_video_file(content: &[u8], extension: Option<&str>) -> (r: Option<String>)
    ensures
        string_opt_view(r) == fingerprint_spec(content@, ext_view(extension), VIDEO_CHUNK as int),
{
    hash_with_chunk(content, extension, VIDEO_CHUNK)
}

// ---------------------------------------------------------------------------
// Laws
// ---------------------------------------------------------------------------

/// Retagging never changes a fingerprint: two files whose media regions hold
/// the same bytes get the same fingerprint, whatever surrounds the regions.
pub proof fn law_same_media_same_fingerprint(
    d1: Seq<u8>,
    e1: Option<Seq<char>>,
    d2: Seq<u8>,
    e2: Option<Seq<char>>,
    chunk: int,
)
    requires
        media_region_spec(d1, e1) matches Some((s1, t1)) && t1 > s1,
        media_region_spec(d2, e2) matches Some((s2, t2)) && t2 > s2,
        ({
            let (s1, t1) = media_region_spec(d1, e1)->0;
            let (s2, t2) = media_region_spec(d2, e2)->0;
            0 <= s1 && t1 <= d1.len() && 0 <= s2 && t2 <= d2.len() && d1.subrange(s1, t1)
                == d2.subrange(s2, t2)
        }),
        chunk >= 0,
    ensures
        fingerprint_spec(d1, e1, chunk) == fingerprint_spec(d2, e2, chunk),
{
    let (s1, t1) = media_region_spec(d1, e1)->0;
    let (s2, t2) = media_region_spec(d2, e2)->0;
    let r1 = d1.subrange(s1, t1);
    let r2 = d2.subrange(s2, t2);
    assert(r1.len() == r2.len());
    lemma_sample_of_region(d1, s1, t1, chunk);
    lemma_sample_of_region(d2, s2, t2, chunk);
}

/// The sample of a region depends on the region's bytes alone.
proof fn lemma_sample_of_region(d: Seq<u8>, s: int, t: int, chunk: int)
    requires
        0 <= s < t <= d.len(),
        chunk >= 0,
    ensures
        sample_spec(d, s, t, chunk) == sample_spec(d.subrange(s, t), 0, t - s, chunk),
{
    let r = d.subrange(s, t);
    let len = t - s;
    let first = if chunk < len {
        chunk
    } else {
        len
    };
    assert(d.subrange(s, s + first) =~= r.subrange(0, first));
    if len > 2 * chunk {
        assert(d.subrange(t - chunk, t) =~= r.subrange(len - chunk, len));
    } else if len > chunk {
        assert(d.subrange(s + chunk, t) =~= r.subrange(chunk, len));
    }
}

/// A media-region fingerprint never equals a whole-file fingerprint: the
/// kinds differ in their first character.
pub proof fn law_kinds_never_collide(region_hash: u64, file_hash: u64)
    ensures
        "a:"@ + hex16(region_hash) != "f:"@ + hex16(file_hash),
{
    reveal_strlit("a:");
    reveal_strlit("f:");
    assert(("a:"@ + hex16(region_hash))[0] == 'a');
    assert(("f:"@ + hex16(file_hash))[0] == 'f');
}

/// Every extension of the MP4 family ("m4a", "mp4", "m4b", "mov", "m4v", in
/// any ASCII case) names the same container: its media region is the `mdat`
/// payload the box walk finds, so the fingerprint does not depend on which
/// of them the file carries.
pub proof fn law_mp4_family(d: Seq<u8>, e: Seq<char>, f: Seq<char>, chunk: int)
    requires
        ascii_lower_seq(e) == "m4a"@ || ascii_lower_seq(e) == "mp4"@ || ascii_lower_seq(e) == "m4b"@
            || ascii_lower_seq(e) == "mov"@ || ascii_lower_seq(e) == "m4v"@,
        ascii_lower_seq(f) == "m4a"@ || ascii_lower_seq(f) == "mp4"@ || ascii_lower_seq(f) == "m4b"@
            || ascii_lower_seq(f) == "mov"@ || ascii_lower_seq(f) == "m4v"@,
    ensures
        media_region_spec(d, Some(e)) == mp4_boxes(d, 0),
        fingerprint_spec(d, Some(e), chunk) == fingerprint_spec(d, Some(f), chunk),
{
    reveal_strlit("mp3");
    reveal_strlit("flac");
    reveal_strlit("m4a");
    reveal_strlit("mp4");
    reveal_strlit("m4b");
    reveal_strlit("mov");
    reveal_strlit("m4v");
    assert("mp3"@ != "m4a"@ && "mp3"@ != "mp4"@ && "mp3"@ != "m4b"@ && "mp3"@ != "mov"@ && "mp3"@ != "m4v"@) by {
        assert("mp3"@[2] != "m4a"@[2]);
        assert("mp3"@[2] != "mp4"@[2]);
        assert("mp3"@[1] != "m4b"@[1]);
        assert("mp3"@[1] != "mov"@[1]);
        assert("mp3"@[1] != "m4v"@[1]);
    }
    assert("flac"@.len() != 3);
    assert(container_spec(e) == Container::Mp4);
    assert(container_spec(f) == Container::Mp4);
}

} // verus!
