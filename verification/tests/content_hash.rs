use waverunner::content_hash::{hash_file, hash_video_file, media_region, syncsafe};
use waverunner::fingerprint_reads::{FingerprintReads, ReadStep};

fn id3(tag_body: &[u8]) -> Vec<u8> {
    let mut v = Vec::new();
    v.extend_from_slice(b"ID3");
    v.extend_from_slice(&[3, 0, 0]);
    let s = tag_body.len() as u64;
    v.extend_from_slice(&[
        ((s >> 21) & 0x7f) as u8,
        ((s >> 14) & 0x7f) as u8,
        ((s >> 7) & 0x7f) as u8,
        (s & 0x7f) as u8,
    ]);
    v.extend_from_slice(tag_body);
    v
}

#[test]
fn mp3_hash_survives_id3_retag() {
    let audio = vec![0xFFu8; 5000];
    let mut a = id3(&vec![1u8; 300]);
    a.extend_from_slice(&audio);
    let mut b = id3(&vec![2u8; 900]);
    b.extend_from_slice(&audio);
    // b also gets an ID3v1 trailer.
    let mut v1 = vec![0u8; 128];
    v1[0..3].copy_from_slice(b"TAG");
    b.extend_from_slice(&v1);
    let ha = hash_file(&a, Some("mp3")).unwrap();
    let hb = hash_file(&b, Some("mp3")).unwrap();
    assert!(ha.starts_with("a:"), "expected audio-region hash, got {ha}");
    assert_eq!(ha, hb, "retagging must not change the audio hash");
}

#[test]
fn different_audio_differs_and_unknown_ext_falls_back() {
    let a = vec![7u8; 4000];
    let b = vec![8u8; 4000];
    let ha = hash_file(&a, Some("xyz")).unwrap();
    let hb = hash_file(&b, Some("xyz")).unwrap();
    assert!(ha.starts_with("f:"), "unknown container → full-file hash");
    assert_ne!(ha, hb);
}

#[test]
fn flac_region_walks_metadata_blocks() {
    let mut v = Vec::new();
    v.extend_from_slice(b"fLaC");
    v.extend_from_slice(&[0x00, 0, 0, 10]);
    v.extend_from_slice(&[0u8; 10]);
    v.extend_from_slice(&[0x84, 0, 0, 4]);
    v.extend_from_slice(&[0u8; 4]);
    let audio = vec![9u8; 2000];
    v.extend_from_slice(&audio);
    let mut v2 = Vec::new();
    v2.extend_from_slice(b"fLaC");
    v2.extend_from_slice(&[0x00, 0, 0, 50]);
    v2.extend_from_slice(&[3u8; 50]);
    v2.extend_from_slice(&[0x84, 0, 0, 4]);
    v2.extend_from_slice(&[0u8; 4]);
    v2.extend_from_slice(&audio);
    let ha = hash_file(&v, Some("flac")).unwrap();
    let hb = hash_file(&v2, Some("flac")).unwrap();
    assert!(ha.starts_with("a:"));
    assert_eq!(ha, hb);
}

#[test]
fn empty_file_has_no_fingerprint() {
    assert_eq!(hash_file(&[], Some("mp3")), None);
    assert_eq!(hash_video_file(&[], Some("mkv")), None);
}

#[test]
fn region_arithmetic() {
    assert_eq!(syncsafe(&[0, 0, 2, 0x2c]), 300);
    let mut a = id3(&vec![1u8; 300]);
    a.extend_from_slice(&vec![0xFFu8; 5000]);
    assert_eq!(media_region(&a, Some("mp3")), Some((310, 5310)));
    // mp4: a 16-byte ftyp box, then an mdat box of 24 bytes.
    let mut m = Vec::new();
    m.extend_from_slice(&[0, 0, 0, 16]);
    m.extend_from_slice(b"ftyp");
    m.extend_from_slice(&[0u8; 8]);
    m.extend_from_slice(&[0, 0, 0, 24]);
    m.extend_from_slice(b"mdat");
    m.extend_from_slice(&[5u8; 16]);
    assert_eq!(media_region(&m, Some("m4a")), Some((24, 40)));
}

#[test]
fn fingerprint_is_the_streamed_xxh3_of_length_and_ends() {
    // The whole-file fingerprint hashes the length (little-endian) followed
    // by the region itself when it is smaller than two chunks.
    let data = vec![42u8; 1000];
    let mut hasher = xxhash_rust::xxh3::Xxh3::new();
    hasher.update(&(1000u64).to_le_bytes());
    hasher.update(&data);
    let expected = format!("f:{:016x}", hasher.digest());
    assert_eq!(hash_video_file(&data, Some("xyz")).unwrap(), expected);
}

fn by_reads(data: &[u8], ext: Option<&str>, chunk: u64) -> (Option<String>, u64, u64) {
    let (mut p, mut step) = FingerprintReads::start(data.len() as u64, ext, chunk);
    let mut total = 0u64;
    let mut largest = 0u64;
    loop {
        match step {
            ReadStep::Done(r) => return (r, total, largest),
            ReadStep::Read { at, len } => {
                let (a, n) = (at as usize, len as usize);
                assert!(a + n <= data.len());
                total += len;
                largest = largest.max(len);
                step = p.feed(&data[a..a + n]);
            },
        }
    }
}

fn mp4_file(payload: &[u8]) -> Vec<u8> {
    let mut v = Vec::new();
    v.extend_from_slice(&24u32.to_be_bytes());
    v.extend_from_slice(b"ftyp");
    v.extend_from_slice(&[0u8; 16]);
    v.extend_from_slice(&((payload.len() + 8) as u32).to_be_bytes());
    v.extend_from_slice(b"mdat");
    v.extend_from_slice(payload);
    v.extend_from_slice(&12u32.to_be_bytes());
    v.extend_from_slice(b"free");
    v.extend_from_slice(&[0u8; 4]);
    v
}

#[test]
fn reading_by_ranges_gives_the_same_fingerprint() {
    let mut mp3 = id3(&vec![1u8; 300]);
    mp3.extend_from_slice(&(0..20000u32).map(|i| (i % 251) as u8).collect::<Vec<u8>>());
    let mut v1 = vec![0u8; 128];
    v1[0..3].copy_from_slice(b"TAG");
    mp3.extend_from_slice(&v1);
    let mut flac = Vec::new();
    flac.extend_from_slice(b"fLaC");
    flac.extend_from_slice(&[0x00, 0, 0, 10]);
    flac.extend_from_slice(&[0u8; 10]);
    flac.extend_from_slice(&[0x84, 0, 0, 4]);
    flac.extend_from_slice(&[0u8; 4]);
    flac.extend_from_slice(&vec![9u8; 9000]);
    let mut flac_id3 = id3(&vec![5u8; 50]);
    flac_id3.extend_from_slice(&flac);
    let mp4 = mp4_file(&(0..30000u32).map(|i| (i % 13) as u8).collect::<Vec<u8>>());
    let other = vec![7u8; 12345];
    let cases: Vec<(&[u8], Option<&str>)> = vec![
        (&mp3, Some("mp3")),
        (&flac, Some("flac")),
        (&flac_id3, Some("FLAC")),
        (&mp4, Some("m4a")),
        (&other, Some("xyz")),
        (&other, None),
        (&mp3[..5], Some("mp3")),
        (&[], Some("mp3")),
    ];
    for (data, ext) in cases {
        for chunk in [0u64, 100, 4096, 1 << 20] {
            let whole = waverunner::content_hash::hash_with_chunk(data, ext, chunk);
            let (parts, _, largest) = by_reads(data, ext, chunk);
            assert_eq!(parts, whole, "{:?} chunk {}", ext, chunk);
            assert!(largest <= chunk.max(160));
        }
    }
}

#[test]
fn reading_by_ranges_reads_only_the_ends() {
    let mp4 = mp4_file(&vec![3u8; 200_000]);
    let (h, total, _) = by_reads(&mp4, Some("mp4"), 1000);
    assert_eq!(h, waverunner::content_hash::hash_with_chunk(&mp4, Some("mp4"), 1000));
    assert!(total < 3000, "read {} bytes", total);
    assert!(h.unwrap().starts_with("a:"));
}
