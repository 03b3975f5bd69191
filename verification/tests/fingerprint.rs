use dvrreview::scanner::fingerprint::{
    frame_args, frame_name, generate_sample_timestamps, generate_thumbnail_timestamps,
    numbered_frame_args, numbered_frame_name, present_hashes, Fingerprinter,
};
use img_hash::image::{DynamicImage, GrayImage, ImageOutputFormat, Luma};

fn picture(f: fn(u32, u32) -> u8) -> Vec<u8> {
    let gray = GrayImage::from_fn(64, 48, |x, y| Luma([f(x, y)]));
    let mut bytes: Vec<u8> = Vec::new();
    DynamicImage::ImageLuma8(gray).write_to(&mut bytes, ImageOutputFormat::Png).unwrap();
    bytes
}

#[test]
fn test_sample_timestamps() {
    let timestamps = generate_sample_timestamps(100_000, 5);
    assert_eq!(timestamps.len(), 5);
    for ts in &timestamps {
        assert!(*ts >= 10_000);
        assert!(*ts <= 90_000);
    }
}

#[test]
fn test_hamming_distance() {
    let a = vec![0b00000000];
    let b = vec![0b11111111];
    assert_eq!(Fingerprinter::hamming_distance(&a, &b), 8);

    let c = vec![0b10101010];
    let d = vec![0b01010101];
    assert_eq!(Fingerprinter::hamming_distance(&c, &d), 8);

    let e = vec![0b11110000];
    let f = vec![0b11110000];
    assert_eq!(Fingerprinter::hamming_distance(&e, &f), 0);
}

#[test]
fn hashes_of_different_lengths_are_as_far_apart_as_can_be() {
    assert_eq!(Fingerprinter::hamming_distance(&[1, 2], &[1]), u32::MAX);
    assert_eq!(Fingerprinter::hamming_distance(&[], &[]), 0);
}

#[test]
fn distance_is_a_metric_on_some_hashes() {
    let a = [0x0f, 0x33];
    let b = [0xff, 0x30];
    let c = [0x00, 0x01];
    let ab = Fingerprinter::hamming_distance(&a, &b);
    assert_eq!(ab, 6);
    assert_eq!(ab, Fingerprinter::hamming_distance(&b, &a));
    assert!(
        Fingerprinter::hamming_distance(&a, &c)
            <= ab + Fingerprinter::hamming_distance(&b, &c)
    );
}

#[test]
fn sample_timestamps_are_evenly_spread() {
    assert_eq!(
        generate_sample_timestamps(100_000, 4),
        vec![26_000, 42_000, 58_000, 74_000]
    );
    assert_eq!(generate_sample_timestamps(1, 3), vec![0, 0, 0]);
    assert!(generate_sample_timestamps(0, 3).is_empty());
    assert!(generate_sample_timestamps(-5, 3).is_empty());
    assert!(generate_sample_timestamps(1000, 0).is_empty());
}

#[test]
fn thumbnail_timestamps_are_evenly_spread() {
    assert_eq!(generate_thumbnail_timestamps(90_000, 8).len(), 8);
    assert_eq!(generate_thumbnail_timestamps(90_000, 2), vec![30_000, 60_000]);
    assert!(generate_thumbnail_timestamps(-1, 2).is_empty());
    assert!(generate_thumbnail_timestamps(90_000, 0).is_empty());
}

#[test]
fn frames_are_cropped_at_the_edges() {
    assert_eq!(frame_name(12500), "frame_12500.png");
    assert_eq!(
        frame_args("/dvr/a.ts", 12500, "/tmp/frame_12500.png"),
        vec![
            "-ss",
            "12.500",
            "-i",
            "/dvr/a.ts",
            "-vframes",
            "1",
            "-vf",
            "crop=iw*0.8:ih*0.8:iw*0.1:ih*0.1",
            "-y",
            "/tmp/frame_12500.png"
        ]
    );
}

#[test]
fn hash_of_a_picture_is_that_of_the_hasher() {
    let bytes = picture(|x, y| ((x * 3 + y * 5) % 251) as u8);
    let hash = Fingerprinter::new().hash_frame(&bytes).unwrap();
    assert_eq!(hash.len(), 5);
    let image = img_hash::image::load_from_memory(&bytes).unwrap();
    let hasher = img_hash::HasherConfig::new()
        .hash_alg(img_hash::HashAlg::DoubleGradient)
        .hash_size(8, 8)
        .to_hasher();
    assert_eq!(hash, hasher.hash_image(&image).as_bytes().to_vec());
}

#[test]
fn different_pictures_have_different_hashes() {
    let rising = Fingerprinter::new().hash_frame(&picture(|x, y| (x + y) as u8)).unwrap();
    let falling = Fingerprinter::new().hash_frame(&picture(|x, y| (255 - x - y) as u8)).unwrap();
    assert_eq!(Fingerprinter::hamming_distance(&rising, &falling), 40);
}

#[test]
fn hash_lengths_follow_the_size() {
    let bytes = picture(|x, _| x as u8);
    let odd = Fingerprinter { hash_width: 7, hash_height: 16 };
    assert_eq!(odd.hash_frame(&bytes).unwrap().len(), (4 * 9 + 5 * 8 + 7) / 8);
    let none = Fingerprinter { hash_width: 0, hash_height: 0 };
    assert_eq!(none.hash_frame(&bytes).unwrap().len(), 0);
}

#[test]
fn what_is_not_a_picture_has_no_hash() {
    assert!(Fingerprinter::default().hash_frame(b"not a picture").is_none());
    assert!(Fingerprinter::default().hash_frame(&[]).is_none());
}

#[test]
fn frames_without_a_picture_are_left_out() {
    let bytes = picture(|x, _| x as u8);
    let frames = vec![(1000, None), (2000, Some(bytes.clone())), (3000, Some(vec![1, 2, 3])), (4000, Some(bytes))];
    let hashes = Fingerprinter::new().extract_frame_hashes(&frames);
    let times: Vec<i32> = hashes.iter().map(|h| h.0).collect();
    assert_eq!(times, vec![2000, 4000]);
    assert_eq!(hashes[0].1, hashes[1].1);
}

#[test]
fn missing_hashes_are_left_out() {
    let hashes = vec![(1, Some(vec![7])), (2, None), (3, Some(vec![]))];
    assert_eq!(present_hashes(&hashes), vec![(1, vec![7]), (3, vec![])]);
}

fn crc(bytes: &[u8]) -> u32 {
    let mut c: u32 = u32::MAX;
    for b in bytes {
        c ^= *b as u32;
        for _ in 0..8 {
            c = if c & 1 == 1 { (c >> 1) ^ 0xedb8_8320 } else { c >> 1 };
        }
    }
    !c
}

fn chunk(out: &mut Vec<u8>, kind: &[u8], data: &[u8]) {
    out.extend((data.len() as u32).to_be_bytes());
    let body: Vec<u8> = kind.iter().chain(data).copied().collect();
    out.extend(&body);
    out.extend(crc(&body).to_be_bytes());
}

/// A picture that holds no pixels, whatever its header says.
fn hollow_picture(width: u32, height: u32, depth: u8, color: u8) -> Vec<u8> {
    let mut out: Vec<u8> = vec![137, 80, 78, 71, 13, 10, 26, 10];
    let mut header: Vec<u8> = Vec::new();
    header.extend(width.to_be_bytes());
    header.extend(height.to_be_bytes());
    header.extend([depth, color, 0, 0, 0]);
    chunk(&mut out, b"IHDR", &header);
    chunk(&mut out, b"IDAT", &[0x78, 0x01, 0x03, 0x00, 0x00, 0x00, 0x00, 0x01]);
    chunk(&mut out, b"IEND", &[]);
    out
}

#[test]
fn empty_pictures_have_no_hash() {
    let tall = hollow_picture(4, 0, 8, 0);
    let image = img_hash::image::load_from_memory(&tall);
    assert!(image.is_ok());
    assert!(Fingerprinter::new().hash_frame(&tall).is_none());
    assert!(Fingerprinter::new().hash_frame(&hollow_picture(0, 4, 8, 0)).is_none());
    assert!(Fingerprinter::new().hash_frame(&hollow_picture(0, 0, 8, 0)).is_none());
    let frames = vec![(1, Some(tall)), (2, Some(picture(|x, _| x as u8)))];
    assert_eq!(Fingerprinter::new().extract_frame_hashes(&frames).len(), 1);
}

#[test]
fn pictures_larger_than_memory_have_no_hash() {
    let huge = hollow_picture(0x1000_0000, 0xffff_ffff, 1, 0);
    assert!(Fingerprinter::new().hash_frame(&huge).is_none());
    assert!(Fingerprinter::new().hash_frame(&hollow_picture(4, 4, 8, 0)).is_none());
}

#[test]
fn frames_are_taken_by_their_number() {
    assert_eq!(numbered_frame_name(u64::MAX), "frame_18446744073709551615.png");
    assert_eq!(
        numbered_frame_args("/dvr/a.ts", 12, "/tmp/frame_12.png"),
        vec![
            "-i",
            "/dvr/a.ts",
            "-vf",
            "select=eq(n\\,12),crop=iw*0.8:ih*0.8:iw*0.1:ih*0.1",
            "-vframes",
            "1",
            "-y",
            "/tmp/frame_12.png"
        ]
    );
}
