//! Perceptual fingerprints of frames.
use crate::numbers::{decimal, decimal_text, push_decimal, seconds, seconds_text};
use crate::text::{copy_bytes, push_text, texts};
use img_hash::image::ImageDecoder;
use vstd::prelude::*;

verus! {

/// The number of bits that are set in a byte.
pub open spec fn ones(x: u8) -> nat
    decreases x,
{
    if x == 0 {
        0
    } else {
        (x % 2) as nat + ones(x / 2)
    }
}

/// A byte has eight bits.
pub proof fn ones_at_most_eight(x: u8)
    ensures
        ones(x) <= 8,
{
    reveal_with_fuel(ones, 9);
}

/// The number of bits in which two hashes of one length differ.
pub open spec fn hamming(a: Seq<u8>, b: Seq<u8>) -> nat
    recommends
        a.len() == b.len(),
    decreases a.len(),
{
    if a.len() == 0 {
        0
    } else {
        hamming(a.drop_last(), b.drop_last()) + ones(a.last() ^ b.last())
    }
}

/// The distance of two hashes can be counted in 32 bits.
pub open spec fn countable(a: Seq<u8>, b: Seq<u8>) -> bool {
    a.len() == b.len() ==> hamming(a, b) <= u32::MAX
}

/// Two hashes of one length differ in at most eight bits for each byte.
pub proof fn hamming_is_bounded(a: Seq<u8>, b: Seq<u8>)
    requires
        a.len() == b.len(),
    ensures
        hamming(a, b) <= 8 * a.len(),
    decreases a.len(),
{
    if a.len() > 0 {
        hamming_is_bounded(a.drop_last(), b.drop_last());
        ones_at_most_eight(a.last() ^ b.last());
    }
}

/// The distance does not depend on the order of the two hashes.
pub proof fn hamming_is_symmetric(a: Seq<u8>, b: Seq<u8>)
    requires
        a.len() == b.len(),
    ensures
        hamming(a, b) == hamming(b, a),
    decreases a.len(),
{
    if a.len() > 0 {
        hamming_is_symmetric(a.drop_last(), b.drop_last());
        let x = a.last();
        let y = b.last();
        assert(x ^ y == y ^ x) by (bit_vector);
    }
}

/// Two hashes of one length are at distance zero exactly where they are the same.
pub proof fn hamming_zero_means_equal(a: Seq<u8>, b: Seq<u8>)
    requires
        a.len() == b.len(),
    ensures
        hamming(a, b) == 0 <==> a == b,
    decreases a.len(),
{
    if a.len() == 0 {
        assert(a =~= b);
    } else {
        hamming_zero_means_equal(a.drop_last(), b.drop_last());
        let x = a.last();
        let y = b.last();
        assert(x ^ y == 0 <==> x == y) by (bit_vector);
        lemma_no_ones(x ^ y);
        assert(a =~= a.drop_last().push(x));
        assert(b =~= b.drop_last().push(y));
    }
}

/// The distance never grows by a detour over a third hash.
pub proof fn hamming_triangle(a: Seq<u8>, b: Seq<u8>, c: Seq<u8>)
    requires
        a.len() == b.len(),
        b.len() == c.len(),
    ensures
        hamming(a, c) <= hamming(a, b) + hamming(b, c),
    decreases a.len(),
{
    if a.len() > 0 {
        hamming_triangle(a.drop_last(), b.drop_last(), c.drop_last());
        let x = a.last() ^ b.last();
        let y = b.last() ^ c.last();
        lemma_ones_of_xor(x, y);
        let p = a.last();
        let q = b.last();
        let r = c.last();
        assert((p ^ q) ^ (q ^ r) == p ^ r) by (bit_vector);
    }
}

proof fn lemma_no_ones(x: u8)
    ensures
        ones(x) == 0 <==> x == 0,
    decreases x,
{
    if x != 0 {
        lemma_no_ones(x / 2);
    }
}

proof fn lemma_ones_of_xor(x: u8, y: u8)
    ensures
        ones(x ^ y) <= ones(x) + ones(y),
    decreases x,
{
    assert((x ^ y) / 2 == (x / 2) ^ (y / 2)) by (bit_vector);
    assert((x ^ y) % 2 <= (x % 2) + (y % 2)) by (bit_vector);
    if x == 0 {
        assert(0u8 ^ y == y) by (bit_vector);
    } else {
        lemma_ones_of_xor(x / 2, y / 2);
        if y == 0 {
            assert(x ^ 0u8 == x) by (bit_vector);
        }
    }
}

fn count_ones(x: u8) -> (r: u32)
    ensures
        r == ones(x),
{
    proof {
        ones_at_most_eight(x);
    }
    let mut rest: u8 = x;
    let mut count: u32 = 0;
    while rest != 0
        invariant
            ones(x) == count + ones(rest),
            ones(x) <= 8,
        decreases rest,
    {
        count += (rest % 2) as u32;
        rest = rest / 2;
    }
    count
}

/// The width and the height that bytes in the format PNG give for their picture; nothing where they
/// are not in that format.
pub uninterp spec fn picture_size(bytes: Seq<u8>) -> Option<(u32, u32)>;

/// Bytes can be decoded as a picture in the format PNG.
pub uninterp spec fn is_picture(bytes: Seq<u8>) -> bool;

/// A picture is not empty, and there is room for it and for what it is reduced over: a pixel takes
/// up to eight bytes, and a hash up to 4096 rows.
pub open spec fn is_handy(size: (u32, u32)) -> bool {
    &&& size.0 > 0
    &&& size.1 > 0
    &&& 8 * (size.0 * (size.1 + 4096)) <= isize::MAX
}

/// Bytes are a picture of which a hash can be made.
pub open spec fn is_hashable(bytes: Seq<u8>) -> bool {
    &&& picture_size(bytes) matches Some(size)
    &&& is_handy(size)
    &&& is_picture(bytes)
}

/// `hash` is a gradient hash, of the given width and height, of the picture that the bytes hold.
pub uninterp spec fn is_hash_of(hash: Seq<u8>, bytes: Seq<u8>, width: u32, height: u32) -> bool;

/// Half of a number that is rounded up to an even one.
pub open spec fn half(n: int) -> int {
    (n + 1) / 2
}

/// The length of a hash in bytes: a bit for each two neighbours, in rows and in columns, of a
/// picture that has a column and a row more than half of the hash.
pub open spec fn hash_len(width: int, height: int) -> int {
    let bits = half(width) * (half(height) + 1) + (half(width) + 1) * half(height);
    (bits + 7) / 8
}

/// `img_hash::image::codecs::png::PngDecoder::new` reads the front of a picture, up to its pixels,
/// and `ImageDecoder::dimensions` gives its width and its height, either of which may be zero. What
/// they are for given bytes is named, not stated.
#[verifier::external_body]
fn read_size(bytes: &[u8]) -> (r: Option<(u32, u32)>)
    ensures
        r == picture_size(bytes@),
{
    let decoder = img_hash::image::codecs::png::PngDecoder::new(bytes).ok()?;
    Some(decoder.dimensions())
}

/// `img_hash::image::load_from_memory_with_format` decodes a picture, and
/// `img_hash::Hasher::hash_image`, with `HashAlg::DoubleGradient` and the given size, makes a hash
/// of its gradients; neither takes a picture that is empty or larger than memory. There is a hash
/// where the bytes are a picture; it is one of that picture for that size, and its length depends on
/// the size alone. Which bits are set rests on a resize filter that takes sines in floating point,
/// whose last digits vary between machines: so `is_hash_of` relates a hash to its picture, and does
/// not say that there is only one.
#[verifier::external_body]
fn hash_picture(bytes: &[u8], width: u32, height: u32) -> (r: Option<Vec<u8>>)
    requires
        width <= 4096,
        height <= 4096,
        picture_size(bytes@) matches Some(size) && is_handy(size),
    ensures
        r is Some <==> is_picture(bytes@),
        r matches Some(hash) ==> is_hash_of(hash@, bytes@, width, height),
        r matches Some(hash) ==> hash@.len() == hash_len(width as int, height as int),
{
    let format = img_hash::image::ImageFormat::Png;
    let picture = img_hash::image::load_from_memory_with_format(bytes, format).ok()?;
    let config = img_hash::HasherConfig::new().hash_alg(img_hash::HashAlg::DoubleGradient);
    let hasher = config.hash_size(width, height).to_hasher();
    Some(hasher.hash_image(&picture).as_bytes().to_vec())
}

/// What was taken from a recording at a point in time: a picture, or nothing.
pub type Frame = (i32, Option<Vec<u8>>);

/// The positions of the first `n` frames that are pictures of which a hash can be made.
pub open spec fn pictures(frames: Seq<Frame>, n: int) -> Seq<int>
    decreases n,
{
    if n <= 0 {
        Seq::empty()
    } else {
        match frames[n - 1].1 {
            Some(bytes) => if is_hashable(bytes@) {
                pictures(frames, n - 1).push(n - 1)
            } else {
                pictures(frames, n - 1)
            },
            None => pictures(frames, n - 1),
        }
    }
}

/// The points in time of the first `n` frames of which there is a hash, with the hashes.
pub open spec fn present(hashes: Seq<Frame>, n: int) -> Seq<(i32, Seq<u8>)>
    decreases n,
{
    if n <= 0 {
        Seq::empty()
    } else {
        match hashes[n - 1].1 {
            Some(hash) => present(hashes, n - 1).push((hashes[n - 1].0, hash@)),
            None => present(hashes, n - 1),
        }
    }
}

/// The views of a list of hashes.
pub open spec fn hash_list(list: Seq<(i32, Vec<u8>)>) -> Seq<(i32, Seq<u8>)> {
    list.map_values(|h: (i32, Vec<u8>)| (h.0, h.1@))
}

/// The name of the file that a frame is written to.
pub fn frame_name(timestamp_ms: i32) -> (r: String)
    ensures
        r@ == "frame_"@ + decimal(timestamp_ms as int) + ".png"@,
{
    let mut name = "frame_".to_owned();
    name.append(&decimal_text(timestamp_ms as i64));
    name.append(".png");
    name
}

/// The arguments with which a frame is taken from a recording: without the tenth of the picture at
/// each edge, where the logos are.
pub fn frame_args(video_path: &str, timestamp_ms: i32, frame_path: &str) -> (r: Vec<String>)
    ensures
        texts(r@) == seq![
            "-ss"@,
            seconds(timestamp_ms as int),
            "-i"@,
            video_path@,
            "-vframes"@,
            "1"@,
            "-vf"@,
            "crop=iw*0.8:ih*0.8:iw*0.1:ih*0.1"@,
            "-y"@,
            frame_path@,
        ],
{
    let mut args: Vec<String> = Vec::new();
    push_text(&mut args, "-ss");
    push_text(&mut args, &seconds_text(timestamp_ms));
    push_text(&mut args, "-i");
    push_text(&mut args, video_path);
    push_text(&mut args, "-vframes");
    push_text(&mut args, "1");
    push_text(&mut args, "-vf");
    push_text(&mut args, "crop=iw*0.8:ih*0.8:iw*0.1:ih*0.1");
    push_text(&mut args, "-y");
    push_text(&mut args, frame_path);
    args
}

/// The name of the file that the frame with the given number is written to.
pub fn numbered_frame_name(number: u64) -> (r: String)
    ensures
        r@ == "frame_"@ + decimal(number as int) + ".png"@,
{
    let mut name = "frame_".to_owned();
    push_decimal(&mut name, number as i128);
    name.append(".png");
    name
}

/// The arguments with which the frame with the given number is taken from a recording: without the
/// tenth of the picture at each edge, where the logos are.
pub fn numbered_frame_args(video_path: &str, number: u64, frame_path: &str) -> (r: Vec<String>)
    ensures
        texts(r@) == seq![
            "-i"@,
            video_path@,
            "-vf"@,
            "select=eq(n\\,"@ + decimal(number as int) + "),crop=iw*0.8:ih*0.8:iw*0.1:ih*0.1"@,
            "-vframes"@,
            "1"@,
            "-y"@,
            frame_path@,
        ],
{
    let mut filter = "select=eq(n\\,".to_owned();
    push_decimal(&mut filter, number as i128);
    filter.append("),crop=iw*0.8:ih*0.8:iw*0.1:ih*0.1");
    let mut args: Vec<String> = Vec::new();
    push_text(&mut args, "-i");
    push_text(&mut args, video_path);
    push_text(&mut args, "-vf");
    push_text(&mut args, &filter);
    push_text(&mut args, "-vframes");
    push_text(&mut args, "1");
    push_text(&mut args, "-y");
    push_text(&mut args, frame_path);
    args
}

/// The hashes that there are, with their points in time.
pub fn present_hashes(hashes: &Vec<Frame>) -> (r: Vec<(i32, Vec<u8>)>)
    ensures
        hash_list(r@) == present(hashes@, hashes@.len() as int),
{
    let mut out: Vec<(i32, Vec<u8>)> = Vec::new();
    for i in 0..hashes.len()
        invariant
            hash_list(out@) == present(hashes@, i as int),
    {
        if let Some(hash) = &hashes[i].1 {
            let ghost before = out@;
            out.push((hashes[i].0, copy_bytes(hash)));
            assert(hash_list(out@) =~= hash_list(before).push((hashes@[i as int].0, hash@)));
        }
    }
    out
}

/// Makes fingerprints of frames.
#[derive(Debug, Clone, Copy)]
pub struct Fingerprinter {
    pub hash_width: u32,
    pub hash_height: u32,
}

impl Default for Fingerprinter {
    fn default() -> (r: Self)
        ensures
            r.hash_width == 8,
            r.hash_height == 8,
    {
        Fingerprinter::new()
    }
}

impl Fingerprinter {
    /// A fingerprinter with hashes of eight by eight bits.
    pub fn new() -> (r: Self)
        ensures
            r.hash_width == 8,
            r.hash_height == 8,
    {
        Fingerprinter { hash_width: 8, hash_height: 8 }
    }

    /// The hash of a picture; nothing where the bytes are not one, or the picture is empty or larger
    /// than memory.
    pub fn hash_frame(&self, picture: &[u8]) -> (r: Option<Vec<u8>>)
        requires
            self.hash_width <= 4096,
            self.hash_height <= 4096,
        ensures
            r is Some <==> is_hashable(picture@),
            r matches Some(hash) ==> is_hash_of(
                hash@,
                picture@,
                self.hash_width,
                self.hash_height,
            ),
            r matches Some(hash) ==> hash@.len() == hash_len(
                self.hash_width as int,
                self.hash_height as int,
            ),
    {
        let (width, height) = match read_size(picture) {
            Some(size) => size,
            None => {
                return None;
            },
        };
        let rows: u128 = height as u128 + 4096;
        assert(0 <= width * rows <= 0x2_0000_0000_0000_0000) by (nonlinear_arith)
            requires
                width <= u32::MAX,
                rows <= 0x2_0000_0000,
        ;
        let room: u128 = 8 * (width as u128 * rows);
        if width == 0 || height == 0 || room > isize::MAX as u128 {
            return None;
        }
        hash_picture(picture, self.hash_width, self.hash_height)
    }

    /// The hashes of the frames of a recording, with the points in time at which they were taken.
    /// Frames that could not be taken or are not pictures are left out.
    pub fn extract_frame_hashes(&self, frames: &Vec<Frame>) -> (r: Vec<(i32, Vec<u8>)>)
        requires
            self.hash_width <= 4096,
            self.hash_height <= 4096,
        ensures
            r@.len() == pictures(frames@, frames@.len() as int).len(),
            forall|k: int|
                0 <= k < r@.len() ==> self.is_hashed(
                    (#[trigger] r@[k]).0,
                    r@[k].1@,
                    frames@[pictures(frames@, frames@.len() as int)[k]],
                ),
    {
        let mut hashes: Vec<Frame> = Vec::new();
        for i in 0..frames.len()
            invariant
                self.hash_width <= 4096,
                self.hash_height <= 4096,
                hashes@.len() == i,
                forall|k: int| 0 <= k < i ==> self.hashes(#[trigger] hashes@[k], frames@[k]),
        {
            let hash = match &frames[i].1 {
                Some(bytes) => self.hash_frame(bytes),
                None => None,
            };
            hashes.push((frames[i].0, hash));
        }
        let out = present_hashes(&hashes);
        proof {
            self.lemma_hashes_of_pictures(hashes@, frames@, frames@.len() as int);
            assert forall|k: int| 0 <= k < out@.len() implies self.is_hashed(
                (#[trigger] out@[k]).0,
                out@[k].1@,
                frames@[pictures(frames@, frames@.len() as int)[k]],
            ) by {
                assert(hash_list(out@)[k] == (out@[k].0, out@[k].1@));
            }
        }
        out
    }

    /// `hash` was made of a frame that was taken at the point in time.
    pub open spec fn is_hashed(self, timestamp_ms: i32, hash: Seq<u8>, frame: Frame) -> bool {
        &&& timestamp_ms == frame.0
        &&& is_hash_of(hash, frame.1->0@, self.hash_width, self.hash_height)
        &&& hash.len() == hash_len(self.hash_width as int, self.hash_height as int)
    }

    /// There is a hash of a frame where that is a picture.
    spec fn hashes(self, hash: Frame, frame: Frame) -> bool {
        &&& hash.0 == frame.0
        &&& hash.1 is Some <==> frame.1 is Some && is_hashable(frame.1->0@)
        &&& hash.1 is Some ==> self.is_hashed(hash.0, hash.1->0@, frame)
    }

    proof fn lemma_hashes_of_pictures(self, hashes: Seq<Frame>, frames: Seq<Frame>, n: int)
        requires
            0 <= n <= frames.len(),
            hashes.len() == frames.len(),
            forall|k: int| 0 <= k < n ==> self.hashes(#[trigger] hashes[k], frames[k]),
        ensures
            present(hashes, n).len() == pictures(frames, n).len(),
            forall|k: int|
                0 <= k < present(hashes, n).len() ==> self.is_hashed(
                    (#[trigger] present(hashes, n)[k]).0,
                    present(hashes, n)[k].1,
                    frames[pictures(frames, n)[k]],
                ),
        decreases n,
    {
        if n > 0 {
            self.lemma_hashes_of_pictures(hashes, frames, n - 1);
            assert(self.hashes(hashes[n - 1], frames[n - 1]));
            assert forall|k: int| 0 <= k < present(hashes, n).len() implies self.is_hashed(
                (#[trigger] present(hashes, n)[k]).0,
                present(hashes, n)[k].1,
                frames[pictures(frames, n)[k]],
            ) by {
                if k < present(hashes, n - 1).len() {
                    assert(present(hashes, n)[k] == present(hashes, n - 1)[k]);
                    assert(pictures(frames, n)[k] == pictures(frames, n - 1)[k]);
                }
            }
        }
    }

    /// The number of bits in which two hashes differ; the greatest number where their lengths
    /// differ.
    pub fn hamming_distance(a: &[u8], b: &[u8]) -> (r: u32)
        requires
            countable(a@, b@),
        ensures
            r == (if a@.len() == b@.len() {
                hamming(a@, b@) as u32
            } else {
                u32::MAX
            }),
    {
        if a.len() != b.len() {
            return u32::MAX;
        }
        let mut distance: u32 = 0;
        for i in 0..a.len()
            invariant
                a@.len() == b@.len(),
                hamming(a@, b@) <= u32::MAX,
                distance == hamming(a@.take(i as int), b@.take(i as int)),
        {
            assert(a@.take(i + 1).drop_last() =~= a@.take(i as int));
            assert(b@.take(i + 1).drop_last() =~= b@.take(i as int));
            proof {
                lemma_hamming_grows(a@, b@, i + 1);
            }
            distance += count_ones(a[i] ^ b[i]);
        }
        assert(a@.take(a@.len() as int) =~= a@);
        assert(b@.take(b@.len() as int) =~= b@);
        distance
    }
}

proof fn lemma_hamming_grows(a: Seq<u8>, b: Seq<u8>, k: int)
    requires
        a.len() == b.len(),
        0 <= k <= a.len(),
    ensures
        hamming(a.take(k), b.take(k)) <= hamming(a, b),
    decreases a.len(),
{
    if k == a.len() {
        assert(a.take(k) =~= a);
        assert(b.take(k) =~= b);
    } else {
        lemma_hamming_grows(a.drop_last(), b.drop_last(), k);
        assert(a.drop_last().take(k) =~= a.take(k));
        assert(b.drop_last().take(k) =~= b.take(k));
    }
}

/// The points at which a recording of length `duration` is sampled `count` times: evenly spread
/// over its middle four fifths, without the ends of that stretch.
pub open spec fn sample_points(duration: int, count: int) -> Seq<i32> {
    let start = duration / 10;
    let interval = (duration - 2 * start) / (count + 1);
    Seq::new(count as nat, |i: int| (start + interval * (i + 1)) as i32)
}

/// The points at which `count` pictures are taken out of a recording of length `duration`: evenly
/// spread over all of it, without its ends.
pub open spec fn thumbnail_points(duration: int, count: int) -> Seq<i32> {
    let interval = duration / (count + 1);
    Seq::new(count as nat, |i: int| (interval * (i + 1)) as i32)
}

/// A number of points can be counted with 32 bits, and so can one more.
pub open spec fn countable_points(count: usize) -> bool {
    count as i32 != -1 && (count as i32) < i32::MAX
}

/// The steps of an even spread stay inside the stretch that is spread over.
proof fn lemma_steps_stay_inside(stretch: int, count: int, i: int)
    requires
        stretch > 0,
        count > 0,
        1 <= i <= count,
    ensures
        0 <= (stretch / (count + 1)) * i <= stretch,
        (stretch / (count + 1)) * i < stretch || stretch / (count + 1) == 0,
{
    let interval = stretch / (count + 1);
    assert(interval >= 0 && interval * (count + 1) <= stretch) by (nonlinear_arith)
        requires
            interval == stretch / (count + 1),
            count > 0,
            stretch > 0,
    ;
    assert(0 <= interval * i <= interval * count) by (nonlinear_arith)
        requires
            interval >= 0,
            1 <= i <= count,
    ;
    assert(interval * (count + 1) == interval * count + interval) by (nonlinear_arith);
}

/// The points in time at which a recording is fingerprinted. The first and the last tenth are left
/// out, where the commercials are. A recording without length has none.
pub fn generate_sample_timestamps(duration_ms: i32, count: usize) -> (r: Vec<i32>)
    requires
        duration_ms > 0 && count > 0 ==> countable_points(count),
    ensures
        duration_ms <= 0 || count == 0 || (count as i32) < 0 ==> r@.len() == 0,
        duration_ms > 0 && count > 0 && count as i32 >= 0 ==> r@ == sample_points(
            duration_ms as int,
            (count as i32) as int,
        ),
{
    if duration_ms <= 0 || count == 0 {
        return Vec::new();
    }
    let points: i32 = count as i32;
    let mut out: Vec<i32> = Vec::new();
    if points <= 0 {
        assert(points == 0 ==> out@ =~= sample_points(duration_ms as int, 0));
        return out;
    }
    let start: i32 = duration_ms / 10;
    let end: i32 = duration_ms - (duration_ms / 10);
    let usable: i32 = end - start;
    let interval: i32 = usable / (points + 1);
    let mut i: i32 = 1;
    while i <= points
        invariant
            points == count as i32,
            0 < points < i32::MAX,
            1 <= i <= points + 1,
            duration_ms > 0,
            start == duration_ms / 10,
            usable == duration_ms - 2 * start,
            usable > 0,
            interval == usable as int / (points + 1),
            out@ == sample_points(duration_ms as int, points as int).take(i - 1),
        decreases points + 1 - i,
    {
        proof {
            lemma_steps_stay_inside(usable as int, points as int, i as int);
        }
        out.push(start + interval * i);
        assert(out@ =~= sample_points(duration_ms as int, points as int).take(i as int));
        i += 1;
    }
    assert(out@ =~= sample_points(duration_ms as int, points as int));
    out
}

/// The points in time at which pictures for the review are taken, over the whole recording.
pub fn generate_thumbnail_timestamps(duration_ms: i32, count: usize) -> (r: Vec<i32>)
    requires
        duration_ms > 0 && count > 0 ==> countable_points(count),
    ensures
        duration_ms <= 0 || count == 0 || (count as i32) < 0 ==> r@.len() == 0,
        duration_ms > 0 && count > 0 && count as i32 >= 0 ==> r@ == thumbnail_points(
            duration_ms as int,
            (count as i32) as int,
        ),
{
    if duration_ms <= 0 || count == 0 {
        return Vec::new();
    }
    let points: i32 = count as i32;
    let mut out: Vec<i32> = Vec::new();
    if points <= 0 {
        assert(points == 0 ==> out@ =~= thumbnail_points(duration_ms as int, 0));
        return out;
    }
    let interval: i32 = duration_ms / (points + 1);
    let mut i: i32 = 1;
    while i <= points
        invariant
            points == count as i32,
            0 < points < i32::MAX,
            1 <= i <= points + 1,
            duration_ms > 0,
            interval == duration_ms as int / (points + 1),
            out@ == thumbnail_points(duration_ms as int, points as int).take(i - 1),
        decreases points + 1 - i,
    {
        proof {
            lemma_steps_stay_inside(duration_ms as int, points as int, i as int);
        }
        out.push(interval * i);
        assert(out@ =~= thumbnail_points(duration_ms as int, points as int).take(i as int));
        i += 1;
    }
    assert(out@ =~= thumbnail_points(duration_ms as int, points as int));
    out
}

/// Samples never touch the first or the last tenth of a recording, and they come in order.
pub proof fn samples_avoid_the_edges(duration: int, count: int, i: int, j: int)
    requires
        0 < duration <= i32::MAX,
        0 <= i <= j < count,
    ensures
        duration / 10 <= sample_points(duration, count)[i] <= duration - duration / 10,
        sample_points(duration, count)[i] <= sample_points(duration, count)[j],
{
    let stretch = duration - 2 * (duration / 10);
    lemma_steps_stay_inside(stretch, count, i + 1);
    lemma_steps_stay_inside(stretch, count, j + 1);
    let interval = stretch / (count + 1);
    assert(interval * (i + 1) <= interval * (j + 1)) by (nonlinear_arith)
        requires
            0 <= i <= j,
            interval >= 0,
    ;
}

/// Pictures are taken inside the recording, and they come in order.
pub proof fn thumbnails_stay_inside(duration: int, count: int, i: int, j: int)
    requires
        0 < duration <= i32::MAX,
        0 <= i <= j < count,
    ensures
        0 <= thumbnail_points(duration, count)[i] < duration,
        thumbnail_points(duration, count)[i] <= thumbnail_points(duration, count)[j],
{
    lemma_steps_stay_inside(duration, count, i + 1);
    lemma_steps_stay_inside(duration, count, j + 1);
    let interval = duration / (count + 1);
    assert(interval == 0 ==> interval * (i + 1) == 0) by (nonlinear_arith);
    assert(interval * (i + 1) <= interval * (j + 1)) by (nonlinear_arith)
        requires
            0 <= i <= j,
            interval >= 0,
    ;
    assert(interval * (i + 1) < duration);
}

proof fn lemma_even_spread(stretch: int, count: int, i: int)
    requires
        stretch > 0,
        0 <= i < count,
    ensures
        ({
            let interval = stretch / (count + 1);
            &&& interval >= 0
            &&& interval * (i + 1) == interval * i + interval
            &&& interval * (i + 2) == interval * i + 2 * interval
            &&& interval * (0 + 1) == interval
            &&& interval * count + interval <= stretch < interval * count + interval + count + 1
        }),
{
    let interval = stretch / (count + 1);
    assert(interval >= 0 && interval * (count + 1) <= stretch < interval * (count + 1) + (count
        + 1)) by (nonlinear_arith)
        requires
            interval == stretch / (count + 1),
            count > 0,
            stretch > 0,
    ;
    assert(interval * (count + 1) == interval * count + interval && interval * (i + 1) == interval
        * i + interval && interval * (i + 2) == interval * i + 2 * interval) by (nonlinear_arith);
    assert(interval * (0 + 1) == interval) by (nonlinear_arith);
}

/// The samples are spread evenly: there are as many as asked for, each is as far from the one before
/// it as the first is from the tenth that is left out in front, and as much room is left between the
/// last of them and the tenth that is left out behind.
pub proof fn samples_are_spread_evenly(duration: int, count: int, i: int)
    requires
        0 < duration <= i32::MAX,
        0 <= i < count,
    ensures
        sample_points(duration, count).len() == count,
        i + 1 < count ==> sample_points(duration, count)[i + 1] - sample_points(duration, count)[i]
            == sample_points(duration, count)[0] - duration / 10,
        0 <= duration - duration / 10 - sample_points(duration, count)[count - 1] - (sample_points(
            duration,
            count,
        )[0] - duration / 10) <= count,
{
    let stretch = duration - 2 * (duration / 10);
    lemma_even_spread(stretch, count, i);
    lemma_steps_stay_inside(stretch, count, i + 1);
    lemma_steps_stay_inside(stretch, count, 1);
    lemma_steps_stay_inside(stretch, count, count);
    if i + 1 < count {
        lemma_steps_stay_inside(stretch, count, i + 2);
    }
}

/// The pictures are spread evenly: there are as many as asked for, each is as far from the one before
/// it as the first is from the beginning, and as much room is left behind the last of them.
pub proof fn thumbnails_are_spread_evenly(duration: int, count: int, i: int)
    requires
        0 < duration <= i32::MAX,
        0 <= i < count,
    ensures
        thumbnail_points(duration, count).len() == count,
        i + 1 < count ==> thumbnail_points(duration, count)[i + 1] - thumbnail_points(
            duration,
            count,
        )[i] == thumbnail_points(duration, count)[0],
        0 <= duration - thumbnail_points(duration, count)[count - 1] - thumbnail_points(
            duration,
            count,
        )[0] <= count,
{
    lemma_even_spread(duration, count, i);
    lemma_steps_stay_inside(duration, count, i + 1);
    lemma_steps_stay_inside(duration, count, 1);
    lemma_steps_stay_inside(duration, count, count);
    if i + 1 < count {
        lemma_steps_stay_inside(duration, count, i + 2);
    }
}

/// Hashes are made of the frames that are pictures, in their order, and of no others.
pub proof fn pictures_are_hashed(frames: Seq<Frame>, n: int, i: int)
    requires
        0 <= n <= frames.len(),
    ensures
        pictures(frames, n).contains(i) <==> 0 <= i < n && frames[i].1 is Some && is_hashable(
            frames[i].1->0@,
        ),
        forall|k: int, l: int|
            0 <= k < l < pictures(frames, n).len() ==> #[trigger] pictures(frames, n)[k]
                < #[trigger] pictures(frames, n)[l],
    decreases n,
{
    let now = pictures(frames, n);
    if n > 0 {
        pictures_are_hashed(frames, n - 1, i);
        let before = pictures(frames, n - 1);
        if before.contains(i) {
            let k = choose|k: int| 0 <= k < before.len() && before[k] == i;
            assert(now[k] == i);
        }
        if frames[n - 1].1 is Some && is_hashable(frames[n - 1].1->0@) {
            assert(now[before.len() as int] == n - 1);
        }
        if now.contains(i) {
            let k = choose|k: int| 0 <= k < now.len() && now[k] == i;
            if k < before.len() {
                assert(before[k] == i);
            }
        }
        assert forall|k: int, l: int| 0 <= k < l < now.len() implies #[trigger] now[k]
            < #[trigger] now[l] by {
            if l < before.len() {
                assert(before[k] < before[l]);
            } else {
                pictures_are_hashed(frames, n - 1, before[k]);
                assert(before.contains(before[k]));
            }
        }
    }
}

/// The hashes that there are keep their points in time, and none is left out or made up.
pub proof fn hashes_keep_their_times(hashes: Seq<Frame>, n: int, t: i32, hash: Seq<u8>)
    requires
        0 <= n <= hashes.len(),
    ensures
        present(hashes, n).contains((t, hash)) <==> exists|i: int|
            0 <= i < n && (#[trigger] hashes[i]).0 == t && hashes[i].1 is Some && hashes[i].1->0@
                == hash,
        n > 0 && hashes[n - 1].1 is Some ==> present(hashes, n).last() == (
            hashes[n - 1].0,
            hashes[n - 1].1->0@,
        ),
    decreases n,
{
    let now = present(hashes, n);
    if n > 0 {
        hashes_keep_their_times(hashes, n - 1, t, hash);
        let before = present(hashes, n - 1);
        if before.contains((t, hash)) {
            let k = choose|k: int| 0 <= k < before.len() && before[k] == (t, hash);
            assert(now[k] == (t, hash));
        }
        if hashes[n - 1].1 is Some {
            assert(now[before.len() as int] == (hashes[n - 1].0, hashes[n - 1].1->0@));
        }
        if now.contains((t, hash)) {
            let k = choose|k: int| 0 <= k < now.len() && now[k] == (t, hash);
            if k < before.len() {
                assert(before[k] == (t, hash));
            }
        }
    }
}

/// The bits in which two hashes differ add up over their parts, and a single byte differs from
/// itself with one bit turned over in one bit.
pub proof fn differing_bits_add_up(a: Seq<u8>, b: Seq<u8>, c: Seq<u8>, d: Seq<u8>)
    requires
        a.len() == b.len(),
        c.len() == d.len(),
    ensures
        hamming(a + c, b + d) == hamming(a, b) + hamming(c, d),
        forall|x: u8| #[trigger] hamming(seq![x], seq![x ^ 1]) == 1,
    decreases c.len(),
{
    if c.len() > 0 {
        differing_bits_add_up(a, b, c.drop_last(), d.drop_last());
        assert((a + c).drop_last() =~= a + c.drop_last());
        assert((b + d).drop_last() =~= b + d.drop_last());
        assert((a + c).last() == c.last() && (b + d).last() == d.last());
    } else {
        assert(a + c =~= a);
        assert(b + d =~= b);
    }
    assert forall|x: u8| #[trigger] hamming(seq![x], seq![x ^ 1]) == 1 by {
        let y: u8 = x ^ 1;
        assert(x ^ (x ^ 1) == 1u8) by (bit_vector);
        assert(seq![x].drop_last() =~= Seq::<u8>::empty());
        assert(seq![y].drop_last() =~= Seq::<u8>::empty());
        reveal_with_fuel(ones, 9);
        reveal_with_fuel(hamming, 2);
    }
}

impl Fingerprinter {
    /// A hash that was made of a frame keeps the point in time of the frame, is one of its picture, and
    /// is as long as every other hash of the fingerprinter.
    pub proof fn hashed_frames_keep_their_time(
        self,
        time_a: i32,
        time_b: i32,
        a: Seq<u8>,
        b: Seq<u8>,
        frame: Frame,
        other: Frame,
    )
        requires
            self.is_hashed(time_a, a, frame),
            self.is_hashed(time_b, b, other),
        ensures
            time_a == frame.0,
            time_a == time_b <==> frame.0 == other.0,
            is_hash_of(a, frame.1->0@, self.hash_width, self.hash_height),
            a.len() == b.len(),
    {
    }
}

}
