//! The fingerprints of the recordings of a collection.
use crate::db::models::{File, NewFingerprint, TranscodeStatus};
use crate::scanner::fingerprint::{countable_points, generate_sample_timestamps, sample_points};
use crate::text::copy_bytes;
use vstd::prelude::*;

verus! {

/// The file is being transcoded or verified.
pub open spec fn in_transcoding(file: File) -> bool {
    file.transcode_status == TranscodeStatus::Transcoding || file.transcode_status
        == TranscodeStatus::Verifying
}

/// Fingerprints are to be taken from the file: it is of the collection, its duration is known, it
/// is not in transcoding and, where only new files count, has no fingerprints.
pub open spec fn needs_fingerprints(file: File, dvr_id: u128, incremental: bool) -> bool {
    &&& file.dvr_id == Some(dvr_id)
    &&& file.duration_ms is Some
    &&& !in_transcoding(file)
    &&& incremental ==> file.fingerprinted_at is None
}

/// The positions of the first `n` files from which fingerprints are to be taken.
pub open spec fn to_fingerprint(files: Seq<File>, dvr_id: u128, incremental: bool, n: int) -> Seq<
    usize,
>
    decreases n,
{
    if n <= 0 {
        Seq::empty()
    } else if needs_fingerprints(files[n - 1], dvr_id, incremental) {
        to_fingerprint(files, dvr_id, incremental, n - 1).push((n - 1) as usize)
    } else {
        to_fingerprint(files, dvr_id, incremental, n - 1)
    }
}

/// Whether a file is being transcoded or verified.
pub fn is_in_transcoding(file: &File) -> (r: bool)
    ensures
        r == in_transcoding(*file),
{
    match file.transcode_status {
        TranscodeStatus::Transcoding => true,
        TranscodeStatus::Verifying => true,
        _ => false,
    }
}

/// Whether a file belongs to a collection.
pub fn is_of(file: &File, dvr_id: u128) -> (r: bool)
    ensures
        r == (file.dvr_id == Some(dvr_id)),
{
    match file.dvr_id {
        Some(id) => id == dvr_id,
        None => false,
    }
}

/// The files from which fingerprints are to be taken.
pub fn files_to_fingerprint(files: &Vec<File>, dvr_id: u128, incremental: bool) -> (r: Vec<usize>)
    ensures
        r@ == to_fingerprint(files@, dvr_id, incremental, files@.len() as int),
{
    let mut out: Vec<usize> = Vec::new();
    for i in 0..files.len()
        invariant
            out@ == to_fingerprint(files@, dvr_id, incremental, i as int),
    {
        let f = &files[i];
        if is_of(f, dvr_id) && f.duration_ms.is_some() && !is_in_transcoding(f) && (!incremental
            || f.fingerprinted_at.is_none()) {
            out.push(i);
        }
    }
    out
}

/// The points in time at which fingerprints of a file are taken; nothing where its duration is not
/// known.
pub fn fingerprint_points(file: &File, samples: usize) -> (r: Option<Vec<i32>>)
    requires
        file.duration_ms is Some && file.duration_ms->0 > 0 && samples > 0 ==> countable_points(
            samples,
        ),
    ensures
        match file.duration_ms {
            Some(duration) => {
                &&& r matches Some(points)
                &&& duration <= 0 || samples == 0 || (samples as i32) < 0 ==> points@.len() == 0
                &&& duration > 0 && samples > 0 && samples as i32 >= 0 ==> points@
                    == sample_points(duration as int, (samples as i32) as int)
            },
            None => r is None,
        },
{
    match file.duration_ms {
        Some(duration) => Some(generate_sample_timestamps(duration, samples)),
        None => None,
    }
}

/// `row` is the record of a hash of a file.
pub open spec fn is_row(row: NewFingerprint, file_id: u128, hash: (i32, Vec<u8>)) -> bool {
    &&& row.file_id == file_id
    &&& row.timestamp_ms == hash.0
    &&& row.frame_hash matches Some(bytes) && bytes@ == hash.1@
    &&& row.audio_hash is None
}

/// The records of the hashes of a file.
pub fn fingerprint_rows(file_id: u128, hashes: &Vec<(i32, Vec<u8>)>) -> (r: Vec<NewFingerprint>)
    ensures
        r@.len() == hashes@.len(),
        forall|i: int| 0 <= i < r@.len() ==> is_row(#[trigger] r@[i], file_id, hashes@[i]),
{
    let mut out: Vec<NewFingerprint> = Vec::new();
    for i in 0..hashes.len()
        invariant
            out@.len() == i,
            forall|j: int| 0 <= j < i ==> is_row(#[trigger] out@[j], file_id, hashes@[j]),
    {
        out.push(
            NewFingerprint {
                file_id,
                timestamp_ms: hashes[i].0,
                frame_hash: Some(copy_bytes(&hashes[i].1)),
                audio_hash: None,
            },
        );
    }
    out
}

/// What is done with the frames of a file.
#[derive(Debug, Clone)]
pub enum FingerprintStep {
    /// Enter the fingerprints, and note that they were taken.
    Enter(Vec<NewFingerprint>),
    /// No frame could be taken; the file stays as it is.
    Leave,
}

/// What is done with the frames that were taken from a file, if that worked.
pub fn generate_fingerprints(
    file_id: u128,
    hashes: &Result<Vec<(i32, Vec<u8>)>, String>,
) -> (r: FingerprintStep)
    ensures
        match r {
            FingerprintStep::Enter(rows) => {
                &&& hashes matches Ok(list)
                &&& list@.len() > 0
                &&& rows@.len() == list@.len()
                &&& forall|i: int|
                    0 <= i < rows@.len() ==> is_row(#[trigger] rows@[i], file_id, list@[i])
            },
            FingerprintStep::Leave => hashes matches Ok(list) ==> list@.len() == 0,
        },
{
    match hashes {
        Ok(list) => if list.len() == 0 {
            FingerprintStep::Leave
        } else {
            FingerprintStep::Enter(fingerprint_rows(file_id, list))
        },
        Err(_) => FingerprintStep::Leave,
    }
}

/// A file is fingerprinted if and only if it is of the collection, has a known duration, is neither
/// being transcoded nor verified and, where only new files count, was not fingerprinted before. The
/// files come in order.
pub proof fn fingerprinted_files_are_the_right_ones(
    files: Seq<File>,
    dvr_id: u128,
    incremental: bool,
    n: int,
    i: int,
)
    requires
        0 <= n <= files.len() <= usize::MAX,
    ensures
        (exists|k: int|
            0 <= k < to_fingerprint(files, dvr_id, incremental, n).len() && #[trigger] to_fingerprint(
                files,
                dvr_id,
                incremental,
                n,
            )[k] == i) <==> {
            &&& 0 <= i < n
            &&& files[i].dvr_id == Some(dvr_id)
            &&& files[i].duration_ms is Some
            &&& files[i].transcode_status != TranscodeStatus::Transcoding
            &&& files[i].transcode_status != TranscodeStatus::Verifying
            &&& incremental ==> files[i].fingerprinted_at is None
        },
        forall|k: int, l: int|
            0 <= k < l < to_fingerprint(files, dvr_id, incremental, n).len()
                ==> #[trigger] to_fingerprint(files, dvr_id, incremental, n)[k]
                < #[trigger] to_fingerprint(files, dvr_id, incremental, n)[l],
    decreases n,
{
    let now = to_fingerprint(files, dvr_id, incremental, n);
    if n > 0 {
        fingerprinted_files_are_the_right_ones(files, dvr_id, incremental, n - 1, i);
        let before = to_fingerprint(files, dvr_id, incremental, n - 1);
        if exists|k: int| 0 <= k < before.len() && #[trigger] before[k] == i {
            let k = choose|k: int| 0 <= k < before.len() && #[trigger] before[k] == i;
            assert(now[k] == i);
        }
        if needs_fingerprints(files[n - 1], dvr_id, incremental) {
            assert(now[before.len() as int] == n - 1);
        }
        if exists|k: int| 0 <= k < now.len() && #[trigger] now[k] == i {
            let k = choose|k: int| 0 <= k < now.len() && #[trigger] now[k] == i;
            if k < before.len() {
                assert(before[k] == i);
            }
        }
        assert forall|k: int, l: int| 0 <= k < l < now.len() implies #[trigger] now[k]
            < #[trigger] now[l] by {
            if l < before.len() {
                assert(before[k] < before[l]);
            } else {
                fingerprinted_files_are_the_right_ones(
                    files,
                    dvr_id,
                    incremental,
                    n - 1,
                    before[k] as int,
                );
                assert(before[k] == before[k] as int);
            }
        }
    }
}

/// The record of a hash tells the file, the point in time and the hash.
pub proof fn rows_tell_their_hash(
    row: NewFingerprint,
    file_a: u128,
    file_b: u128,
    a: (i32, Vec<u8>),
    b: (i32, Vec<u8>),
)
    requires
        is_row(row, file_a, a),
        is_row(row, file_b, b),
    ensures
        file_a == file_b,
        a.0 == b.0,
        a.1@ == b.1@,
        row.audio_hash is None,
{
}

}
