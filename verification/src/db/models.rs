//! The rows of the database and their columns.
use crate::clock::Timestamp;
use crate::score::Score;
use crate::text::same;
use vstd::prelude::*;

verus! {

/// What the review decided on a file.
#[derive(Debug, Clone, Copy, PartialEq, Eq, Structural)]
pub enum FileStatus {
    /// Not reviewed yet.
    Pending,
    /// The copy to keep.
    Kept,
    /// A copy to give up.
    Deleted,
    /// Set aside for another review.
    Skipped,
}

impl FileStatus {
    /// The text that stands for the value in the database.
    pub open spec fn sql(self) -> Seq<char> {
        match self {
            FileStatus::Pending => "pending"@,
            FileStatus::Kept => "kept"@,
            FileStatus::Deleted => "deleted"@,
            FileStatus::Skipped => "skipped"@,
        }
    }

    /// The value that a text of the database stands for.
    pub open spec fn of_sql(text: Seq<char>) -> Option<FileStatus> {
        if text == "pending"@ {
            Some(FileStatus::Pending)
        } else if text == "kept"@ {
            Some(FileStatus::Kept)
        } else if text == "deleted"@ {
            Some(FileStatus::Deleted)
        } else if text == "skipped"@ {
            Some(FileStatus::Skipped)
        } else {
            None
        }
    }

    /// Writes the value for the database.
    pub fn to_sql(&self) -> (r: &'static str)
        ensures
            r@ == self.sql(),
    {
        match self {
            FileStatus::Pending => "pending",
            FileStatus::Kept => "kept",
            FileStatus::Deleted => "deleted",
            FileStatus::Skipped => "skipped",
        }
    }

    /// Reads a value of the database. The error names a text that stands for no value.
    pub fn from_sql(text: &str) -> (r: Result<FileStatus, String>)
        ensures
            match r {
                Ok(value) => Self::of_sql(text@) == Some(value),
                Err(message) => Self::of_sql(text@) is None && message@ == "Unknown file_status: "@ + text@,
            },
    {
        if same(text, "pending") {
            Ok(FileStatus::Pending)
        } else if same(text, "kept") {
            Ok(FileStatus::Kept)
        } else if same(text, "deleted") {
            Ok(FileStatus::Deleted)
        } else if same(text, "skipped") {
            Ok(FileStatus::Skipped)
        } else {
            let mut message = "Unknown file_status: ".to_owned();
            message.append(text);
            Err(message)
        }
    }
}

/// What is written for a file status reads back as the same file status.
pub proof fn file_status_reads_back(value: FileStatus)
    ensures
        FileStatus::of_sql(value.sql()) == Some(value),
{
    reveal_strlit("pending");
    reveal_strlit("kept");
    reveal_strlit("deleted");
    reveal_strlit("skipped");
    assert("kept"@.len() != "pending"@.len());
    assert("deleted"@[0] != "pending"@[0]);
    assert("deleted"@.len() != "kept"@.len());
    assert("skipped"@[0] != "pending"@[0]);
    assert("skipped"@.len() != "kept"@.len());
    assert("skipped"@[0] != "deleted"@[0]);
}

/// A text that reads as a file status is what is written for it.
pub proof fn file_status_writes_back(text: Seq<char>, value: FileStatus)
    requires
        FileStatus::of_sql(text) == Some(value),
    ensures
        value.sql() == text,
{
}

/// The outcome of the review of a cluster.
#[derive(Debug, Clone, Copy, PartialEq, Eq, Structural)]
pub enum ReviewDecision {
    /// The files are copies of one recording.
    ConfirmedDuplicates,
    /// The files are different recordings.
    NotDuplicates,
    /// The review was put off.
    NeedsMoreReview,
}

impl ReviewDecision {
    /// The text that stands for the value in the database.
    pub open spec fn sql(self) -> Seq<char> {
        match self {
            ReviewDecision::ConfirmedDuplicates => "confirmed_duplicates"@,
            ReviewDecision::NotDuplicates => "not_duplicates"@,
            ReviewDecision::NeedsMoreReview => "needs_more_review"@,
        }
    }

    /// The value that a text of the database stands for.
    pub open spec fn of_sql(text: Seq<char>) -> Option<ReviewDecision> {
        if text == "confirmed_duplicates"@ {
            Some(ReviewDecision::ConfirmedDuplicates)
        } else if text == "not_duplicates"@ {
            Some(ReviewDecision::NotDuplicates)
        } else if text == "needs_more_review"@ {
            Some(ReviewDecision::NeedsMoreReview)
        } else {
            None
        }
    }

    /// Writes the value for the database.
    pub fn to_sql(&self) -> (r: &'static str)
        ensures
            r@ == self.sql(),
    {
        match self {
            ReviewDecision::ConfirmedDuplicates => "confirmed_duplicates",
            ReviewDecision::NotDuplicates => "not_duplicates",
            ReviewDecision::NeedsMoreReview => "needs_more_review",
        }
    }

    /// Reads a value of the database. The error names a text that stands for no value.
    pub fn from_sql(text: &str) -> (r: Result<ReviewDecision, String>)
        ensures
            match r {
                Ok(value) => Self::of_sql(text@) == Some(value),
                Err(message) => Self::of_sql(text@) is None && message@ == "Unknown review_decision: "@ + text@,
            },
    {
        if same(text, "confirmed_duplicates") {
            Ok(ReviewDecision::ConfirmedDuplicates)
        } else if same(text, "not_duplicates") {
            Ok(ReviewDecision::NotDuplicates)
        } else if same(text, "needs_more_review") {
            Ok(ReviewDecision::NeedsMoreReview)
        } else {
            let mut message = "Unknown review_decision: ".to_owned();
            message.append(text);
            Err(message)
        }
    }
}

/// What is written for a review decision reads back as the same review decision.
pub proof fn review_decision_reads_back(value: ReviewDecision)
    ensures
        ReviewDecision::of_sql(value.sql()) == Some(value),
{
    reveal_strlit("confirmed_duplicates");
    reveal_strlit("not_duplicates");
    reveal_strlit("needs_more_review");
    assert("not_duplicates"@.len() != "confirmed_duplicates"@.len());
    assert("needs_more_review"@.len() != "confirmed_duplicates"@.len());
    assert("needs_more_review"@.len() != "not_duplicates"@.len());
}

/// A text that reads as a review decision is what is written for it.
pub proof fn review_decision_writes_back(text: Seq<char>, value: ReviewDecision)
    requires
        ReviewDecision::of_sql(text) == Some(value),
    ensures
        value.sql() == text,
{
}

/// How far the transcoding of a file has come.
#[derive(Debug, Clone, Copy, PartialEq, Eq, Structural)]
pub enum TranscodeStatus {
    /// Still to be done.
    Pending,
    /// The encoder is running.
    Transcoding,
    /// The output is being compared with the input.
    Verifying,
    /// Done; the output has taken the place of the input.
    Completed,
    /// Given up.
    Failed,
}

impl TranscodeStatus {
    /// The text that stands for the value in the database.
    pub open spec fn sql(self) -> Seq<char> {
        match self {
            TranscodeStatus::Pending => "pending"@,
            TranscodeStatus::Transcoding => "transcoding"@,
            TranscodeStatus::Verifying => "verifying"@,
            TranscodeStatus::Completed => "completed"@,
            TranscodeStatus::Failed => "failed"@,
        }
    }

    /// The value that a text of the database stands for.
    pub open spec fn of_sql(text: Seq<char>) -> Option<TranscodeStatus> {
        if text == "pending"@ {
            Some(TranscodeStatus::Pending)
        } else if text == "transcoding"@ {
            Some(TranscodeStatus::Transcoding)
        } else if text == "verifying"@ {
            Some(TranscodeStatus::Verifying)
        } else if text == "completed"@ {
            Some(TranscodeStatus::Completed)
        } else if text == "failed"@ {
            Some(TranscodeStatus::Failed)
        } else {
            None
        }
    }

    /// Writes the value for the database.
    pub fn to_sql(&self) -> (r: &'static str)
        ensures
            r@ == self.sql(),
    {
        match self {
            TranscodeStatus::Pending => "pending",
            TranscodeStatus::Transcoding => "transcoding",
            TranscodeStatus::Verifying => "verifying",
            TranscodeStatus::Completed => "completed",
            TranscodeStatus::Failed => "failed",
        }
    }

    /// Reads a value of the database. The error names a text that stands for no value.
    pub fn from_sql(text: &str) -> (r: Result<TranscodeStatus, String>)
        ensures
            match r {
                Ok(value) => Self::of_sql(text@) == Some(value),
                Err(message) => Self::of_sql(text@) is None && message@ == "Unknown transcode_status: "@ + text@,
            },
    {
        if same(text, "pending") {
            Ok(TranscodeStatus::Pending)
        } else if same(text, "transcoding") {
            Ok(TranscodeStatus::Transcoding)
        } else if same(text, "verifying") {
            Ok(TranscodeStatus::Verifying)
        } else if same(text, "completed") {
            Ok(TranscodeStatus::Completed)
        } else if same(text, "failed") {
            Ok(TranscodeStatus::Failed)
        } else {
            let mut message = "Unknown transcode_status: ".to_owned();
            message.append(text);
            Err(message)
        }
    }
}

/// What is written for a transcode status reads back as the same transcode status.
pub proof fn transcode_status_reads_back(value: TranscodeStatus)
    ensures
        TranscodeStatus::of_sql(value.sql()) == Some(value),
{
    reveal_strlit("pending");
    reveal_strlit("transcoding");
    reveal_strlit("verifying");
    reveal_strlit("completed");
    reveal_strlit("failed");
    assert("transcoding"@.len() != "pending"@.len());
    assert("verifying"@.len() != "pending"@.len());
    assert("verifying"@.len() != "transcoding"@.len());
    assert("completed"@.len() != "pending"@.len());
    assert("completed"@.len() != "transcoding"@.len());
    assert("completed"@[0] != "verifying"@[0]);
    assert("failed"@.len() != "pending"@.len());
    assert("failed"@.len() != "transcoding"@.len());
    assert("failed"@.len() != "verifying"@.len());
    assert("failed"@.len() != "completed"@.len());
}

/// A text that reads as a transcode status is what is written for it.
pub proof fn transcode_status_writes_back(text: Seq<char>, value: TranscodeStatus)
    requires
        TranscodeStatus::of_sql(text) == Some(value),
    ensures
        value.sql() == text,
{
}

/// The kind of a title.
#[derive(Debug, Clone, Copy, PartialEq, Eq, Structural)]
pub enum MediaType {
    /// A series.
    Tv,
    /// A film.
    Movie,
}

impl MediaType {
    /// The text that stands for the value in the database.
    pub open spec fn sql(self) -> Seq<char> {
        match self {
            MediaType::Tv => "tv"@,
            MediaType::Movie => "movie"@,
        }
    }

    /// The value that a text of the database stands for.
    pub open spec fn of_sql(text: Seq<char>) -> Option<MediaType> {
        if text == "tv"@ {
            Some(MediaType::Tv)
        } else if text == "movie"@ {
            Some(MediaType::Movie)
        } else {
            None
        }
    }

    /// Writes the value for the database.
    pub fn to_sql(&self) -> (r: &'static str)
        ensures
            r@ == self.sql(),
    {
        match self {
            MediaType::Tv => "tv",
            MediaType::Movie => "movie",
        }
    }

    /// Reads a value of the database. The error names a text that stands for no value.
    pub fn from_sql(text: &str) -> (r: Result<MediaType, String>)
        ensures
            match r {
                Ok(value) => Self::of_sql(text@) == Some(value),
                Err(message) => Self::of_sql(text@) is None && message@ == "Unknown media_type: "@ + text@,
            },
    {
        if same(text, "tv") {
            Ok(MediaType::Tv)
        } else if same(text, "movie") {
            Ok(MediaType::Movie)
        } else {
            let mut message = "Unknown media_type: ".to_owned();
            message.append(text);
            Err(message)
        }
    }
}

/// What is written for a media type reads back as the same media type.
pub proof fn media_type_reads_back(value: MediaType)
    ensures
        MediaType::of_sql(value.sql()) == Some(value),
{
    reveal_strlit("tv");
    reveal_strlit("movie");
    assert("movie"@.len() != "tv"@.len());
}

/// A text that reads as a media type is what is written for it.
pub proof fn media_type_writes_back(text: Seq<char>, value: MediaType)
    requires
        MediaType::of_sql(text) == Some(value),
    ensures
        value.sql() == text,
{
}

/// A collection of recordings.
#[derive(Debug, Clone)]
pub struct Dvr {
    pub id: u128,
    pub name: String,
    pub created_at: Timestamp,
    pub last_verified_at: Option<Timestamp>,
}

/// A collection to be entered.
#[derive(Debug, Clone)]
pub struct NewDvr {
    pub name: String,
}

/// A recording.
#[derive(Debug, Clone)]
pub struct File {
    pub id: u128,
    pub path: String,
    pub size_bytes: i64,
    pub duration_ms: Option<i32>,
    pub video_codec: Option<String>,
    pub audio_codec: Option<String>,
    pub width: Option<i32>,
    pub height: Option<i32>,
    pub bitrate: Option<i32>,
    pub claimed_title: Option<String>,
    pub claimed_season: Option<i32>,
    pub claimed_episode: Option<i32>,
    pub content_start_ms: Option<i32>,
    pub content_end_ms: Option<i32>,
    pub status: FileStatus,
    pub created_at: Timestamp,
    pub fingerprinted_at: Option<Timestamp>,
    pub transcoded_path: Option<String>,
    pub transcoded_at: Option<Timestamp>,
    pub original_size_bytes: Option<i64>,
    pub transcode_status: TranscodeStatus,
    pub dvr_id: Option<u128>,
    pub relative_path: Option<String>,
    pub tmdb_id: Option<i32>,
    pub tmdb_media_type: Option<MediaType>,
    pub tmdb_title: Option<String>,
    pub tmdb_year: Option<i32>,
    pub identified_at: Option<Timestamp>,
}

/// A recording to be entered.
#[derive(Debug, Clone)]
pub struct NewFile {
    pub path: String,
    pub size_bytes: i64,
    pub duration_ms: Option<i32>,
    pub video_codec: Option<String>,
    pub audio_codec: Option<String>,
    pub width: Option<i32>,
    pub height: Option<i32>,
    pub bitrate: Option<i32>,
    pub claimed_title: Option<String>,
    pub claimed_season: Option<i32>,
    pub claimed_episode: Option<i32>,
    pub dvr_id: Option<u128>,
    pub relative_path: Option<String>,
}

/// A group of recordings that look alike.
#[derive(Debug, Clone)]
pub struct Cluster {
    pub id: u128,
    pub name: Option<String>,
    pub created_at: Timestamp,
}

/// A group to be entered.
#[derive(Debug, Clone)]
pub struct NewCluster {
    pub name: Option<String>,
}

/// The membership of a recording in a group.
#[derive(Debug, Clone)]
pub struct ClusterMember {
    pub cluster_id: u128,
    pub file_id: u128,
    pub similarity_score: Option<Score>,
    pub is_canonical: bool,
}

/// A membership to be entered.
#[derive(Debug, Clone)]
pub struct NewClusterMember {
    pub cluster_id: u128,
    pub file_id: u128,
    pub similarity_score: Option<Score>,
}

/// The fingerprint of a recording at a point in time.
#[derive(Debug, Clone)]
pub struct Fingerprint {
    pub id: u128,
    pub file_id: u128,
    pub timestamp_ms: i32,
    pub frame_hash: Option<Vec<u8>>,
    pub audio_hash: Option<Vec<u8>>,
}

/// A fingerprint to be entered.
#[derive(Debug, Clone)]
pub struct NewFingerprint {
    pub file_id: u128,
    pub timestamp_ms: i32,
    pub frame_hash: Option<Vec<u8>>,
    pub audio_hash: Option<Vec<u8>>,
}

/// A small picture out of a recording.
#[derive(Debug, Clone)]
pub struct Thumbnail {
    pub id: u128,
    pub file_id: u128,
    pub timestamp_ms: i32,
    pub data: Vec<u8>,
}

/// A small picture to be entered.
#[derive(Debug, Clone)]
pub struct NewThumbnail {
    pub file_id: u128,
    pub timestamp_ms: i32,
    pub data: Vec<u8>,
}

/// The review of a group.
#[derive(Debug, Clone)]
pub struct Review {
    pub id: u128,
    pub cluster_id: u128,
    pub decision: ReviewDecision,
    pub kept_file_id: Option<u128>,
    pub notes: Option<String>,
    pub reviewed_at: Timestamp,
    pub review_context: Option<Vec<String>>,
}

/// A review to be entered. The context lists the ids of the files that were reviewed.
#[derive(Debug, Clone)]
pub struct NewReview {
    pub cluster_id: u128,
    pub decision: ReviewDecision,
    pub kept_file_id: Option<u128>,
    pub notes: Option<String>,
    pub review_context: Option<Vec<String>>,
}

/// What older versions have written stays readable: each value is read from its name in small
/// letters, with underscores between the words.
pub proof fn stored_words_stay_readable()
    ensures
        FileStatus::of_sql("pending"@) == Some(FileStatus::Pending),
        FileStatus::of_sql("kept"@) == Some(FileStatus::Kept),
        FileStatus::of_sql("deleted"@) == Some(FileStatus::Deleted),
        FileStatus::of_sql("skipped"@) == Some(FileStatus::Skipped),
        ReviewDecision::of_sql("confirmed_duplicates"@) == Some(
            ReviewDecision::ConfirmedDuplicates,
        ),
        ReviewDecision::of_sql("not_duplicates"@) == Some(ReviewDecision::NotDuplicates),
        ReviewDecision::of_sql("needs_more_review"@) == Some(ReviewDecision::NeedsMoreReview),
        TranscodeStatus::of_sql("pending"@) == Some(TranscodeStatus::Pending),
        TranscodeStatus::of_sql("transcoding"@) == Some(TranscodeStatus::Transcoding),
        TranscodeStatus::of_sql("verifying"@) == Some(TranscodeStatus::Verifying),
        TranscodeStatus::of_sql("completed"@) == Some(TranscodeStatus::Completed),
        TranscodeStatus::of_sql("failed"@) == Some(TranscodeStatus::Failed),
        MediaType::of_sql("tv"@) == Some(MediaType::Tv),
        MediaType::of_sql("movie"@) == Some(MediaType::Movie),
{
    file_status_reads_back(FileStatus::Kept);
    file_status_reads_back(FileStatus::Deleted);
    file_status_reads_back(FileStatus::Skipped);
    review_decision_reads_back(ReviewDecision::NotDuplicates);
    review_decision_reads_back(ReviewDecision::NeedsMoreReview);
    transcode_status_reads_back(TranscodeStatus::Transcoding);
    transcode_status_reads_back(TranscodeStatus::Verifying);
    transcode_status_reads_back(TranscodeStatus::Completed);
    transcode_status_reads_back(TranscodeStatus::Failed);
    media_type_reads_back(MediaType::Movie);
}

}
