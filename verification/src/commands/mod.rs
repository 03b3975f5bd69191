//! What the commands of the program decide.
pub mod clusters;
pub mod dvr;
pub mod fingerprints;
pub mod identify;
pub mod scan;
pub mod stats;
pub mod thumbnails;
pub mod transcode;
pub mod verify;

use crate::score::Score;
use vstd::prelude::*;

verus! {

/// A command of the program.
#[derive(Debug, Clone)]
pub enum Command {
    /// Scan the directory for video files and extract metadata.
    Scan { extensions: String },
    /// Generate fingerprints for scanned files.
    Fingerprint { samples: usize, incremental: bool, unverified: bool },
    /// Generate thumbnail images for the review.
    Thumbnails { count: usize, clear: bool, force: bool },
    /// Build clusters from fingerprints.
    Cluster { threshold: Score },
    /// Start the review web server.
    Serve { addr: String, preserve_thumbnails: bool },
    /// Show statistics.
    Stats,
    /// Transcode files to H.265/HEVC for space savings.
    Transcode {
        crf: u8,
        preset: String,
        hardware: bool,
        kept_only: bool,
        limit: Option<usize>,
        unverified: bool,
        temp_dir: Option<String>,
    },
    /// Look up files on TMDB to normalize titles for clustering.
    Identify { dry_run: bool, incremental: bool },
    /// Verify this is the correct collection by checking fingerprints.
    Verify,
}

impl Command {
    /// The command does not verify the collection first.
    pub open spec fn skips(self) -> bool {
        match self {
            Command::Verify => true,
            Command::Stats => true,
            Command::Identify { dry_run, incremental } => true,
            Command::Fingerprint { samples, incremental, unverified } => unverified,
            Command::Transcode {
                crf,
                preset,
                hardware,
                kept_only,
                limit,
                unverified,
                temp_dir,
            } => unverified,
            _ => false,
        }
    }

    /// Whether the command does not verify the collection first: the ones that need no fingerprint,
    /// and the ones that were told so.
    pub fn skip_verify(&self) -> (r: bool)
        ensures
            r == self.skips(),
    {
        match self {
            Command::Verify => true,
            Command::Stats => true,
            Command::Identify { dry_run: _, incremental: _ } => true,
            Command::Fingerprint { samples: _, incremental: _, unverified } => *unverified,
            Command::Transcode {
                crf: _,
                preset: _,
                hardware: _,
                kept_only: _,
                limit: _,
                unverified,
                temp_dir: _,
            } => *unverified,
            _ => false,
        }
    }
}

/// Only a command that was told so, or that neither reads nor takes pictures, does without the
/// verification. One that was told so always does.
pub proof fn only_some_commands_skip(c: Command)
    ensures
        c is Scan || c is Thumbnails || c is Cluster || c is Serve ==> !c.skips(),
        c is Stats || c is Identify || c is Verify ==> c.skips(),
        c is Fingerprint ==> c.skips() == c->Fingerprint_unverified,
        c is Transcode ==> c.skips() == c->Transcode_unverified,
{
}

}
