//! Thumbnails of recordings.
use crate::numbers::{seconds, seconds_text};
use crate::text::{push_text, texts};
use vstd::prelude::*;

verus! {

/// The arguments with which a thumbnail is taken from a recording.
pub fn thumbnail_args(video_path: &str, timestamp_ms: i32, output: &str) -> (r: Vec<String>)
    ensures
        texts(r@) == seq![
            "-ss"@,
            seconds(timestamp_ms as int),
            "-i"@,
            video_path@,
            "-vframes"@,
            "1"@,
            "-vf"@,
            "scale=320:-1"@,
            "-y"@,
            output@,
        ],
{
    let mut args: Vec<String> = Vec::new();
    push_text(&mut args, "-ss");
    push_text(&mut args, &seconds_text(timestamp_ms));
    push_text(&mut args, "-i");
    push_text(&mut args, video_path);
    push_text(&mut args, "-vframes");
    push_text(&mut args, "1");
    push_text(&mut args, "-vf");
    push_text(&mut args, "scale=320:-1");
    push_text(&mut args, "-y");
    push_text(&mut args, output);
    args
}

/// The thumbnail that was taken, given whether the tool has done its work, what it printed, and
/// what it wrote.
pub fn extract_thumbnail(success: bool, stderr: &str, data: Vec<u8>) -> (r: Result<Vec<u8>, String>)
    ensures
        match r {
            Ok(bytes) => success && bytes == data && data@.len() > 0,
            Err(message) => {
                ||| !success && message@ == "ffmpeg failed: "@ + stderr@
                ||| success && data@.len() == 0 && message@ == "ffmpeg produced empty thumbnail"@
            },
        },
{
    if !success {
        let mut message = "ffmpeg failed: ".to_owned();
        message.append(stderr);
        return Err(message);
    }
    if data.len() == 0 {
        return Err("ffmpeg produced empty thumbnail".to_owned());
    }
    Ok(data)
}

}
