//! Reading the facts an encoding run needs from what `ffprobe` reports.
use vstd::prelude::*;

use crate::text::{owned, str_eq};

verus! {

/// One stream as `ffprobe` describes it: its type and codec name, where
/// these are strings.
pub struct ProbeStream {
    pub codec_type: Option<String>,
    pub codec_name: Option<String>,
}

/// What `ffprobe` reports of a file: the container's duration text, where
/// it is a string, and the streams.
pub struct ProbeInfo {
    pub format_duration: Option<String>,
    pub streams: Vec<ProbeStream>,
}

/// The stream is a video stream.
pub open spec fn is_video_stream(s: ProbeStream) -> bool {
    s.codec_type matches Some(t) && t@ == "video"@
}

/// Index of the first video stream among `streams`, or `streams.len()`.
pub open spec fn first_video(streams: Seq<ProbeStream>) -> int
    decreases streams.len(),
{
    if streams.len() == 0 {
        0
    } else if is_video_stream(streams[0]) {
        0
    } else {
        1 + first_video(streams.drop_first())
    }
}

/// The codec of a probed file: the codec name of its first video stream,
/// `unknown` when there is no video stream or it names no codec.
pub open spec fn video_codec_of(info: ProbeInfo) -> Seq<char> {
    let i = first_video(info.streams@);
    if i < info.streams@.len() {
        match info.streams@[i].codec_name {
            Some(n) => n@,
            None => "unknown"@,
        }
    } else {
        "unknown"@
    }
}

proof fn lemma_first_video(streams: Seq<ProbeStream>, i: int)
    requires
        0 <= i <= streams.len(),
        forall|k: int| 0 <= k < i ==> !is_video_stream(#[trigger] streams[k]),
        i == streams.len() || is_video_stream(streams[i]),
    ensures
        first_video(streams) == i,
    decreases streams.len(),
{
    if streams.len() > 0 && i > 0 {
        let rest = streams.drop_first();
        assert forall|k: int| 0 <= k < i - 1 implies !is_video_stream(#[trigger] rest[k]) by {
            assert(rest[k] == streams[k + 1]);
        }
        lemma_first_video(rest, i - 1);
    }
}

/// The codec of a probed file.
pub fn video_codec(info: &ProbeInfo) -> (c: String)
    ensures
        c@ == video_codec_of(*info),
{
    let n = info.streams.len();
    let mut i: usize = 0;
    while i < n
        invariant
            n == info.streams@.len(),
            i <= n,
            forall|k: int| 0 <= k < i ==> !is_video_stream(#[trigger] info.streams@[k]),
        decreases n - i,
    {
        let video = match &info.streams[i].codec_type {
            Some(t) => str_eq(t.as_str(), "video"),
            None => false,
        };
        if video {
            proof {
                lemma_first_video(info.streams@, i as int);
            }
            return match &info.streams[i].codec_name {
                Some(name) => name.clone(),
                None => owned("unknown"),
            };
        }
        i = i + 1;
    }
    proof {
        lemma_first_video(info.streams@, n as int);
    }
    owned("unknown")
}

} // verus!
