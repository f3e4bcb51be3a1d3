use vstd::prelude::*;

verus! {

/// Command-line options of the player.
pub struct Args {
    /// The video file to play.
    pub file_name: String,
    /// Play at decoding speed, without following the stream's timestamps.
    pub no_sync: bool,
    /// Fixed interval between frames in milliseconds (zero means none).
    pub custom_clock_interval: u64,
}

/// How the player paces the frames it shows.
#[derive(Debug, Clone, Copy, PartialEq, Eq)]
pub enum FramePacing {
    /// Each frame is shown as soon as it is decoded.
    Unpaced,
    /// Frames are shown this many milliseconds apart.
    FixedInterval(u64),
    /// Each frame is shown when the stream's clock reaches its timestamp.
    StreamClock,
}

impl Args {
    /// The pacing the options ask for: none with `no_sync`; otherwise the
    /// custom interval when it is not zero; otherwise the stream's timestamps.
    pub fn frame_pacing(&self) -> (r: FramePacing)
        ensures
            r == if self.no_sync {
                FramePacing::Unpaced
            } else if self.custom_clock_interval > 0 {
                FramePacing::FixedInterval(self.custom_clock_interval)
            } else {
                FramePacing::StreamClock
            },
    {
        if self.no_sync {
            FramePacing::Unpaced
        } else if self.custom_clock_interval > 0 {
            FramePacing::FixedInterval(self.custom_clock_interval)
        } else {
            FramePacing::StreamClock
        }
    }
}

} // verus!
