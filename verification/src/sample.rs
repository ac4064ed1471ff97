//! The data exchanged between the reader, the recorder and their callers.

use vstd::prelude::*;

verus! {

/// Number of sensor channels carried by every frame.
pub const CHANNEL_COUNT: usize = 5;

/// One reading of all channels, as delivered by a single frame.
#[derive(Clone, Copy, Debug, PartialEq, Eq)]
pub struct RawSample {
    /// Milliseconds, assigned by the device when the frame carries a
    /// timestamp and by the host otherwise.
    pub timestamp: i64,
    /// Raw analog readings, one per channel, in wire order.
    pub channels: [i32; 5],
}

/// The mathematical content of a [`RawSample`].
pub struct SampleView {
    pub timestamp: int,
    pub channels: Seq<int>,
}

impl View for RawSample {
    type V = SampleView;

    open spec fn view(&self) -> SampleView {
        SampleView {
            timestamp: self.timestamp as int,
            channels: Seq::new(5, |i: int| self.channels@[i] as int),
        }
    }
}

/// The views of a sequence of samples, in order.
pub open spec fn sample_views(samples: Seq<RawSample>) -> Seq<SampleView> {
    Seq::new(samples.len(), |i: int| samples[i]@)
}

/// Two-point calibration: the resting and the fully bent reading of each
/// channel.
#[derive(Clone, Debug, PartialEq, Eq)]
pub struct Calibration {
    pub baseline: Vec<i32>,
    pub max_bend: Vec<i32>,
}

/// The mathematical content of a [`Calibration`].
pub struct CalibrationView {
    pub baseline: Seq<int>,
    pub max_bend: Seq<int>,
}

/// The integers of a sequence of 32-bit values.
pub open spec fn ints(values: Seq<i32>) -> Seq<int> {
    Seq::new(values.len(), |i: int| values[i] as int)
}

impl View for Calibration {
    type V = CalibrationView;

    open spec fn view(&self) -> CalibrationView {
        CalibrationView { baseline: ints(self.baseline@), max_bend: ints(self.max_bend@) }
    }
}

impl CalibrationView {
    /// Both calibration sequences cover every channel.
    pub open spec fn complete(self) -> bool {
        self.baseline.len() >= 5 && self.max_bend.len() >= 5
    }
}

impl Calibration {
    /// Both calibration sequences cover every channel.
    pub open spec fn complete(&self) -> bool {
        self@.complete()
    }

    /// Tests whether both calibration sequences cover every channel.
    pub fn is_complete(&self) -> (b: bool)
        ensures
            b == self.complete(),
    {
        self.baseline.len() >= CHANNEL_COUNT && self.max_bend.len() >= CHANNEL_COUNT
    }
}

} // verus!
