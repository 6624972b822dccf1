//! The capture loop of the host camera: when it may start, which frames it takes, and
//! what it leaves for the video source.
use vstd::prelude::*;
use crate::text::owned;

verus! {

/// What is said where the host refused the camera.
pub open spec fn denied() -> Seq<char> {
    "macOS denied camera access. Allow IRIS under System Settings \u{2192} Privacy & Security \u{2192} Camera, then try again."@
}

/// What is said where the host gave no answer in time.
pub open spec fn timed_out() -> Seq<char> {
    "timed out waiting for the macOS camera permission prompt"@
}

fn denied_text() -> (r: String)
    ensures
        r@ == denied(),
{
    owned(
        "macOS denied camera access. Allow IRIS under System Settings \u{2192} Privacy & Security \u{2192} Camera, then try again.",
    )
}

fn timed_out_text() -> (r: String)
    ensures
        r@ == timed_out(),
{
    owned("timed out waiting for the macOS camera permission prompt")
}

/// Why the camera may not be opened, after the host was asked: it refused, or gave no
/// answer in time. None if it agreed.
pub fn access_error(answer: Option<bool>) -> (r: Option<String>)
    ensures
        crate::text::opt_text(r) == match answer {
            Some(true) => None,
            Some(false) => Some(denied()),
            None => Some(timed_out()),
        },
{
    match answer {
        Some(true) => None,
        Some(false) => Some(denied_text()),
        None => Some(timed_out_text()),
    }
}

/// What of the camera failed.
#[derive(Clone, Copy, Debug, PartialEq, Eq, Structural)]
pub enum OpenStage {
    Open,
    Stream,
}

/// The error on a camera that does not open, or does not stream.
pub fn open_error(stage: OpenStage, why: &str) -> (r: String)
    ensures
        r@ == open_failure(stage, why@),
{
    let mut e = match stage {
        OpenStage::Open => owned("open failed: "),
        OpenStage::Stream => owned("open_stream failed: "),
    };
    e.append(why);
    e.append(" \u{2014} falling back to black source");
    e
}

/// What is said of a camera that does not open, or does not stream.
pub open spec fn open_failure(stage: OpenStage, why: Seq<char>) -> Seq<char> {
    (match stage {
        OpenStage::Open => "open failed: "@,
        OpenStage::Stream => "open_stream failed: "@,
    }) + why + " \u{2014} falling back to black source"@
}

/// How the start of a capture went.
#[derive(Clone, Debug, PartialEq, Eq)]
pub enum StartOutcome {
    /// The host refused the camera.
    Denied,
    /// The host gave no answer.
    TimedOut,
    /// The camera did not open.
    OpenFailed(String),
    /// The camera did not stream.
    StreamFailed(String),
    /// The camera streams in this size.
    Streaming(u32, u32),
}

impl StartOutcome {
    /// What the user is told.
    pub open spec fn failure(self) -> Option<Seq<char>> {
        match self {
            StartOutcome::Denied => Some(denied()),
            StartOutcome::TimedOut => Some(timed_out()),
            StartOutcome::OpenFailed(e) => Some(open_failure(OpenStage::Open, e@)),
            StartOutcome::StreamFailed(e) => Some(open_failure(OpenStage::Stream, e@)),
            StartOutcome::Streaming(_, _) => None,
        }
    }
}

/// What becomes of one attempt to get a frame.
#[derive(Clone, Copy, Debug, PartialEq, Eq, Structural)]
pub enum FrameAction {
    /// The camera gave none: try again after this many milliseconds.
    Retry(u64),
    /// It is shorter than its size says: skip it.
    Skip,
    /// Convert and store it.
    Store,
}

/// Milliseconds until the next attempt: one frame at thirty a second.
pub const RETRY_MS: u64 = 33;

/// The bytes of a frame in a format of two bytes per pixel.
pub open spec fn frame_bytes(width: u32, height: u32) -> int {
    width * height * 2
}

/// What becomes of one attempt to get a frame, by its length in bytes.
pub open spec fn attempt(got: Option<usize>, width: u32, height: u32) -> FrameAction {
    match got {
        None => FrameAction::Retry(RETRY_MS),
        Some(len) => if len < frame_bytes(width, height) {
            FrameAction::Skip
        } else {
            FrameAction::Store
        },
    }
}

/// A frame is stored exactly if it has the two bytes of every pixel, however many it has beyond
/// them, and skipped if it has not; without one the next attempt comes after 33 milliseconds.
pub proof fn law_which_frames_are_stored(len: usize, width: u32, height: u32)
    ensures
        attempt(None, width, height) == FrameAction::Retry(33),
        attempt(Some(len), width, height) == FrameAction::Store <==> len >= 2 * (width * height),
        attempt(Some(len), width, height) == FrameAction::Skip <==> len < 2 * (width * height),
{
    assert(width * height * 2 == 2 * (width * height)) by (nonlinear_arith);
}

/// What becomes of one attempt to get a frame; `got` is its length in bytes.
pub fn frame_action(got: Option<usize>, width: u32, height: u32) -> (r: FrameAction)
    ensures
        r == match got {
            None => FrameAction::Retry(RETRY_MS),
            Some(len) => if len < frame_bytes(width, height) {
                FrameAction::Skip
            } else {
                FrameAction::Store
            },
        },
        r == attempt(got, width, height),
{
    match got {
        None => FrameAction::Retry(RETRY_MS),
        Some(len) => {
            proof {
                assert(width * height <= 0xffff_ffff * 0xffff_ffff) by (nonlinear_arith)
                    requires
                        width <= 0xffff_ffff,
                        height <= 0xffff_ffff,
                ;
                assert(width * height * 2 == 2 * (width * height)) by (nonlinear_arith);
            }
            let expected: u128 = width as u128 * height as u128 * 2;
            if (len as u128) < expected {
                FrameAction::Skip
            } else {
                FrameAction::Store
            }
        },
    }
}

/// What the capture loop shares with the video source.
#[derive(Debug)]
pub struct CaptureState {
    even: Option<Vec<u8>>,
    odd: Option<Vec<u8>>,
    frame_count: u64,
    capture_res: Option<(u32, u32)>,
    error: Option<String>,
}

/// The two fields of a frame.
pub open spec fn fields_of(even: Option<Vec<u8>>, odd: Option<Vec<u8>>) -> Option<
    (Seq<u8>, Seq<u8>),
> {
    match (even, odd) {
        (Some(e), Some(o)) => Some((e@, o@)),
        _ => None,
    }
}

impl CaptureState {
    /// The latest frame, as its even and its odd field.
    pub closed spec fn latest(self) -> Option<(Seq<u8>, Seq<u8>)> {
        fields_of(self.even, self.odd)
    }

    /// The frames that were stored.
    pub closed spec fn count(self) -> u64 {
        self.frame_count
    }

    /// The size that the camera captures in, once it streams.
    pub closed spec fn size(self) -> Option<(u32, u32)> {
        self.capture_res
    }

    /// Why there is no capture.
    pub closed spec fn failure(self) -> Option<Seq<char>> {
        crate::text::opt_text(self.error)
    }

    pub fn new() -> (r: Self)
        ensures
            r.latest() is None,
            r.count() == 0,
            r.size() is None,
            r.failure() is None,
    {
        CaptureState { even: None, odd: None, frame_count: 0, capture_res: None, error: None }
    }

    /// The camera did not open. The reason stays for the user to read; a source
    /// without one would show black for no reason.
    pub fn report_error(&mut self, e: String)
        ensures
            final(self).failure() == Some(e@),
            final(self).latest() == old(self).latest(),
            final(self).count() == old(self).count(),
            final(self).size() == old(self).size(),
    {
        self.error = Some(e);
    }

    /// The camera streams.
    pub fn streaming(&mut self, width: u32, height: u32)
        ensures
            final(self).size() == Some((width, height)),
            final(self).failure() is None,
            final(self).latest() == old(self).latest(),
            final(self).count() == old(self).count(),
    {
        self.capture_res = Some((width, height));
        self.error = None;
    }

    /// Takes note of how the start went. True if frames are fetched from now on; if
    /// not, the reason stays.
    pub fn started(&mut self, outcome: StartOutcome) -> (r: bool)
        ensures
            r == (outcome is Streaming),
            final(self).failure() == outcome.failure(),
            final(self).size() == match outcome {
                StartOutcome::Streaming(w, h) => Some((w, h)),
                _ => old(self).size(),
            },
            final(self).latest() == old(self).latest(),
            final(self).count() == old(self).count(),
    {
        match outcome {
            StartOutcome::Denied => {
                self.report_error(denied_text());
                false
            },
            StartOutcome::TimedOut => {
                self.report_error(timed_out_text());
                false
            },
            StartOutcome::OpenFailed(e) => {
                self.report_error(open_error(OpenStage::Open, e.as_str()));
                false
            },
            StartOutcome::StreamFailed(e) => {
                self.report_error(open_error(OpenStage::Stream, e.as_str()));
                false
            },
            StartOutcome::Streaming(w, h) => {
                self.streaming(w, h);
                true
            },
        }
    }

    /// Stores a frame.
    pub fn store(&mut self, even: Vec<u8>, odd: Vec<u8>)
        requires
            old(self).count() < u64::MAX,
        ensures
            final(self).latest() == Some((even@, odd@)),
            final(self).count() == old(self).count() + 1,
            final(self).size() == old(self).size(),
            final(self).failure() == old(self).failure(),
    {
        self.even = Some(even);
        self.odd = Some(odd);
        self.frame_count = self.frame_count + 1;
    }

    pub fn error(&self) -> (r: &Option<String>)
        ensures
            crate::text::opt_text(*r) == self.failure(),
    {
        &self.error
    }

    pub fn frame_count(&self) -> (r: u64)
        ensures
            r == self.count(),
    {
        self.frame_count
    }

    pub fn capture_res(&self) -> (r: Option<(u32, u32)>)
        ensures
            r == self.size(),
    {
        self.capture_res
    }
}

/// A frame has two bytes for each pixel: none without rows, and two for each column more with
/// each row more, the same whichever side is called the width. Between attempts the loop waits
/// 33 milliseconds.
pub proof fn law_bytes_of_a_frame(width: u32, height: u32)
    requires
        height < u32::MAX,
    ensures
        frame_bytes(width, 0) == 0,
        frame_bytes(width, (height + 1) as u32) == frame_bytes(width, height) + 2 * width,
        frame_bytes(width, height) == frame_bytes(height, width),
        RETRY_MS == 33,
{
    let w = width as int;
    let h = height as int;
    assert(w * (h + 1) * 2 == w * h * 2 + 2 * w) by (nonlinear_arith);
    assert(w * h * 2 == h * w * 2) by (nonlinear_arith);
    assert(w * 0 * 2 == 0) by (nonlinear_arith);
}

/// What the user is told of a start: nothing of one that streams, and something of any other;
/// where the camera failed, which part of it and why.
pub proof fn law_what_is_told_of_a_start(outcome: StartOutcome)
    ensures
        outcome.failure() is None <==> outcome is Streaming,
        outcome is Denied ==> outcome.failure() == Some(denied()),
        outcome is TimedOut ==> outcome.failure() == Some(timed_out()),
        outcome matches StartOutcome::OpenFailed(e) ==> (outcome.failure() matches Some(t)
            && crate::text::begins_with(t, "open failed: "@ + e@)),
        outcome matches StartOutcome::StreamFailed(e) ==> (outcome.failure() matches Some(t)
            && crate::text::begins_with(t, "open_stream failed: "@ + e@)),
{
    match outcome {
        StartOutcome::OpenFailed(e) => {
            let t = "open failed: "@ + e@;
            crate::text::law_substrings(t, t, " \u{2014} falling back to black source"@);
        },
        StartOutcome::StreamFailed(e) => {
            let t = "open_stream failed: "@ + e@;
            crate::text::law_substrings(t, t, " \u{2014} falling back to black source"@);
        },
        _ => {},
    }
}

/// A frame is there once both its fields are, the even one first.
pub proof fn law_both_fields_make_a_frame(even: Option<Vec<u8>>, odd: Option<Vec<u8>>)
    ensures
        fields_of(even, odd) is Some <==> even is Some && odd is Some,
        fields_of(even, odd) matches Some((a, b)) ==> a == even->0@ && b == odd->0@,
{
}

} // verus!
