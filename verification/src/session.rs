//! Session orchestration: the streaming control loop's state machine and
//! windowing decisions.
//!
//! The orchestrator owns the session lifecycle (duplicate-start guard, lazy
//! model loading, stop/stream-end announcement) and the sliding audio window
//! with its overlap trim.  The surrounding runtime performs the actual channel
//! reads, task spawns and inference calls; every decision it takes is a call
//! into this module.
//!
//! Audio samples are carried as opaque 32-bit words: the orchestrator only
//! buffers, windows and forwards them, it never interprets their value.

use vstd::prelude::*;
use vstd::string::StringSliceAdditionalSpecFns;
use crate::text::{spec_lower, spec_contains, lower_bytes, contains_bytes, spec_trim, spec_trim_from, spec_trim_to, trim_from_index, trim_to_index};

verus! {

/// Smallest accepted inference window, in samples at the fixed output rate.
pub const WINDOW_MIN: usize = 8000;

/// Largest accepted inference window, in samples at the fixed output rate.
pub const WINDOW_MAX: usize = 48000;

/// Default inference window (one second of audio).
pub const WINDOW_DEFAULT: usize = 16000;

/// Overlap tail retained after each dispatched window, for transcription
/// continuity across window boundaries.
pub const OVERLAP: usize = 4000;

/// Context tail retained while the pipeline is paused.
pub const PAUSE_KEEP: usize = 8000;

/// Lifecycle of one live session.
#[derive(Clone, Copy, Debug, PartialEq, Eq, Structural)]
pub enum SessionState {
    Idle,
    Loading,
    Running,
    Stopping,
    Error,
}

/// What the runtime must do after a successful `start_session`.
#[derive(Clone, Copy, Debug, PartialEq, Eq, Structural)]
pub enum StartAction {
    /// First start: load the inference models off the synchronous path, then
    /// report back through `model_load_finished`.
    LoadModels,
    /// Models already resident: open the capture stream directly.
    BeginCapture,
}

/// Why a session could not be started.
#[derive(Clone, Copy, Debug, PartialEq, Eq, Structural)]
pub enum SessionError {
    AlreadyRunning,
}

impl SessionError {
    /// Operator-facing description of the error.
    pub fn message(&self) -> (r: String)
        ensures
            r@ == "A session is already running. Click STOP first."@,
    {
        "A session is already running. Click STOP first.".to_owned()
    }
}

/// The streaming control loop's state: lifecycle plus the sliding window
/// buffer.
pub struct SessionOrchestrator {
    state: SessionState,
    models_loaded: bool,
    window_size: usize,
    paused: bool,
    buffer: Vec<u32>,
}

/// A session is considered active (for the duplicate-start guard) while it is
/// loading models or running.
pub open spec fn spec_active(s: SessionState) -> bool {
    s is Loading || s is Running
}

impl SessionOrchestrator {
    pub closed spec fn wf(self) -> bool {
        WINDOW_MIN <= self.window_size <= WINDOW_MAX
    }

    pub closed spec fn spec_state(self) -> SessionState {
        self.state
    }

    pub closed spec fn spec_models_loaded(self) -> bool {
        self.models_loaded
    }

    pub closed spec fn spec_window_size(self) -> usize {
        self.window_size
    }

    pub closed spec fn spec_paused(self) -> bool {
        self.paused
    }

    pub closed spec fn spec_buffer(self) -> Seq<u32> {
        self.buffer@
    }

    pub fn new() -> (r: SessionOrchestrator)
        ensures
            r.wf(),
            r.spec_state() is Idle,
            !r.spec_models_loaded(),
            r.spec_window_size() == WINDOW_DEFAULT,
            !r.spec_paused(),
            r.spec_buffer() == Seq::<u32>::empty(),
    {
        SessionOrchestrator {
            state: SessionState::Idle,
            models_loaded: false,
            window_size: WINDOW_DEFAULT,
            paused: false,
            buffer: Vec::new(),
        }
    }

    pub fn state(&self) -> (r: SessionState)
        ensures
            r == self.spec_state(),
    {
        self.state
    }

    /// Number of samples currently buffered towards the next window.
    pub fn buffered_len(&self) -> (r: usize)
        ensures
            r == self.spec_buffer().len(),
    {
        self.buffer.len()
    }

    /// Starts a session.  A second start while one is loading or running is
    /// rejected and changes nothing; otherwise the session enters `Loading`
    /// (first start, models not yet resident) or `Running`, with an empty
    /// window buffer.
    pub fn start_session(&mut self) -> (r: Result<StartAction, SessionError>)
        ensures
            spec_active(old(self).spec_state()) ==> {
                &&& r == Result::<StartAction, SessionError>::Err(SessionError::AlreadyRunning)
                &&& final(self).spec_state() == old(self).spec_state()
                &&& final(self).spec_buffer() == old(self).spec_buffer()
            },
            !spec_active(old(self).spec_state()) ==> {
                &&& old(self).spec_models_loaded() ==> r == Result::<
                    StartAction,
                    SessionError,
                >::Ok(StartAction::BeginCapture) && final(self).spec_state() is Running
                &&& !old(self).spec_models_loaded() ==> r == Result::<
                    StartAction,
                    SessionError,
                >::Ok(StartAction::LoadModels) && final(self).spec_state() is Loading
                &&& final(self).spec_buffer() == Seq::<u32>::empty()
            },
            final(self).spec_models_loaded() == old(self).spec_models_loaded(),
            final(self).spec_window_size() == old(self).spec_window_size(),
            final(self).spec_paused() == old(self).spec_paused(),
            final(self).wf() == old(self).wf(),
    {
        match self.state {
            SessionState::Loading | SessionState::Running => Err(SessionError::AlreadyRunning),
            _ => {
                self.buffer = Vec::new();
                if self.models_loaded {
                    self.state = SessionState::Running;
                    Ok(StartAction::BeginCapture)
                } else {
                    self.state = SessionState::Loading;
                    Ok(StartAction::LoadModels)
                }
            },
        }
    }

    /// Reports the outcome of the one-time model load.  On success the
    /// engine stays resident for the rest of the process, so later sessions
    /// skip loading.
    pub fn model_load_finished(&mut self, ok: bool) -> (r: bool)
        ensures
            old(self).spec_state() is Loading ==> {
                &&& r == ok
                &&& ok ==> final(self).spec_state() is Running && final(self).spec_models_loaded()
                &&& !ok ==> final(self).spec_state() is Error && final(self).spec_models_loaded()
                    == old(self).spec_models_loaded()
            },
            !(old(self).spec_state() is Loading) ==> *final(self) == *old(self) && !r,
            final(self).spec_window_size() == old(self).spec_window_size(),
            final(self).spec_paused() == old(self).spec_paused(),
            final(self).spec_buffer() == old(self).spec_buffer(),
            final(self).wf() == old(self).wf(),
    {
        match self.state {
            SessionState::Loading => {
                if ok {
                    self.models_loaded = true;
                    self.state = SessionState::Running;
                    true
                } else {
                    self.state = SessionState::Error;
                    false
                }
            },
            _ => false,
        }
    }

    /// Explicit operator stop.  Returns whether a "stopped" status must be
    /// announced: true exactly when the session was still active, so that an
    /// explicit stop and the read loop's natural end never both announce.
    pub fn stop_session(&mut self) -> (announce: bool)
        ensures
            announce == spec_active(old(self).spec_state()),
            final(self).spec_state() is Idle,
            final(self).spec_models_loaded() == old(self).spec_models_loaded(),
            final(self).spec_window_size() == old(self).spec_window_size(),
            final(self).spec_paused() == old(self).spec_paused(),
            final(self).spec_buffer() == Seq::<u32>::empty(),
            final(self).wf() == old(self).wf(),
    {
        let announce = match self.state {
            SessionState::Loading | SessionState::Running => true,
            _ => false,
        };
        self.state = SessionState::Idle;
        self.buffer = Vec::new();
        announce
    }

    /// The read loop observed channel closure (natural end of stream).  Same
    /// announcement rule as `stop_session`: whichever of the two happens
    /// first reports the transition, the other stays silent.
    pub fn stream_ended(&mut self) -> (announce: bool)
        ensures
            announce == spec_active(old(self).spec_state()),
            final(self).spec_state() is Idle,
            final(self).spec_models_loaded() == old(self).spec_models_loaded(),
            final(self).spec_window_size() == old(self).spec_window_size(),
            final(self).spec_paused() == old(self).spec_paused(),
            final(self).spec_buffer() == Seq::<u32>::empty(),
            final(self).wf() == old(self).wf(),
    {
        self.stop_session()
    }

    /// Updates the inference window size, clamped to the accepted range.
    /// Takes effect on the next buffered chunk without restarting the
    /// session.
    pub fn set_window_size(&mut self, samples: usize)
        ensures
            final(self).spec_window_size() == if samples < WINDOW_MIN {
                WINDOW_MIN
            } else if samples > WINDOW_MAX {
                WINDOW_MAX
            } else {
                samples
            },
            final(self).wf(),
            final(self).spec_state() == old(self).spec_state(),
            final(self).spec_models_loaded() == old(self).spec_models_loaded(),
            final(self).spec_paused() == old(self).spec_paused(),
            final(self).spec_buffer() == old(self).spec_buffer(),
    {
        self.window_size = if samples < WINDOW_MIN {
            WINDOW_MIN
        } else if samples > WINDOW_MAX {
            WINDOW_MAX
        } else {
            samples
        };
    }

    /// Pauses or resumes inference dispatch.  While paused the loop keeps
    /// draining audio (to bound memory) but dispatches nothing.
    pub fn set_paused(&mut self, paused: bool)
        ensures
            final(self).spec_paused() == paused,
            final(self).spec_state() == old(self).spec_state(),
            final(self).spec_models_loaded() == old(self).spec_models_loaded(),
            final(self).spec_window_size() == old(self).spec_window_size(),
            final(self).spec_buffer() == old(self).spec_buffer(),
            final(self).wf() == old(self).wf(),
    {
        self.paused = paused;
    }

    /// Appends one received audio chunk and decides whether to dispatch an
    /// inference window.
    ///
    /// When not paused and the buffer has reached the window size, the entire
    /// buffered audio is dispatched as one window and the buffer is trimmed
    /// to its trailing `OVERLAP` samples for the next accumulation cycle.
    /// When paused, the buffer is drained down to a short context tail
    /// instead and nothing is dispatched.
    pub fn push_chunk(&mut self, chunk: &[u32]) -> (r: Option<Vec<u32>>)
        requires
            old(self).spec_buffer().len() + chunk@.len() <= usize::MAX,
            old(self).wf(),
        ensures
            final(self).wf(),
            final(self).spec_state() == old(self).spec_state(),
            final(self).spec_models_loaded() == old(self).spec_models_loaded(),
            final(self).spec_window_size() == old(self).spec_window_size(),
            final(self).spec_paused() == old(self).spec_paused(),
            ({
                let grown = old(self).spec_buffer() + chunk@;
                let w = old(self).spec_window_size() as int;
                if old(self).spec_paused() {
                    &&& r is None
                    &&& final(self).spec_buffer() == if grown.len() > w {
                        grown.skip(grown.len() - spec_min(grown.len() as int, PAUSE_KEEP as int))
                    } else {
                        grown
                    }
                } else if grown.len() >= w {
                    &&& r matches Some(win) && win@ == grown
                    &&& final(self).spec_buffer() == grown.skip(grown.len() - OVERLAP as int)
                } else {
                    &&& r is None
                    &&& final(self).spec_buffer() == grown
                }
            }),
    {
        let ghost grown = self.buffer@ + chunk@;
        append_samples(&mut self.buffer, chunk);
        if self.paused {
            if self.buffer.len() > self.window_size {
                let keep = if self.buffer.len() < PAUSE_KEEP {
                    self.buffer.len()
                } else {
                    PAUSE_KEEP
                };
                let from = self.buffer.len() - keep;
                self.buffer = tail_from(&self.buffer, from);
            }
            None
        } else {
            if self.buffer.len() >= self.window_size {
                let window = clone_samples(&self.buffer);
                let from = self.buffer.len() - OVERLAP;
                self.buffer = tail_from(&self.buffer, from);
                Some(window)
            } else {
                None
            }
        }
    }

}

pub open spec fn spec_min(a: int, b: int) -> int {
    if a < b {
        a
    } else {
        b
    }
}

/// Appends a slice of samples to a buffer.
fn append_samples(buffer: &mut Vec<u32>, chunk: &[u32])
    requires
        old(buffer)@.len() + chunk@.len() <= usize::MAX,
    ensures
        final(buffer)@ == old(buffer)@ + chunk@,
{
    let mut i: usize = 0;
    while i < chunk.len()
        invariant
            i <= chunk.len(),
            buffer@ == old(buffer)@ + chunk@.subrange(0, i as int),
            old(buffer)@.len() + chunk@.len() <= usize::MAX,
        decreases chunk@.len() - i,
    {
        buffer.push(chunk[i]);
        i = i + 1;
        proof {
            assert(buffer@ =~= old(buffer)@ + chunk@.subrange(0, i as int));
        }
    }
    proof {
        assert(chunk@.subrange(0, chunk@.len() as int) =~= chunk@);
    }
}

/// Copies a sample buffer.
fn clone_samples(buffer: &Vec<u32>) -> (r: Vec<u32>)
    ensures
        r@ == buffer@,
{
    let mut out: Vec<u32> = Vec::new();
    let mut i: usize = 0;
    while i < buffer.len()
        invariant
            i <= buffer.len(),
            out@ == buffer@.subrange(0, i as int),
        decreases buffer@.len() - i,
    {
        out.push(buffer[i]);
        i = i + 1;
        proof {
            assert(out@ =~= buffer@.subrange(0, i as int));
        }
    }
    proof {
        assert(buffer@.subrange(0, buffer@.len() as int) =~= buffer@);
    }
    out
}

/// The suffix of a sample buffer from `from` to the end.
fn tail_from(buffer: &Vec<u32>, from: usize) -> (r: Vec<u32>)
    requires
        from <= buffer@.len(),
    ensures
        r@ == buffer@.skip(from as int),
{
    let mut out: Vec<u32> = Vec::new();
    let mut i: usize = from;
    while i < buffer.len()
        invariant
            from <= i <= buffer.len(),
            out@ == buffer@.subrange(from as int, i as int),
        decreases buffer@.len() - i,
    {
        out.push(buffer[i]);
        i = i + 1;
        proof {
            assert(out@ =~= buffer@.subrange(from as int, i as int));
        }
    }
    proof {
        assert(buffer@.subrange(from as int, buffer@.len() as int) =~= buffer@.skip(from as int));
    }
    out
}

/// ASCII whitespace as characters, for transcript trimming.
pub open spec fn spec_is_space_char(c: char) -> bool {
    c == ' ' || c == '\t' || c == '\n' || c == '\r' || c == '\u{b}' || c == '\u{c}'
}

/// Index of the first non-whitespace character at or after `i`.
pub open spec fn spec_trim_chars_from(s: Seq<char>, i: int) -> int
    decreases s.len() - i,
    when 0 <= i <= s.len()
{
    if i >= s.len() {
        i
    } else if spec_is_space_char(s[i]) {
        spec_trim_chars_from(s, i + 1)
    } else {
        i
    }
}

/// Index just past the last non-whitespace character at or before `i`.
pub open spec fn spec_trim_chars_to(s: Seq<char>, i: int) -> int
    decreases i,
    when 0 <= i <= s.len()
{
    if i <= 0 {
        i
    } else if spec_is_space_char(s[i - 1]) {
        spec_trim_chars_to(s, i - 1)
    } else {
        i
    }
}

/// The character sequence with leading and trailing whitespace removed.
pub open spec fn spec_trim_chars(s: Seq<char>) -> Seq<char> {
    let from = spec_trim_chars_from(s, 0);
    let to = spec_trim_chars_to(s, s.len() as int);
    if from <= to {
        s.subrange(from, to)
    } else {
        Seq::empty()
    }
}

/// The segments' texts concatenated in emission order.
pub open spec fn spec_concat_segments(segs: Seq<String>) -> Seq<char>
    decreases segs.len(),
{
    if segs.len() == 0 {
        Seq::empty()
    } else {
        spec_concat_segments(segs.drop_last()) + (segs.last())@
    }
}

fn is_space_char(c: char) -> (r: bool)
    ensures
        r == spec_is_space_char(c),
{
    c == ' ' || c == '\t' || c == '\n' || c == '\r' || c == '\u{b}' || c == '\u{c}'
}

/// Assembles one transcript from the model's segments: concatenated in
/// emission order and trimmed of leading and trailing whitespace.
pub fn assemble_transcript(segments: &Vec<String>) -> (r: String)
    ensures
        r@ == spec_trim_chars(spec_concat_segments(segments@)),
{
    let mut text = String::new();
    let mut k: usize = 0;
    while k < segments.len()
        invariant
            k <= segments@.len(),
            text@ == spec_concat_segments(segments@.take(k as int)),
        decreases segments@.len() - k,
    {
        text.append(segments[k].as_str());
        k = k + 1;
        proof {
            assert(segments@.take(k as int).drop_last() =~= segments@.take(k - 1));
            assert(segments@.take(k as int).last() == segments@[k - 1]);
        }
    }
    proof {
        assert(segments@.take(segments@.len() as int) =~= segments@);
    }
    let n = text.as_str().unicode_len();
    let mut from: usize = 0;
    while from < n && is_space_char(text.as_str().get_char(from))
        invariant
            from <= n,
            n == text@.len(),
            spec_trim_chars_from(text@, 0) == spec_trim_chars_from(text@, from as int),
        decreases n - from,
    {
        from = from + 1;
    }
    proof {
        assert(spec_trim_chars_from(text@, from as int) == from);
    }
    let mut to: usize = n;
    while to > 0 && is_space_char(text.as_str().get_char(to - 1))
        invariant
            to <= n,
            n == text@.len(),
            spec_trim_chars_to(text@, n as int) == spec_trim_chars_to(text@, to as int),
        decreases to,
    {
        to = to - 1;
    }
    proof {
        assert(spec_trim_chars_to(text@, to as int) == to);
    }
    if from >= to {
        proof {
            if spec_trim_chars_from(text@, 0) <= spec_trim_chars_to(text@, text@.len() as int) {
                assert(text@.subrange(from as int, to as int) =~= Seq::<char>::empty());
            }
        }
        return String::new();
    }
    text.as_str().substring_char(from, to).to_owned()
}

/// The publication decision on one inference result: a transcript that is
/// non-speech noise is suppressed — no result is published for it — and any
/// other transcript is published with its detection, confidence and the
/// automatic source tag.
pub fn publish_transcript(
    text: String,
    verse: Option<crate::store::Verse>,
    confidence_milli: u32,
) -> (r: Option<crate::media::PublishedUpdate>)
    ensures
        spec_is_noise(vstd::utf8::encode_utf8(text@)) ==> r is None,
        !spec_is_noise(vstd::utf8::encode_utf8(text@)) ==> (r matches Some(u) && u.text == text
            && u.item == (match verse {
            Some(v) => Some(crate::media::DisplayItem::Verse(v)),
            None => None,
        }) && u.confidence_milli == confidence_milli && u.source@ == "auto"@),
{
    if is_noise(text.as_str()) {
        return None;
    }
    let item = match verse {
        Some(v) => Some(crate::media::DisplayItem::Verse(v)),
        None => None,
    };
    Some(
        crate::media::PublishedUpdate {
            text,
            item,
            confidence_milli,
            source: "auto".to_owned(),
        },
    )
}


/// A transcript counts as non-speech noise when, trimmed and lower-cased, it
/// is empty or contains one of the model's placeholder markers.  Such
/// transcripts are suppressed: no result is published for them.
pub open spec fn spec_is_noise(t: Seq<u8>) -> bool {
    let low = spec_lower(spec_trim(t));
    ||| low.len() == 0
    ||| spec_contains(low, "[blank_audio]".spec_bytes())
    ||| spec_contains(low, "[silence]".spec_bytes())
    ||| spec_contains(low, "[music]".spec_bytes())
    ||| spec_contains(low, "[inaudible]".spec_bytes())
    ||| spec_contains(low, "(silence)".spec_bytes())
    ||| spec_contains(low, "[ silence ]".spec_bytes())
}

/// Decides whether a transcript is a non-speech placeholder that must be
/// suppressed before publication.
pub fn is_noise(text: &str) -> (r: bool)
    ensures
        r == spec_is_noise(text.spec_bytes()),
{
    let bytes = text.as_bytes();
    let from = trim_from_index(bytes);
    let to = trim_to_index(bytes);
    let trimmed: &[u8] = if from <= to {
        vstd::slice::slice_subrange(bytes, from, to)
    } else {
        vstd::slice::slice_subrange(bytes, 0, 0)
    };
    proof {
        if !(spec_trim_from(bytes@, 0) <= spec_trim_to(bytes@, bytes@.len() as int)) {
            assert(bytes@.subrange(0, 0) =~= Seq::<u8>::empty());
        }
        assert(trimmed@ == spec_trim(bytes@));
    }
    let low = lower_bytes(trimmed);
    if low.len() == 0 {
        return true;
    }
    if contains_bytes(low.as_slice(), "[blank_audio]".as_bytes()) {
        return true;
    }
    if contains_bytes(low.as_slice(), "[silence]".as_bytes()) {
        return true;
    }
    if contains_bytes(low.as_slice(), "[music]".as_bytes()) {
        return true;
    }
    if contains_bytes(low.as_slice(), "[inaudible]".as_bytes()) {
        return true;
    }
    if contains_bytes(low.as_slice(), "(silence)".as_bytes()) {
        return true;
    }
    if contains_bytes(low.as_slice(), "[ silence ]".as_bytes()) {
        return true;
    }
    false
}


} // verus!
