//! Audio capture bookkeeping: device selection, sink identity, per-channel
//! block accumulation and voice-activity gating.
//!
//! The hardware stream, the sinc resampler and the energy computation are
//! floating-point, callback-driven work that lives outside the library.  What
//! is modelled here is everything the callback and the control surface
//! decide: which device is selected, when an active capture must be torn down
//! and restarted, how interleaved frames are split into per-channel buffers,
//! when a full block is ready for resampling, and whether a resampled block
//! clears the voice-activity threshold.
//!
//! Samples are opaque 32-bit words; energies and the voice-activity threshold are
//! fixed-point values in millionths (so the default threshold of two
//! thousandths is 2000 millionths).

use vstd::prelude::*;

verus! {

/// Input block size per channel: the resampler runs once this many samples
/// have accumulated in every channel buffer.
pub const BLOCK_SIZE: usize = 1024;

/// Default voice-activity threshold, in millionths of mean squared
/// amplitude.
pub const VAD_DEFAULT_MICRO: u64 = 2000;

/// Identity of the three downstream sinks of one capture session: gated
/// audio, error telemetry and level telemetry.  The engine never fabricates
/// sink identities; a capture keeps exactly the ones it was started with.
#[derive(Clone, Copy, Debug, PartialEq, Eq, Structural)]
pub struct SinkIds {
    pub audio: u64,
    pub error: u64,
    pub level: u64,
}

/// Device selection, gate threshold and active-capture state of the audio
/// engine.  The hardware stream handle itself is owned by the runtime; it is
/// opened and torn down exactly when this state machine says so.
pub struct AudioEngine {
    selected_device: Option<String>,
    vad_threshold_micro: u64,
    active_sinks: Option<SinkIds>,
    restarts: u64,
}

/// What a processed (resampled, downmixed) block produces: an unconditional
/// level reading, and the mono audio itself only when it exceeds the threshold.
pub struct BlockOutput {
    pub level_micro: u64,
    pub audio: Option<Vec<u32>>,
}

impl AudioEngine {
    pub closed spec fn spec_selected_device(self) -> Option<String> {
        self.selected_device
    }

    pub closed spec fn spec_vad_threshold_micro(self) -> u64 {
        self.vad_threshold_micro
    }

    pub closed spec fn spec_active_sinks(self) -> Option<SinkIds> {
        self.active_sinks
    }

    /// How many times the active capture has been torn down and restarted
    /// (by device hot-swaps) since it was started.
    pub closed spec fn spec_restarts(self) -> u64 {
        self.restarts
    }

    pub fn new() -> (r: AudioEngine)
        ensures
            r.spec_selected_device() is None,
            r.spec_vad_threshold_micro() == VAD_DEFAULT_MICRO,
            r.spec_active_sinks() is None,
            r.spec_restarts() == 0,
    {
        AudioEngine {
            selected_device: None,
            vad_threshold_micro: VAD_DEFAULT_MICRO,
            active_sinks: None,
            restarts: 0,
        }
    }

    /// Updates the gating threshold; takes effect on the next block without
    /// restarting the stream.
    pub fn set_vad_threshold(&mut self, micro: u64)
        ensures
            final(self).spec_vad_threshold_micro() == micro,
            final(self).spec_selected_device() == old(self).spec_selected_device(),
            final(self).spec_active_sinks() == old(self).spec_active_sinks(),
            final(self).spec_restarts() == old(self).spec_restarts(),
    {
        self.vad_threshold_micro = micro;
    }

    /// Records the desired input device.  If a capture is active it must be
    /// torn down and reopened on the new device — the returned flag tells the
    /// runtime to do exactly that, once — while the session keeps its sink
    /// identity, so the downstream consumer keeps receiving chunks without
    /// interruption of the session itself.
    pub fn select_device(&mut self, device_name: String) -> (restart: bool)
        requires
            old(self).spec_restarts() < u64::MAX,
        ensures
            final(self).spec_selected_device() == Some(device_name),
            final(self).spec_active_sinks() == old(self).spec_active_sinks(),
            final(self).spec_vad_threshold_micro() == old(self).spec_vad_threshold_micro(),
            restart == (old(self).spec_active_sinks() is Some),
            restart ==> final(self).spec_restarts() == old(self).spec_restarts() + 1,
            !restart ==> final(self).spec_restarts() == old(self).spec_restarts(),
    {
        self.selected_device = Some(device_name);
        match self.active_sinks {
            Some(_) => {
                self.restarts = self.restarts + 1;
                true
            },
            None => false,
        }
    }

    /// Begins capturing into the given sinks.  The engine records their
    /// identity; they stay attached until `stop`.
    pub fn start_capturing(&mut self, sinks: SinkIds)
        ensures
            final(self).spec_active_sinks() == Some(sinks),
            final(self).spec_restarts() == 0,
            final(self).spec_selected_device() == old(self).spec_selected_device(),
            final(self).spec_vad_threshold_micro() == old(self).spec_vad_threshold_micro(),
    {
        self.active_sinks = Some(sinks);
        self.restarts = 0;
    }

    /// Tears the capture down.  Dropping the sink identities is the sole
    /// termination signal: the runtime closes the corresponding channels, and
    /// the consumer blocked on them observes closure and terminates its read
    /// loop deterministically.
    pub fn stop(&mut self)
        ensures
            final(self).spec_active_sinks() is None,
            final(self).spec_selected_device() == old(self).spec_selected_device(),
            final(self).spec_vad_threshold_micro() == old(self).spec_vad_threshold_micro(),
            final(self).spec_restarts() == old(self).spec_restarts(),
    {
        self.active_sinks = None;
    }

    pub fn is_capturing(&self) -> (r: bool)
        ensures
            r == (self.spec_active_sinks() is Some),
    {
        self.active_sinks.is_some()
    }

    /// Gates one processed mono block.  The energy reading is emitted
    /// unconditionally for level metering; the audio itself is forwarded only
    /// when the energy strictly exceeds the voice-activity threshold.
    pub fn process_block(&self, mono: Vec<u32>, energy_micro: u64) -> (r: BlockOutput)
        ensures
            r.level_micro == energy_micro,
            energy_micro > self.spec_vad_threshold_micro() ==> (r.audio matches Some(audio)
                && audio@ == mono@),
            energy_micro <= self.spec_vad_threshold_micro() ==> r.audio is None,
    {
        if energy_micro > self.vad_threshold_micro {
            BlockOutput { level_micro: energy_micro, audio: Some(mono) }
        } else {
            BlockOutput { level_micro: energy_micro, audio: None }
        }
    }
}

/// One channel's samples extracted from an interleaved frame sequence.
pub open spec fn spec_channel(data: Seq<u32>, channels: int, c: int) -> Seq<u32>
    recommends
        channels >= 1,
        0 <= c < channels,
{
    Seq::new((data.len() / channels as nat), |k: int| data[k * channels + c])
}

/// Law: deinterleaving is uniform across channels — for every channel count
/// and every interleaved delivery, each channel receives the same number of
/// samples, so after resampling the downmix always produces a single mono
/// sequence.  (The fixed output rate itself is the resampler's contract,
/// outside the library.)
pub proof fn lemma_deinterleave_uniform(data: Seq<u32>, channels: int)
    requires
        channels >= 1,
    ensures
        forall|c1: int, c2: int|
            0 <= c1 < channels && 0 <= c2 < channels ==> spec_channel(data, channels, c1).len()
                == spec_channel(data, channels, c2).len(),
{
}

/// Per-channel accumulation buffers fed by the hardware callback.  Frames
/// arrive interleaved (one sample per channel per frame) and are split into
/// one buffer per channel; once every buffer holds a full block, the block is
/// taken out for resampling and the buffers are cleared.
pub struct BlockAccumulator {
    channels: usize,
    buffers: Vec<Vec<u32>>,
}

impl BlockAccumulator {
    /// One buffer per channel, all of equal length — for every channel
    /// count, what is accumulated is per-channel streams of equal length, so
    /// the downmix after resampling yields a single mono sequence.
    pub closed spec fn wf(self) -> bool {
        &&& self.channels >= 1
        &&& self.buffers@.len() == self.channels
        &&& forall|c: int|
            0 <= c < self.buffers@.len() ==> (#[trigger] self.buffers@[c])@.len()
                == self.buffers@[0]@.len()
    }

    pub closed spec fn spec_channels(self) -> usize {
        self.channels
    }

    pub closed spec fn spec_buffers(self) -> Seq<Seq<u32>> {
        Seq::new(self.buffers@.len(), |c: int| self.buffers@[c]@)
    }

    /// Length of every channel buffer.
    pub open spec fn spec_fill(self) -> nat
        recommends
            self.wf(),
    {
        if self.spec_buffers().len() > 0 {
            self.spec_buffers()[0].len()
        } else {
            0
        }
    }

    pub fn new(channels: usize) -> (r: BlockAccumulator)
        requires
            channels >= 1,
        ensures
            r.wf(),
            r.spec_channels() == channels,
            r.spec_fill() == 0,
            forall|c: int| 0 <= c < channels ==> #[trigger] r.spec_buffers()[c] == Seq::<
                u32,
            >::empty(),
    {
        let mut buffers: Vec<Vec<u32>> = Vec::new();
        let mut c: usize = 0;
        while c < channels
            invariant
                c <= channels,
                buffers@.len() == c,
                forall|k: int| 0 <= k < c ==> (#[trigger] buffers@[k])@.len() == 0,
            decreases channels - c,
        {
            buffers.push(Vec::new());
            c = c + 1;
        }
        BlockAccumulator { channels, buffers }
    }

    /// Splits one interleaved delivery into the channel buffers: frame `k`'s
    /// sample for channel `c` is appended to buffer `c`.  Equal buffer
    /// lengths are preserved for every channel count.
    pub fn push_interleaved(&mut self, data: &[u32])
        requires
            old(self).wf(),
            data@.len() % old(self).spec_channels() as nat == 0,
            old(self).spec_fill() + data@.len() <= usize::MAX,
        ensures
            final(self).wf(),
            final(self).spec_channels() == old(self).spec_channels(),
            final(self).spec_buffers().len() == old(self).spec_buffers().len(),
            forall|c: int|
                0 <= c < final(self).spec_buffers().len() ==> #[trigger] final(self).spec_buffers()[c] == old(self).spec_buffers()[c] + spec_channel(
                    data@,
                    old(self).spec_channels() as int,
                    c,
                ),
    {
        let channels = self.channels;
        let frames = data.len() / channels;
        proof {
            vstd::arithmetic::div_mod::lemma_fundamental_div_mod(
                data@.len() as int,
                channels as int,
            );
            assert(data@.len() == channels * frames);
            assert(data@.len() == frames * channels) by (nonlinear_arith)
                requires
                    data@.len() == channels * frames,
            ;
            assert(frames <= data@.len()) by (nonlinear_arith)
                requires
                    data@.len() == frames * channels,
                    channels >= 1,
                    frames >= 0,
            ;
        }
        let mut k: usize = 0;
        while k < frames
            invariant
                old(self).wf(),
                old(self).spec_channels() == channels,
                self.channels == channels,
                channels >= 1,
                k <= frames,
                frames <= data@.len(),
                data@.len() == frames * channels,
                old(self).spec_fill() + data@.len() <= usize::MAX,
                self.buffers@.len() == channels,
                forall|c: int|
                    0 <= c < channels ==> (#[trigger] self.buffers@[c])@ == old(
                        self,
                    ).spec_buffers()[c] + spec_channel(data@, channels as int, c).take(k as int),
            decreases frames - k,
        {
            let mut c: usize = 0;
            while c < channels
                invariant
                    old(self).wf(),
                    old(self).spec_channels() == channels,
                    self.channels == channels,
                    channels >= 1,
                    k < frames,
                    frames <= data@.len(),
                    data@.len() == frames * channels,
                    old(self).spec_fill() + data@.len() <= usize::MAX,
                    c <= channels,
                    self.buffers@.len() == channels,
                    forall|j: int|
                        0 <= j < c ==> (#[trigger] self.buffers@[j])@ == old(
                            self,
                        ).spec_buffers()[j] + spec_channel(data@, channels as int, j).take(
                            (k + 1) as int,
                        ),
                    forall|j: int|
                        c <= j < channels ==> (#[trigger] self.buffers@[j])@ == old(
                            self,
                        ).spec_buffers()[j] + spec_channel(data@, channels as int, j).take(k as int),
                decreases channels - c,
            {
                proof {
                    assert(k * channels + c < data@.len()) by (nonlinear_arith)
                        requires
                            k < frames,
                            c < channels,
                            channels >= 1,
                            data@.len() == frames * channels,
                    ;
                    let ch = spec_channel(data@, channels as int, c as int);
                    assert(ch.len() == data@.len() / channels as nat);
                    assert(data@.len() / channels as nat == frames) by (nonlinear_arith)
                        requires
                            data@.len() == frames * channels,
                            channels >= 1,
                            frames >= 0,
                    ;
                    assert(self.buffers@[c as int]@ == old(self).spec_buffers()[c as int]
                        + ch.take(k as int));
                    assert(old(self).spec_buffers()[c as int] == old(self).buffers@[c as int]@);
                    assert((old(self).buffers@[c as int])@.len() == (old(self).buffers@[0])@.len());
                    assert(old(self).spec_fill() == old(self).buffers@[0]@.len());
                    assert(self.buffers@[c as int]@.len() == old(self).spec_fill() + k);
                }
                let sample = data[k * channels + c];
                let buf = &mut self.buffers;
                push_at(buf, c, sample);
                proof {
                    let ch = spec_channel(data@, channels as int, c as int);
                    assert(ch[k as int] == data@[k * channels + c as int]);
                    assert(ch.take((k + 1) as int) =~= ch.take(k as int) + seq![ch[k as int]]);
                    assert(self.buffers@[c as int]@ =~= old(self).spec_buffers()[c as int]
                        + ch.take((k + 1) as int));
                }
                c = c + 1;
            }
            k = k + 1;
        }
        proof {
            assert forall|c: int| 0 <= c < channels implies (#[trigger] self.buffers@[c])@ == old(
                self,
            ).spec_buffers()[c] + spec_channel(data@, channels as int, c) by {
                let ch = spec_channel(data@, channels as int, c);
                assert(ch.len() == data@.len() / channels as nat);
                assert(data@.len() / channels as nat == frames) by (nonlinear_arith)
                    requires
                        data@.len() == frames * channels,
                        channels >= 1,
                        frames >= 0,
                ;
                assert(ch.take(frames as int) =~= ch);
            }
            assert forall|c: int|
                0 <= c < self.buffers@.len() implies (#[trigger] self.buffers@[c])@.len() == self
                .buffers@[0]@.len() by {
                assert((old(self).buffers@[c])@.len() == (old(self).buffers@[0])@.len());
                assert(old(self).spec_buffers()[c] == old(self).buffers@[c]@);
                assert(old(self).spec_buffers()[0] == old(self).buffers@[0]@);
            }
            assert forall|c: int|
                0 <= c < self.buffers@.len() implies #[trigger] self.spec_buffers()[c] == old(
                self,
            ).spec_buffers()[c] + spec_channel(data@, channels as int, c) by {}
        }
    }

    /// Whether every channel buffer holds at least one full block.
    pub fn ready(&self) -> (r: bool)
        requires
            self.wf(),
        ensures
            r == (self.spec_fill() >= BLOCK_SIZE),
    {
        self.buffers[0].len() >= BLOCK_SIZE
    }

    /// Hands the accumulated per-channel buffers to the resampler and clears
    /// them, completing one resample cycle.
    pub fn take_block(&mut self) -> (r: Vec<Vec<u32>>)
        requires
            old(self).wf(),
        ensures
            final(self).wf(),
            final(self).spec_channels() == old(self).spec_channels(),
            final(self).spec_fill() == 0,
            r@.len() == old(self).spec_buffers().len(),
            forall|c: int| 0 <= c < r@.len() ==> (#[trigger] r@[c])@ == old(self).spec_buffers()[c],
    {
        let channels = self.channels;
        let mut taken: Vec<Vec<u32>> = Vec::new();
        std::mem::swap(&mut taken, &mut self.buffers);
        let mut fresh: Vec<Vec<u32>> = Vec::new();
        let mut c: usize = 0;
        while c < channels
            invariant
                c <= channels,
                fresh@.len() == c,
                forall|k: int| 0 <= k < c ==> (#[trigger] fresh@[k])@.len() == 0,
            decreases channels - c,
        {
            fresh.push(Vec::new());
            c = c + 1;
        }
        self.buffers = fresh;
        proof {
            assert forall|c2: int| 0 <= c2 < taken@.len() implies (#[trigger] taken@[c2])@ == old(self).spec_buffers()[c2] by {}
        }
        taken
    }
}

/// Appends one sample to the buffer at index `c`, leaving the others
/// untouched.
fn push_at(buffers: &mut Vec<Vec<u32>>, c: usize, sample: u32)
    requires
        c < old(buffers)@.len(),
        old(buffers)@[c as int]@.len() < usize::MAX,
    ensures
        final(buffers)@.len() == old(buffers)@.len(),
        final(buffers)@[c as int]@ == old(buffers)@[c as int]@ + seq![sample],
        forall|j: int|
            0 <= j < old(buffers)@.len() && j != c ==> final(buffers)@[j] == old(buffers)@[j],
{
    let inner = &mut buffers[c];
    inner.push(sample);
}

} // verus!
