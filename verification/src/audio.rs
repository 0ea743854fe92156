//! The sample history behind a shader's audio input textures.
//!
//! Sample frames are fed in from any source (a capture stream, a decoded file,
//! synthesis) and each channel keeps its most recent samples, up to
//! [`RING_CAPACITY`]. `@audio(samples = ..)` waveform textures show the most
//! recent samples of each channel, one row per channel, zero-padded at the
//! front; `@audio_fft(bins = ..)` textures are computed from a waveform of
//! [`fft_window`] samples.
//!
//! Samples are held as the bits of their `f32` values (`f32::to_bits`); the
//! history only moves them, so the bits of `0.0` stand for silence.

use crate::schema::{TextureRole, WispSchema};
use std::collections::VecDeque;
use vstd::prelude::*;

verus! {

/// Per-channel sample history: enough for the largest supported FFT window.
pub const RING_CAPACITY: usize = 16384;

/// The last `n` elements of `s` (all of them when it is shorter).
pub open spec fn spec_keep_last(s: Seq<u32>, n: nat) -> Seq<u32> {
    if s.len() <= n {
        s
    } else {
        s.skip(s.len() - n)
    }
}

/// The samples of channel `c` among the first `k` interleaved samples, in
/// order: those at the positions that leave `c` divided by `channels`.
pub open spec fn spec_channel_samples(s: Seq<u32>, channels: nat, c: nat, k: int) -> Seq<u32>
    decreases k,
{
    if k <= 0 {
        Seq::empty()
    } else {
        let prev = spec_channel_samples(s, channels, c, k - 1);
        if (k - 1) % (channels as int) == c {
            prev.push(s[k - 1])
        } else {
            prev
        }
    }
}

/// The number of channels that `channels` samples per frame make: at least one.
pub open spec fn spec_frame_channels(channels: nat) -> nat {
    if channels == 0 {
        1
    } else {
        channels
    }
}

/// The history after pushing interleaved frames of `channels` samples: with
/// a new number of channels the history starts over; then each channel keeps
/// the last [`RING_CAPACITY`] of its samples.
pub open spec fn spec_pushed(history: Seq<Seq<u32>>, interleaved: Seq<u32>, channels: nat) -> Seq<Seq<u32>> {
    let ch = spec_frame_channels(channels);
    Seq::new(
        ch,
        |c: int|
            spec_keep_last(
                (if history.len() == ch {
                    history[c]
                } else {
                    Seq::empty()
                }) + spec_channel_samples(interleaved, ch, c as nat, interleaved.len() as int),
                RING_CAPACITY as nat,
            ),
    )
}

/// The number of rows of a waveform: one per channel, at least one.
pub open spec fn spec_channels(history: Seq<Seq<u32>>) -> nat {
    spec_frame_channels(history.len())
}

/// Row `c` of a waveform of `samples` samples: the most recent samples of
/// channel `c`, zero-padded at the front (all zeros for a channel with no
/// history).
pub open spec fn spec_row(history: Seq<Seq<u32>>, samples: nat, c: int) -> Seq<u32> {
    if 0 <= c < history.len() {
        let ring = history[c];
        let take: nat = if ring.len() < samples {
            ring.len()
        } else {
            samples
        };
        Seq::new((samples - take) as nat, |j: int| 0u32) + ring.skip(ring.len() - take)
    } else {
        Seq::new(samples, |j: int| 0u32)
    }
}

/// The first `n` rows of a waveform, one after another.
pub open spec fn spec_rows(history: Seq<Seq<u32>>, samples: nat, n: int) -> Seq<u32>
    decreases n,
{
    if n <= 0 {
        Seq::empty()
    } else {
        spec_rows(history, samples, n - 1) + spec_row(history, samples, n - 1)
    }
}

/// Recent audio sample frames, fed in via [`WispAudio::push_frames`].
pub struct WispAudio {
    rings: Vec<VecDeque<u32>>,
}

impl View for WispAudio {
    type V = Seq<Seq<u32>>;

    /// The samples of each channel, oldest first.
    closed spec fn view(&self) -> Seq<Seq<u32>> {
        Seq::new(self.rings@.len(), |c: int| self.rings@[c]@)
    }
}

impl WispAudio {
    /// Whether no channel holds more than [`RING_CAPACITY`] samples.
    pub open spec fn wf(&self) -> bool {
        forall|c: int| 0 <= c < self@.len() ==> (#[trigger] self@[c]).len() <= RING_CAPACITY
    }

    /// No history.
    pub fn new() -> (r: WispAudio)
        ensures
            r.wf(),
            r@ == Seq::<Seq<u32>>::empty(),
    {
        let r = WispAudio { rings: Vec::new() };
        proof {
            assert(r@ =~= Seq::<Seq<u32>>::empty());
        }
        r
    }

    /// Append interleaved sample frames (`channels` samples per frame).
    pub fn push_frames(&mut self, interleaved: &[u32], channels: usize)
        requires
            old(self).wf(),
        ensures
            final(self).wf(),
            final(self)@ == spec_pushed(old(self)@, interleaved@, channels as nat),
    {
        let ghost old_history = self@;
        let channels = if channels == 0 {
            1
        } else {
            channels
        };
        if self.rings.len() != channels {
            let mut rings: Vec<VecDeque<u32>> = Vec::new();
            let mut c: usize = 0;
            while c < channels
                invariant
                    c <= channels,
                    rings@.len() == c,
                    forall|j: int| 0 <= j < c ==> (#[trigger] rings@[j])@ == Seq::<u32>::empty(),
                decreases channels - c,
            {
                rings.push(VecDeque::with_capacity(RING_CAPACITY));
                c += 1;
            }
            self.rings = rings;
        }
        let ghost base = self@;
        proof {
            assert forall|c: int| 0 <= c < channels implies #[trigger] base[c] == (if old_history.len()
                == channels {
                old_history[c]
            } else {
                Seq::empty()
            }) by {}
        }
        let mut i: usize = 0;
        while i < interleaved.len()
            invariant
                channels >= 1,
                i <= interleaved@.len(),
                self.rings@.len() == channels,
                base.len() == channels,
                forall|c: int| 0 <= c < channels ==> (#[trigger] base[c]).len() <= RING_CAPACITY,
                forall|c: int|
                    0 <= c < channels ==> (#[trigger] self.rings@[c])@ == spec_keep_last(
                        base[c] + spec_channel_samples(interleaved@, channels as nat, c as nat, i as int),
                        RING_CAPACITY as nat,
                    ),
            decreases interleaved@.len() - i,
        {
            let c = i % channels;
            let sample = interleaved[i];
            let ghost before = self.rings@;
            if self.rings[c].len() == RING_CAPACITY {
                self.rings[c].pop_front();
            }
            self.rings[c].push_back(sample);
            proof {
                let ch = channels as nat;
                let s = interleaved@;
                assert forall|d: int| 0 <= d < channels implies (#[trigger] self.rings@[d])@ == spec_keep_last(
                    base[d] + spec_channel_samples(s, ch, d as nat, i + 1),
                    RING_CAPACITY as nat,
                ) by {
                    let prev = base[d] + spec_channel_samples(s, ch, d as nat, i as int);
                    if d == c {
                        assert(base[d] + spec_channel_samples(s, ch, d as nat, i + 1) =~= prev.push(sample));
                        lemma_keep_last_push(prev, sample, RING_CAPACITY as nat);
                        assert(before[d]@ == spec_keep_last(prev, RING_CAPACITY as nat));
                    } else {
                        assert(self.rings@[d] == before[d]);
                    }
                }
            }
            i += 1;
        }
        proof {
            assert(self@ =~= spec_pushed(old_history, interleaved@, channels as nat));
        }
    }

    /// The number of channels: at least one.
    pub fn channels(&self) -> (r: usize)
        ensures
            r == spec_channels(self@),
    {
        if self.rings.len() == 0 {
            1
        } else {
            self.rings.len()
        }
    }

    /// The most recent `samples` samples per channel, zero-padded at the front,
    /// one row per channel.
    pub fn waveform(&self, samples: usize) -> (r: Vec<u32>)
        ensures
            r@ == spec_rows(self@, samples as nat, spec_channels(self@) as int),
            r@.len() == samples * spec_channels(self@),
    {
        let channels = self.channels();
        let ghost h = self@;
        let mut out: Vec<u32> = Vec::new();
        let mut c: usize = 0;
        while c < channels
            invariant
                h == self@,
                channels == spec_channels(h),
                c <= channels,
                out@ == spec_rows(h, samples as nat, c as int),
            decreases channels - c,
        {
            let ghost start = out@;
            if c < self.rings.len() {
                let ring = &self.rings[c];
                let len = ring.len();
                let take = if len < samples {
                    len
                } else {
                    samples
                };
                let mut j: usize = 0;
                while j < samples - take
                    invariant
                        j <= samples - take,
                        out@ == start + Seq::new(j as nat, |k: int| 0u32),
                    decreases samples - take - j,
                {
                    out.push(0);
                    proof {
                        assert(out@ =~= start + Seq::new((j + 1) as nat, |k: int| 0u32));
                    }
                    j += 1;
                }
                let ghost zeros = out@;
                let mut k: usize = 0;
                while k < take
                    invariant
                        k <= take,
                        take <= len,
                        len == ring@.len(),
                        out@ == zeros + ring@.subrange(len - take, len - take + k),
                    decreases take - k,
                {
                    out.push(ring[len - take + k]);
                    proof {
                        assert(out@ =~= zeros + ring@.subrange(len - take, len - take + k + 1));
                    }
                    k += 1;
                }
                proof {
                    assert(h[c as int] == ring@);
                    assert(ring@.subrange(len - take, len as int) =~= ring@.skip(len - take));
                    assert(out@ =~= start + spec_row(h, samples as nat, c as int));
                }
            } else {
                let mut j: usize = 0;
                while j < samples
                    invariant
                        j <= samples,
                        out@ == start + Seq::new(j as nat, |k: int| 0u32),
                    decreases samples - j,
                {
                    out.push(0);
                    proof {
                        assert(out@ =~= start + Seq::new((j + 1) as nat, |k: int| 0u32));
                    }
                    j += 1;
                }
            }
            c += 1;
        }
        proof {
            lemma_rows_len(h, samples as nat, channels as int);
        }
        out
    }
}

impl Default for WispAudio {
    /// No history.
    fn default() -> (r: WispAudio)
        ensures
            r.wf(),
            r@ == Seq::<Seq<u32>>::empty(),
    {
        WispAudio::new()
    }
}

/// Keeping the last `n` after a push is pushing onto what was kept, dropping
/// the oldest where that would exceed `n`.
proof fn lemma_keep_last_push(s: Seq<u32>, x: u32, n: nat)
    requires
        n > 0,
    ensures
        spec_keep_last(s.push(x), n) == (if spec_keep_last(s, n).len() == n {
            spec_keep_last(s, n).subrange(1, n as int).push(x)
        } else {
            spec_keep_last(s, n).push(x)
        }),
{
    if s.len() < n {
    } else {
        assert(spec_keep_last(s.push(x), n) =~= spec_keep_last(s, n).subrange(1, n as int).push(x));
    }
}

/// Every row of a waveform has `samples` samples.
pub proof fn lemma_rows_len(history: Seq<Seq<u32>>, samples: nat, n: int)
    requires
        n >= 0,
    ensures
        spec_rows(history, samples, n).len() == n * samples,
    decreases n,
{
    if n > 0 {
        lemma_rows_len(history, samples, n - 1);
        if 0 <= n - 1 < history.len() {
            let ring = history[n - 1];
            let take: nat = if ring.len() < samples {
                ring.len()
            } else {
                samples
            };
            assert(ring.skip(ring.len() - take).len() == take);
        }
        assert(spec_row(history, samples, n - 1).len() == samples);
        assert((n - 1) * samples + samples == n * samples) by (nonlinear_arith);
    } else {
        assert(n * samples == 0) by (nonlinear_arith)
            requires
                n == 0,
        ;
    }
}

/// Row `ch` of a waveform is its `ch`-th run of `samples` samples.
pub proof fn lemma_rows_row(history: Seq<Seq<u32>>, samples: nat, n: int, ch: int)
    requires
        0 <= ch < n,
    ensures
        spec_rows(history, samples, n).subrange(ch * samples, ch * samples + samples) == spec_row(
            history,
            samples,
            ch,
        ),
    decreases n,
{
    let prev = spec_rows(history, samples, n - 1);
    lemma_rows_len(history, samples, n - 1);
    lemma_rows_len(history, samples, n);
    let all = spec_rows(history, samples, n);
    assert(all == prev + spec_row(history, samples, n - 1));
    if ch == n - 1 {
        assert(all.subrange(ch * samples, ch * samples + samples) =~= spec_row(history, samples, ch));
    } else {
        lemma_rows_row(history, samples, n - 1, ch);
        assert(ch * samples + samples <= (n - 1) * samples) by (nonlinear_arith)
            requires
                ch < n - 1,
        ;
        assert(0 <= ch * samples) by (nonlinear_arith)
            requires
                0 <= ch,
        ;
        assert(all.subrange(ch * samples, ch * samples + samples) =~= prev.subrange(ch * samples, ch * samples + samples));
    }
}

/// The last `min(samples, g.len())` of `g`, zero-padded at the front to
/// `samples`.
pub open spec fn spec_padded_last(g: Seq<u32>, samples: nat) -> Seq<u32> {
    let take: nat = if g.len() < samples {
        g.len()
    } else {
        samples
    };
    Seq::new((samples - take) as nat, |j: int| 0u32) + g.skip(g.len() - take)
}

/// After pushing frames of `channels` samples there are `max(channels, 1)`
/// channels, and row `ch` of a waveform of `samples` samples is the most
/// recent of channel `ch`'s kept samples, zero-padded at the front: the kept
/// samples are the last `RING_CAPACITY` of its earlier history (none where
/// the number of channels changed) followed by the samples at the positions
/// that leave `ch` divided by the number of channels.
pub proof fn lemma_push_then_waveform(
    history: Seq<Seq<u32>>,
    interleaved: Seq<u32>,
    channels: nat,
    samples: nat,
    ch: int,
)
    requires
        0 <= ch < spec_frame_channels(channels),
    ensures
        spec_channels(spec_pushed(history, interleaved, channels)) == spec_frame_channels(channels),
        spec_rows(
            spec_pushed(history, interleaved, channels),
            samples,
            spec_frame_channels(channels) as int,
        ).subrange(ch * samples, ch * samples + samples) == spec_padded_last(
            spec_keep_last(
                (if history.len() == spec_frame_channels(channels) {
                    history[ch]
                } else {
                    Seq::empty()
                }) + spec_channel_samples(interleaved, spec_frame_channels(channels), ch as nat, interleaved.len() as int),
                RING_CAPACITY as nat,
            ),
            samples,
        ),
{
    let h = spec_pushed(history, interleaved, channels);
    lemma_rows_row(h, samples, spec_frame_channels(channels) as int, ch);
}

/// The number of samples an `@audio_fft(bins = ..)` texture is computed from:
/// twice the bins, within `2..=RING_CAPACITY`.
pub fn fft_window(bins: usize) -> (r: usize)
    requires
        bins * 2 <= usize::MAX,
    ensures
        r == (if bins * 2 < 2 {
            2
        } else if bins * 2 > RING_CAPACITY {
            RING_CAPACITY as int
        } else {
            bins * 2
        }),
{
    let w = bins * 2;
    if w < 2 {
        2
    } else if w > RING_CAPACITY {
        RING_CAPACITY
    } else {
        w
    }
}

/// Whether a texture role is an audio input texture.
pub open spec fn spec_is_audio(role: TextureRole) -> bool {
    role is AudioWaveform || role is AudioFft
}

/// Whether a schema declares any audio input texture.
pub fn schema_has_audio(schema: &WispSchema) -> (r: bool)
    ensures
        r == exists|i: int| 0 <= i < schema.textures@.len() && spec_is_audio(#[trigger] schema.textures@[i].role),
{
    let mut i: usize = 0;
    while i < schema.textures.len()
        invariant
            i <= schema.textures@.len(),
            forall|j: int| 0 <= j < i ==> !spec_is_audio(#[trigger] schema.textures@[j].role),
        decreases schema.textures@.len() - i,
    {
        match schema.textures[i].role {
            TextureRole::AudioWaveform { .. } | TextureRole::AudioFft { .. } => {
                return true;
            },
            _ => {},
        }
        i += 1;
    }
    false
}

} // verus!
