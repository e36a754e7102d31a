//! The tone generator: fills interleaved sample buffers from a table that
//! holds one sample for every value of the phase counter.

use vstd::prelude::*;
use vstd::arithmetic::div_mod::{
    lemma_div_pos_is_pos,
    lemma_fundamental_div_mod,
    lemma_fundamental_div_mod_converse,
    lemma_mod_pos_bound,
};
use crate::phase::{
    advance,
    lemma_phase_bounds,
    lemma_phase_composes,
    lemma_phase_periodic,
    lemma_phase_step,
    phase_after,
};
use crate::waveform::WaveformConfig;

verus! {

/// Number of frames that a buffer of `len` slots holds when a frame has
/// `channels` slots; a shorter last frame counts as one.
pub open spec fn frames_in(len: nat, channels: nat) -> nat {
    ((len + channels - 1) / (channels as int)) as nat
}

/// Whether slots `i` and `j` of a buffer belong to one frame.
pub open spec fn same_frame(i: int, j: int, channels: nat) -> bool {
    i / (channels as int) == j / (channels as int)
}

/// Whether all slots of each frame hold the same sample.
pub open spec fn frames_uniform<T>(samples: Seq<T>, channels: nat) -> bool {
    forall|i: int, j: int|
        0 <= i < samples.len() && 0 <= j < samples.len() && same_frame(i, j, channels)
            ==> samples[i] == samples[j]
}

/// The mathematical content of a [`ToneGenerator`]: the sample for every
/// counter value, the slots per frame and the counter itself.
pub struct Tone<T> {
    pub table: Seq<T>,
    pub channels: nat,
    pub phase: nat,
}

impl<T> Tone<T> {
    /// The counter value at which the counter restarts.
    pub open spec fn period(self) -> nat {
        (self.table.len() - 1) as nat
    }

    /// The state after `frames` more samples.
    pub open spec fn advanced(self, frames: nat) -> Tone<T> {
        Tone { phase: phase_after(self.phase, self.period(), frames), ..self }
    }

    /// What a buffer of `len` slots holds once it has been filled: slot `i`
    /// belongs to frame `i / channels`, and a frame holds the table entry of
    /// the counter value reached by then.
    pub open spec fn samples(self, len: nat) -> Seq<T> {
        Seq::new(
            len,
            |i: int|
                self.table[phase_after(
                    self.phase,
                    self.period(),
                    (i / (self.channels as int)) as nat,
                ) as int],
        )
    }
}

/// A sample synthesizer that keeps its place in the waveform from one
/// buffer to the next.
pub struct ToneGenerator<T> {
    table: Vec<T>,
    channels: usize,
    phase: usize,
}

impl<T> View for ToneGenerator<T> {
    type V = Tone<T>;

    closed spec fn view(&self) -> Tone<T> {
        Tone { table: self.table@, channels: self.channels as nat, phase: self.phase as nat }
    }
}

impl<T: Copy> ToneGenerator<T> {
    /// A frame has at least one slot, and the table has an entry for the
    /// counter and for every value that the counter can take.
    pub open spec fn wf(&self) -> bool {
        &&& self@.channels > 0
        &&& self@.table.len() > 0
        &&& self@.phase <= self@.period()
    }

    /// A generator at the start of a cycle, if `table` has one sample for
    /// each counter value from zero to the period of `config`.
    pub fn new(config: &WaveformConfig, table: Vec<T>) -> (made: Option<ToneGenerator<T>>)
        requires
            config.wf(),
        ensures
            made is Some <==> table@.len() == config.period() + 1,
            made is Some ==> made->Some_0.wf() && made->Some_0@ == (Tone {
                table: table@,
                channels: config@.channels,
                phase: 0,
            }),
    {
        let period = config.period_samples();
        if table.len() > 0 && table.len() - 1 == period {
            Some(ToneGenerator { table, channels: config.channels(), phase: 0 })
        } else {
            None
        }
    }

    /// The phase counter: samples produced since the cycle last restarted.
    pub fn phase(&self) -> (phase: usize)
        ensures
            phase == self@.phase,
    {
        self.phase
    }

    /// Slots per frame.
    pub fn channels(&self) -> (channels: usize)
        ensures
            channels == self@.channels,
    {
        self.channels
    }

    /// The counter value at which the counter restarts.
    pub fn period_samples(&self) -> (period: usize)
        requires
            self.wf(),
        ensures
            period == self@.period(),
    {
        self.table.len() - 1
    }

    /// Writes one sample into every slot of `output`, frame after frame,
    /// and moves the counter on by one for each frame. All slots of a
    /// frame receive the same sample.
    pub fn fill(&mut self, output: &mut [T])
        requires
            old(self).wf(),
        ensures
            final(self).wf(),
            final(output)@.len() == old(output)@.len(),
            final(output)@ == old(self)@.samples(old(output)@.len()),
            final(self)@ == old(self)@.advanced(
                frames_in(old(output)@.len(), old(self)@.channels),
            ),
            frames_uniform(final(output)@, old(self)@.channels),
    {
        let len = output.len();
        let period = self.table.len() - 1;
        let ghost start = self@.phase;
        let ghost expected = old(self)@.samples(len as nat);
        let mut done: usize = 0;
        let ghost mut frames: nat = 0;
        proof {
            lemma_phase_bounds(start, period as nat, 0);
            lemma_frames_in_whole(0, self@.channels);
        }
        while done < len
            invariant
                self.wf(),
                self.table == old(self).table,
                self.channels == old(self).channels,
                period == self@.period(),
                start == old(self)@.phase,
                expected == old(self)@.samples(len as nat),
                output@.len() == len,
                done <= len,
                done < len ==> done == frames * self.channels,
                frames == frames_in(done as nat, self@.channels),
                self@.phase == phase_after(start, period as nat, frames),
                forall|i: int| 0 <= i < done ==> output@[i] == expected[i],
            decreases len - done,
        {
            let value = self.table[self.phase];
            let whole = len - done >= self.channels;
            let end = if whole {
                done + self.channels
            } else {
                len
            };
            let mut slot = done;
            while slot < end
                invariant
                    done <= slot <= end <= len,
                    output@.len() == len,
                    forall|i: int| 0 <= i < done ==> output@[i] == expected[i],
                    forall|i: int| done <= i < slot ==> output@[i] == value,
                decreases end - slot,
            {
                output[slot] = value;
                slot += 1;
            }
            proof {
                let ch = self.channels as int;
                assert forall|i: int| done <= i < end implies output@[i] == expected[i] by {
                    lemma_fundamental_div_mod_converse(i, ch, frames as int, i - done);
                }
                lemma_phase_step(start, period as nat, frames);
                if whole {
                    assert(end == (frames + 1) * ch) by (nonlinear_arith)
                        requires
                            end == done + ch,
                            done == frames * ch,
                    ;
                    lemma_frames_in_whole(frames + 1, self@.channels);
                } else {
                    lemma_frames_in_partial(frames, self@.channels, (len - done) as nat);
                }
                frames = frames + 1;
            }
            self.phase = advance(self.phase, period);
            done = end;
        }
        proof {
            assert(output@ =~= expected);
        }
    }
}

/// A buffer of `frames` whole frames holds `frames * channels` slots.
pub proof fn lemma_frames_in_whole(frames: nat, channels: nat)
    requires
        channels > 0,
    ensures
        frames_in(frames * channels, channels) == frames,
{
    lemma_fundamental_div_mod_converse(
        (frames * channels + channels - 1) as int,
        channels as int,
        frames as int,
        channels - 1,
    );
}

/// Slots left over after the last whole frame make up one more frame.
pub proof fn lemma_frames_in_partial(frames: nat, channels: nat, rest: nat)
    requires
        0 < rest < channels,
    ensures
        frames_in(frames * channels + rest, channels) == frames + 1,
{
    assert(frames * channels + rest + channels - 1 == (frames + 1) * channels + (rest - 1))
        by (nonlinear_arith);
    lemma_fundamental_div_mod_converse(
        (frames * channels + rest + channels - 1) as int,
        channels as int,
        (frames + 1) as int,
        rest - 1,
    );
}

/// The samples repeat after `period + 1` frames.
pub proof fn lemma_samples_repeat<T>(tone: Tone<T>, len: nat, i: int)
    requires
        tone.channels > 0,
        0 <= i,
        i + (tone.period() + 1) * tone.channels < len,
    ensures
        tone.samples(len)[i + (tone.period() + 1) * tone.channels] == tone.samples(len)[i],
{
    let ch = tone.channels as int;
    let cycle = (tone.period() + 1) as int;
    lemma_fundamental_div_mod(i, ch);
    lemma_mod_pos_bound(i, ch);
    lemma_div_pos_is_pos(i, ch);
    assert(i + cycle * ch == (i / ch + cycle) * ch + i % ch) by (nonlinear_arith)
        requires
            i == ch * (i / ch) + i % ch,
    ;
    assert(0 <= cycle * ch) by (nonlinear_arith)
        requires
            0 <= cycle,
            0 <= ch,
    ;
    lemma_fundamental_div_mod_converse(i + cycle * ch, ch, i / ch + cycle, i % ch);
    lemma_phase_periodic(tone.phase, tone.period(), (i / ch) as nat);
}

/// Sum of the frame counts in `sizes`.
pub open spec fn total_frames(sizes: Seq<nat>) -> nat
    decreases sizes.len(),
{
    if sizes.len() == 0 {
        0
    } else {
        sizes[0] + total_frames(sizes.drop_first())
    }
}

/// The samples produced by one fill after another, the buffer of each
/// holding as many whole frames as `sizes` says, joined in order.
pub open spec fn chunked_samples<T>(tone: Tone<T>, sizes: Seq<nat>) -> Seq<T>
    decreases sizes.len(),
{
    if sizes.len() == 0 {
        Seq::empty()
    } else {
        tone.samples(sizes[0] * tone.channels) + chunked_samples(
            tone.advanced(sizes[0]),
            sizes.drop_first(),
        )
    }
}

/// A fill of `first` whole frames followed by one of `second` whole frames
/// writes the samples that a single fill of `first + second` frames writes,
/// and leaves the counter where that fill leaves it.
pub proof fn lemma_fill_resumes<T>(tone: Tone<T>, first: nat, second: nat)
    requires
        tone.channels > 0,
    ensures
        tone.samples(first * tone.channels) + tone.advanced(first).samples(second * tone.channels)
            == tone.samples((first + second) * tone.channels),
        tone.advanced(first).advanced(second) == tone.advanced(first + second),
{
    let ch = tone.channels as int;
    let split = first * tone.channels;
    let joined = tone.samples(split) + tone.advanced(first).samples(second * tone.channels);
    let whole = tone.samples((first + second) * tone.channels);
    assert((first + second) * tone.channels == split + second * tone.channels)
        by (nonlinear_arith)
        requires
            split == first * tone.channels,
    ;
    assert forall|i: int| 0 <= i < joined.len() implies joined[i] == whole[i] by {
        if i >= split {
            let later = i - split;
            lemma_fundamental_div_mod(later, ch);
            lemma_mod_pos_bound(later, ch);
            lemma_div_pos_is_pos(later, ch);
            assert(i == (first + later / ch) * ch + later % ch) by (nonlinear_arith)
                requires
                    later == ch * (later / ch) + later % ch,
                    i == first * ch + later,
            ;
            lemma_fundamental_div_mod_converse(i, ch, first + later / ch, later % ch);
            lemma_phase_composes(tone.phase, tone.period(), first, (later / ch) as nat);
        }
    }
    assert(joined =~= whole);
    lemma_phase_composes(tone.phase, tone.period(), first, second);
}

/// However a stretch of frames is cut into buffers, the fills write the
/// samples that one fill of the whole stretch writes.
pub proof fn lemma_phase_continuity<T>(tone: Tone<T>, sizes: Seq<nat>)
    requires
        tone.channels > 0,
    ensures
        chunked_samples(tone, sizes) == tone.samples(total_frames(sizes) * tone.channels),
    decreases sizes.len(),
{
    if sizes.len() == 0 {
        assert(total_frames(sizes) * tone.channels == 0) by (nonlinear_arith)
            requires
                total_frames(sizes) == 0,
        ;
        assert(chunked_samples(tone, sizes) =~= tone.samples(0));
    } else {
        let rest = sizes.drop_first();
        lemma_phase_continuity(tone.advanced(sizes[0]), rest);
        lemma_fill_resumes(tone, sizes[0], total_frames(rest));
    }
}

} // verus!
