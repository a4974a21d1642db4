//! Audio buffers: a block's channels as a plugin sees them, and how they are made of
//! a host's memory.
//!
//! The sample type is open. What changes a host's sample into the plugin's, and
//! back, is handed in.
use vstd::prelude::*;
use vstd::slice::slice_subrange;

verus! {

/// How many output channels are looked at for memory that they share with inputs.
pub const MAX_CHANNELS_TRACKED: usize = 64;

/// A block of audio, one sequence of samples a channel. A part of a block is a
/// buffer too, on the same channels.
pub struct AudioBuffer<'a, S> {
    pub inputs: &'a Vec<Vec<S>>,
    pub outputs: &'a mut Vec<Vec<S>>,
    /// Says of each channel whether its input and output are one piece of memory.
    pub in_place_mask: u64,
    /// Where the block starts in its channels.
    pub offset: usize,
    pub num_samples: usize,
}

/// Whether a mask says of a channel that the host gave one piece of memory for its
/// input and its output. Of channels from 64 on it says so never.
pub open spec fn in_place(mask: u64, ch: int) -> bool {
    0 <= ch < 64 && (mask >> (ch as u64)) & 1 == 1
}

/// Whether every channel has at least so many samples.
pub open spec fn long_enough<S>(channels: Seq<Vec<S>>, n: int) -> bool {
    forall|c: int| 0 <= c < channels.len() ==> (#[trigger] channels[c])@.len() >= n
}

/// A channel with the samples in the middle replaced.
pub open spec fn with_part<S>(channel: Seq<S>, from: int, part: Seq<S>) -> Seq<S> {
    channel.take(from) + part + channel.skip(from + part.len())
}

/// Whether channels are what others become when the samples from `from` on of one
/// of them are replaced.
pub open spec fn replaced<S>(
    after: Seq<Vec<S>>,
    before: Seq<Vec<S>>,
    ch: int,
    from: int,
    part: Seq<S>,
) -> bool {
    &&& after.len() == before.len()
    &&& after[ch]@ == with_part(before[ch]@, from, part)
    &&& forall|c: int| 0 <= c < before.len() && c != ch ==> #[trigger] after[c] == before[c]
}

impl<'a, S> AudioBuffer<'a, S> {
    /// The output channels, as they are now.
    pub open spec fn output_channels(&self) -> Seq<Vec<S>> {
        self.outputs@
    }

    /// Each channel is long enough for the block.
    pub open spec fn wf(&self) -> bool {
        &&& self.offset + self.num_samples <= usize::MAX
        &&& long_enough(self.inputs@, self.offset + self.num_samples)
        &&& long_enough(self.output_channels(), self.offset + self.num_samples)
    }

    /// Whether a buffer is another but for its output channels.
    pub open spec fn same_but_outputs(&self, other: &Self) -> bool {
        &&& self.inputs == other.inputs
        &&& self.in_place_mask == other.in_place_mask
        &&& self.offset == other.offset
        &&& self.num_samples == other.num_samples
    }

    /// The samples of an input channel that belong to the block.
    pub open spec fn input_samples(&self, ch: int) -> Seq<S> {
        self.inputs@[ch]@.subrange(self.offset as int, self.offset + self.num_samples)
    }

    /// The samples of an output channel that belong to the block.
    pub open spec fn output_samples(&self, ch: int) -> Seq<S> {
        self.output_channels()[ch]@.subrange(self.offset as int, self.offset + self.num_samples)
    }

    /// Makes a block of channels.
    pub fn from_slices_checked(
        inputs: &'a Vec<Vec<S>>,
        outputs: &'a mut Vec<Vec<S>>,
        num_samples: usize,
    ) -> (r: Self)
        requires
            long_enough(inputs@, num_samples as int),
            long_enough(old(outputs)@, num_samples as int),
        ensures
            r.wf(),
            r.inputs == inputs,
            r.output_channels() == old(outputs)@,
            final(r.outputs)@ == final(outputs)@,
            r.in_place_mask == 0,
            r.offset == 0,
            r.num_samples == num_samples,
    {
        AudioBuffer { inputs, outputs, in_place_mask: 0, offset: 0, num_samples }
    }

    /// Says which channels share memory.
    pub fn set_in_place_mask(&mut self, mask: u64)
        ensures
            final(self).inputs == old(self).inputs,
            final(self).output_channels() == old(self).output_channels(),
            final(final(self).outputs)@ == final(old(self).outputs)@,
            final(self).in_place_mask == mask,
            final(self).offset == old(self).offset,
            final(self).num_samples == old(self).num_samples,
    {
        self.in_place_mask = mask;
    }

    /// Whether a channel's input and output are one piece of memory.
    #[must_use]
    pub fn is_in_place(&self, ch: usize) -> (r: bool)
        ensures
            r == in_place(self.in_place_mask, ch as int),
    {
        ch < 64 && (self.in_place_mask >> (ch as u64)) & 1 == 1
    }

    #[must_use]
    pub fn num_samples(&self) -> (r: usize)
        ensures
            r == self.num_samples,
    {
        self.num_samples
    }

    #[must_use]
    pub fn num_input_channels(&self) -> (r: usize)
        ensures
            r == self.inputs@.len(),
    {
        self.inputs.len()
    }

    #[must_use]
    pub fn num_output_channels(&self) -> (r: usize)
        ensures
            r == self.output_channels().len(),
    {
        self.outputs.len()
    }

    /// The number of channels that have an input and an output.
    #[must_use]
    pub fn channels(&self) -> (r: usize)
        ensures
            r == if self.inputs@.len() <= self.output_channels().len() {
                self.inputs@.len()
            } else {
                self.output_channels().len()
            },
    {
        let i: usize = self.inputs.len();
        let o: usize = self.outputs.len();
        if i <= o {
            i
        } else {
            o
        }
    }

    /// The samples of an input channel.
    #[must_use]
    pub fn input(&self, channel: usize) -> (r: &[S])
        requires
            self.wf(),
            channel < self.inputs@.len(),
        ensures
            r@ == self.input_samples(channel as int),
    {
        let end: usize = self.offset + self.num_samples;
        slice_subrange(self.inputs[channel].as_slice(), self.offset, end)
    }

    /// The samples of an output channel, to write to. Nothing else of the buffer
    /// changes by it.
    pub fn output(&mut self, channel: usize) -> (r: &mut [S])
        requires
            old(self).wf(),
            channel < old(self).output_channels().len(),
        ensures
            r@ == old(self).output_samples(channel as int),
            final(self).same_but_outputs(old(self)),
            final(final(self).outputs)@ == final(old(self).outputs)@,
            final(r)@.len() == r@.len() ==> final(self).wf() && replaced(
                final(self).output_channels(),
                old(self).output_channels(),
                channel as int,
                old(self).offset as int,
                final(r)@,
            ),
    {
        let offset: usize = self.offset;
        let num_samples: usize = self.num_samples;
        let ghost whole = self.outputs@[channel as int]@;
        let (front, rest) = self.outputs[channel].as_mut_slice().split_at_mut(offset);
        let (r, back) = rest.split_at_mut(num_samples);
        proof {
            assert(final(front)@ =~= whole.take(offset as int));
            assert(final(back)@ =~= whole.skip(offset + num_samples));
            assert(after_borrow(self).outputs@[channel as int]@ =~= final(front)@ + (final(r)@
                + final(back)@));
            assert(final(r)@.len() == num_samples ==> after_borrow(self).outputs@[channel as int]@
                =~= with_part(whole, offset as int, final(r)@));
            assert(forall|c: int|
                0 <= c < old(self).output_channels().len() && c != channel
                    ==> #[trigger] after_borrow(self).outputs@[c]
                    == old(self).output_channels()[c]);
        }
        r
    }

    /// The samples of a channel whose input and output are one piece of memory: they
    /// read as the input until they are written to.
    pub fn in_out_mut(&mut self, ch: usize) -> (r: &mut [S])
        requires
            old(self).wf(),
            ch < old(self).output_channels().len(),
        ensures
            r@ == old(self).output_samples(ch as int),
            final(self).same_but_outputs(old(self)),
            final(final(self).outputs)@ == final(old(self).outputs)@,
            final(r)@.len() == r@.len() ==> final(self).wf() && replaced(
                final(self).output_channels(),
                old(self).output_channels(),
                ch as int,
                old(self).offset as int,
                final(r)@,
            ),
    {
        self.output(ch)
    }

    /// The samples of an input channel, and those of an output channel to write to.
    pub fn io_pair(&mut self, in_ch: usize, out_ch: usize) -> (r: (&[S], &mut [S]))
        requires
            old(self).wf(),
            in_ch < old(self).inputs@.len(),
            out_ch < old(self).output_channels().len(),
        ensures
            r.0@ == old(self).input_samples(in_ch as int),
            r.1@ == old(self).output_samples(out_ch as int),
            final(self).same_but_outputs(old(self)),
            final(final(self).outputs)@ == final(old(self).outputs)@,
            final(r.1)@.len() == r.1@.len() ==> final(self).wf() && replaced(
                final(self).output_channels(),
                old(self).output_channels(),
                out_ch as int,
                old(self).offset as int,
                final(r.1)@,
            ),
    {
        let end: usize = self.offset + self.num_samples;
        let input: &[S] = slice_subrange(self.inputs[in_ch].as_slice(), self.offset, end);
        (input, self.output(out_ch))
    }

    /// The samples of a channel's input, and those of its output to write to.
    pub fn io(&mut self, ch: usize) -> (r: (&[S], &mut [S]))
        requires
            old(self).wf(),
            ch < old(self).inputs@.len(),
            ch < old(self).output_channels().len(),
        ensures
            r.0@ == old(self).input_samples(ch as int),
            r.1@ == old(self).output_samples(ch as int),
            final(self).same_but_outputs(old(self)),
            final(final(self).outputs)@ == final(old(self).outputs)@,
            final(r.1)@.len() == r.1@.len() ==> final(self).wf() && replaced(
                final(self).output_channels(),
                old(self).output_channels(),
                ch as int,
                old(self).offset as int,
                final(r.1)@,
            ),
    {
        self.io_pair(ch, ch)
    }

    /// The part of a block from a sample on.
    pub fn slice<'b>(&'b mut self, start: usize, len: usize) -> (r: AudioBuffer<'b, S>)
        requires
            old(self).wf(),
            start + len <= old(self).num_samples,
        ensures
            r.wf(),
            r.inputs == old(self).inputs,
            r.output_channels() == old(self).output_channels(),
            r.in_place_mask == old(self).in_place_mask,
            r.offset == old(self).offset + start,
            r.num_samples == len,
            final(self).same_but_outputs(old(self)),
            final(self).output_channels() == final(r.outputs)@,
            final(final(self).outputs)@ == final(old(self).outputs)@,
    {
        AudioBuffer {
            inputs: self.inputs,
            outputs: &mut *self.outputs,
            in_place_mask: self.in_place_mask,
            offset: self.offset + start,
            num_samples: len,
        }
    }
}

/// The samples of all channels at one place: a frame.
pub open spec fn frame_at<S>(channels: Seq<Vec<S>>, n: int, at: int) -> Seq<S> {
    Seq::new(n as nat, |ch: int| channels[ch]@[at])
}

/// Whether each step of a run over frames is one call: from a state, a frame of the
/// inputs and the frame that the step before gave, to the next state and frame.
pub open spec fn runs<S, T, F: Fn(T, &Vec<S>, Vec<S>) -> (T, Vec<S>)>(
    tick: F,
    states: Seq<T>,
    frames_in: Seq<Vec<S>>,
    frames_out: Seq<Vec<S>>,
) -> bool {
    &&& states.len() == frames_in.len() + 1
    &&& frames_out.len() == frames_in.len() + 1
    &&& forall|i: int|
        #![trigger frames_in[i]]
        0 <= i < frames_in.len() ==> call_ensures(
            tick,
            (states[i], &frames_in[i], frames_out[i]),
            (states[i + 1], frames_out[i + 1]),
        )
}

/// Whether output channels hold the frames of a run from a place on, and are
/// unchanged elsewhere.
pub open spec fn holds_frames<S>(
    after: Seq<Vec<S>>,
    before: Seq<Vec<S>>,
    n: int,
    from: int,
    frames_out: Seq<Vec<S>>,
) -> bool {
    &&& after.len() == before.len()
    &&& forall|ch: int|
        0 <= ch < before.len() ==> (#[trigger] after[ch])@.len() == before[ch]@.len()
    &&& forall|ch: int, k: int|
        #![trigger after[ch]@[k]]
        0 <= ch < before.len() && 0 <= k < before[ch]@.len() ==> after[ch]@[k] == if ch < n && from
            <= k < from + frames_out.len() - 1 {
            frames_out[k - from + 1]@[ch]
        } else {
            before[ch]@[k]
        }
}

impl<'a, S: Copy> AudioBuffer<'a, S> {
    /// Runs over a block frame by frame. At each place `tick` is given a state, the
    /// frame of the inputs and the frame that it gave for the place before (at first
    /// a silent one); what it gives is written to the outputs.
    pub fn for_each_frame<T, F: Fn(T, &Vec<S>, Vec<S>) -> (T, Vec<S>)>(
        &mut self,
        n: usize,
        state: T,
        silence: S,
        tick: F,
    ) -> (r: T)
        requires
            old(self).wf(),
            n <= old(self).inputs@.len(),
            n <= old(self).output_channels().len(),
            forall|s: T, i: &Vec<S>, o: Vec<S>|
                i@.len() == n && o@.len() == n ==> #[trigger] call_requires(tick, (s, i, o)),
            forall|s: T, i: &Vec<S>, o: Vec<S>, r: (T, Vec<S>)|
                i@.len() == n && o@.len() == n && #[trigger] call_ensures(tick, (s, i, o), r)
                    ==> r.1@.len() == n,
        ensures
            final(self).wf(),
            final(self).same_but_outputs(old(self)),
            final(final(self).outputs)@ == final(old(self).outputs)@,
            exists|states: Seq<T>, frames_in: Seq<Vec<S>>, frames_out: Seq<Vec<S>>|
                {
                    &&& #[trigger] runs(tick, states, frames_in, frames_out)
                    &&& frames_in.len() == old(self).num_samples
                    &&& forall|i: int|
                        0 <= i < frames_in.len() ==> (#[trigger] frames_in[i])@ == frame_at(
                            old(self).inputs@,
                            n as int,
                            old(self).offset + i,
                        )
                    &&& states[0] == state
                    &&& states.last() == r
                    &&& frames_out[0]@ == Seq::new(n as nat, |ch: int| silence)
                    &&& holds_frames(
                        final(self).output_channels(),
                        old(self).output_channels(),
                        n as int,
                        old(self).offset as int,
                        frames_out,
                    )
                },
    {
        let mut frame_out: Vec<S> = Vec::new();
        let mut ch: usize = 0;
        while ch < n
            invariant
                ch <= n,
                frame_out@ =~= Seq::new(ch as nat, |c: int| silence),
            decreases n - ch,
        {
            frame_out.push(silence);
            ch = ch + 1;
        }
        let mut state: T = state;
        let ghost mut states: Seq<T> = seq![state];
        let ghost mut frames_in: Seq<Vec<S>> = Seq::empty();
        let ghost mut frames_out: Seq<Vec<S>> = seq![frame_out];
        let ghost first = state;
        let mut i: usize = 0;
        while i < self.num_samples
            invariant
                i <= self.num_samples,
                old(self).wf(),
                self.wf(),
                self.same_but_outputs(old(self)),
                final(self.outputs)@ == final(old(self).outputs)@,
                n <= self.inputs@.len(),
                n <= self.outputs@.len(),
                forall|s: T, i: &Vec<S>, o: Vec<S>|
                    i@.len() == n && o@.len() == n ==> #[trigger] call_requires(tick, (s, i, o)),
                forall|s: T, i: &Vec<S>, o: Vec<S>, r: (T, Vec<S>)|
                    i@.len() == n && o@.len() == n && #[trigger] call_ensures(tick, (s, i, o), r)
                        ==> r.1@.len() == n,
                frame_out@.len() == n,
                runs(tick, states, frames_in, frames_out),
                frames_in.len() == i,
                forall|k: int|
                    0 <= k < i ==> (#[trigger] frames_in[k])@ == frame_at(
                        self.inputs@,
                        n as int,
                        self.offset + k,
                    ),
                states[0] == first,
                states.last() == state,
                frames_out[0]@ == Seq::new(n as nat, |c: int| silence),
                frames_out.last() == frame_out,
                holds_frames(
                    self.outputs@,
                    old(self).output_channels(),
                    n as int,
                    self.offset as int,
                    frames_out,
                ),
            decreases self.num_samples - i,
        {
            let at: usize = self.offset + i;
            let mut frame_in: Vec<S> = Vec::new();
            let mut ch: usize = 0;
            while ch < n
                invariant
                    ch <= n <= self.inputs@.len(),
                    at < self.offset + self.num_samples,
                    self.wf(),
                    frame_in@ =~= frame_at(self.inputs@, ch as int, at as int),
                decreases n - ch,
            {
                frame_in.push(self.inputs[ch][at]);
                ch = ch + 1;
            }
            let (next, out) = tick(state, &frame_in, frame_out);
            state = next;
            frame_out = out;
            proof {
                states = states.push(state);
                frames_in = frames_in.push(frame_in);
                frames_out = frames_out.push(frame_out);
                assert forall|k: int|
                    #![trigger frames_in[k]]
                    0 <= k < frames_in.len() implies call_ensures(
                    tick,
                    (states[k], &frames_in[k], frames_out[k]),
                    (states[k + 1], frames_out[k + 1]),
                ) by {
                    if k < i {
                        assert(frames_in.drop_last()[k] == frames_in[k]);
                    }
                }
            }
            let ghost outputs_before = self.outputs@;
            let mut ch: usize = 0;
            while ch < n
                invariant
                    ch <= n <= self.outputs@.len(),
                    frame_out@.len() == n,
                    at == self.offset + i,
                    i < self.num_samples,
                    self.wf(),
                    self.same_but_outputs(old(self)),
                    final(self.outputs)@ == final(old(self).outputs)@,
                    self.outputs@.len() == outputs_before.len(),
                    forall|c: int|
                        0 <= c < outputs_before.len() ==> (#[trigger] self.outputs@[c])@.len()
                            == outputs_before[c]@.len(),
                    forall|c: int, k: int|
                        #![trigger self.outputs@[c]@[k]]
                        0 <= c < outputs_before.len() && 0 <= k < outputs_before[c]@.len()
                            ==> self.outputs@[c]@[k] == if c < ch && k == at {
                            frame_out@[c]
                        } else {
                            outputs_before[c]@[k]
                        },
                decreases n - ch,
            {
                self.outputs[ch][at] = frame_out[ch];
                ch = ch + 1;
            }
            i = i + 1;
        }
        state
    }
}

/// An input channel of the host: where its samples lie, and what they are.
#[derive(Debug, Clone, Copy)]
pub struct HostInput<'h, H> {
    pub address: usize,
    pub samples: &'h [H],
}

/// Where a plugin reads an input channel.
#[derive(Debug, Clone, Copy, PartialEq, Eq, Structural)]
pub enum InputSource {
    /// The host gave no channel: there are no samples.
    Missing,
    /// The output of the same channel is the same buffer, and the plugin reads it there.
    Shared,
    /// In the host's memory.
    Host,
    /// In a copy, made before the block is rendered.
    Copied,
}

/// Where a plugin writes an output channel.
#[derive(Debug, Clone, Copy, PartialEq, Eq, Structural)]
pub enum OutputTarget {
    /// The host gave no channel: there are no samples.
    Missing,
    /// In the host's memory.
    Host,
    /// In scratch memory, which is handed to the host after the block.
    Scratch,
}

/// How the channels of a block are made of a host's memory.
#[derive(Debug)]
pub struct BufferPlan {
    pub inputs: Vec<InputSource>,
    pub outputs: Vec<OutputTarget>,
    pub in_place_mask: u64,
}

/// Whether two pieces of memory of the same size overlap.
pub open spec fn overlaps(a: int, b: int, bytes: int) -> bool {
    !(a + bytes <= b || b + bytes <= a)
}

/// Whether a piece of memory overlaps one of the output channels that are looked at.
pub open spec fn aliases(address: int, outputs: Seq<Option<usize>>, bytes: int) -> bool {
    exists|o: int|
        0 <= o < outputs.len() && o < MAX_CHANNELS_TRACKED && (#[trigger] outputs[o] matches Some(
            p,
        ) && overlaps(address, p as int, bytes))
}

/// Where a plugin reads input channel `c`: one that shares its buffer with the output
/// of the same channel is read there, if the plugin reads in place. Any other that
/// overlaps an output is copied, and so is one whose samples are of another type than
/// the plugin's.
pub open spec fn input_source<'h, H>(
    c: int,
    input: Option<HostInput<'h, H>>,
    outputs: Seq<Option<usize>>,
    bytes: int,
    same_precision: bool,
    supports_in_place: bool,
) -> InputSource {
    match input {
        None => InputSource::Missing,
        Some(host) => if is_shared(c, input, outputs) && supports_in_place && same_precision {
            InputSource::Shared
        } else if aliases(host.address as int, outputs, bytes) || !same_precision {
            InputSource::Copied
        } else {
            InputSource::Host
        },
    }
}

/// Where a plugin writes an output channel.
pub open spec fn output_target(output: Option<usize>, same_precision: bool) -> OutputTarget {
    match output {
        None => OutputTarget::Missing,
        Some(_) => if same_precision {
            OutputTarget::Host
        } else {
            OutputTarget::Scratch
        },
    }
}

/// Whether the host passes one buffer for both the input and the output of channel
/// `c`. Channels that are not looked at never count as shared.
pub open spec fn is_shared<'h, H>(
    c: int,
    input: Option<HostInput<'h, H>>,
    outputs: Seq<Option<usize>>,
) -> bool {
    &&& 0 <= c < outputs.len()
    &&& c < MAX_CHANNELS_TRACKED
    &&& input matches Some(host) && outputs[c] == Some(host.address)
}

/// A plugin that reads an input channel in the host's memory never finds it changed
/// by what it writes: that memory overlaps no output channel that is looked at.
pub proof fn law_host_input_is_apart<'h, H>(
    c: int,
    input: Option<HostInput<'h, H>>,
    outputs: Seq<Option<usize>>,
    bytes: int,
    same_precision: bool,
    supports_in_place: bool,
    o: int,
)
    requires
        input_source(c, input, outputs, bytes, same_precision, supports_in_place)
            == InputSource::Host,
        0 <= o < outputs.len(),
        o < MAX_CHANNELS_TRACKED,
        outputs[o] is Some,
    ensures
        !overlaps((input->0).address as int, outputs[o]->0 as int, bytes),
{
}

/// An input channel is empty in favour of the output exactly where the plugin reads
/// in place, in the host's precision, and the channel is marked; the output of that
/// channel is then the very memory that the host passed for the input.
pub proof fn law_shared_channel_is_its_output<'h, H>(
    c: int,
    input: Option<HostInput<'h, H>>,
    outputs: Seq<Option<usize>>,
    bytes: int,
    same_precision: bool,
    supports_in_place: bool,
)
    ensures
        ({
            let source = input_source(c, input, outputs, bytes, same_precision, supports_in_place);
            &&& source == InputSource::Shared <==> supports_in_place && same_precision
                && is_shared(c, input, outputs)
            &&& source == InputSource::Shared ==> outputs[c] == Some((input->0).address)
        }),
{
}

/// Whether samples are what others are changed into.
pub open spec fn converted<H, S, F: Fn(H) -> S>(convert: F, from: Seq<H>, to: Seq<S>) -> bool {
    &&& to.len() == from.len()
    &&& forall|k: int|
        0 <= k < to.len() ==> call_ensures(convert, (from[k],), #[trigger] to[k])
}

/// Finds whether a piece of memory overlaps one of the output channels.
fn aliases_any_output(address: usize, outputs: &Vec<Option<usize>>, bytes: usize) -> (r: bool)
    requires
        address + bytes <= usize::MAX,
        forall|o: int|
            0 <= o < outputs@.len() ==> (#[trigger] outputs@[o] matches Some(p) ==> p + bytes
                <= usize::MAX),
    ensures
        r == aliases(address as int, outputs@, bytes as int),
{
    let mut o: usize = 0;
    while o < outputs.len() && o < MAX_CHANNELS_TRACKED
        invariant
            o <= outputs@.len(),
            o <= MAX_CHANNELS_TRACKED,
            address + bytes <= usize::MAX,
            forall|k: int|
                0 <= k < outputs@.len() ==> (#[trigger] outputs@[k] matches Some(p) ==> p + bytes
                    <= usize::MAX),
            forall|k: int|
                0 <= k < o ==> !(#[trigger] outputs@[k] matches Some(p) && overlaps(
                    address as int,
                    p as int,
                    bytes as int,
                )),
        decreases outputs@.len() - o,
    {
        if let Some(p) = outputs[o] {
            if !(address + bytes <= p || p + bytes <= address) {
                proof {
                    assert(outputs@[o as int] matches Some(q) && overlaps(
                        address as int,
                        q as int,
                        bytes as int,
                    ));
                }
                return true;
            }
        }
        o = o + 1;
    }
    false
}

proof fn lemma_mask_bit(mask: u64, k: u64)
    requires
        k < 64,
    ensures
        forall|c: int|
            0 <= c < 64 ==> #[trigger] in_place(mask | (1u64 << k), c) == (c == k || in_place(
                mask,
                c,
            )),
{
    assert forall|c: int| 0 <= c < 64 implies #[trigger] in_place(mask | (1u64 << k), c) == (c == k
        || in_place(mask, c)) by {
        let b: u64 = c as u64;
        assert(((mask | (1u64 << k)) >> b) & 1 == 1 <==> (b == k || (mask >> b) & 1 == 1))
            by (bit_vector)
            requires
                b < 64,
                k < 64,
        ;
    }
}

proof fn lemma_empty_mask()
    ensures
        forall|c: int| !#[trigger] in_place(0, c),
{
    assert forall|c: int| !#[trigger] in_place(0, c) by {
        let b: u64 = c as u64;
        assert((0u64 >> b) & 1 == 0) by (bit_vector);
    }
}

/// Scratch memory for blocks: copies of input channels, and output channels that
/// are rendered before they are handed to the host.
pub struct RawBufferScratch<S> {
    pub input_copies: Vec<Vec<S>>,
    pub output_buffers: Vec<Vec<S>>,
}

/// Channels with silent or empty ones added until there are so many.
pub open spec fn grown<S>(channels: Seq<Vec<S>>, n: int) -> int {
    if channels.len() < n {
        n
    } else {
        channels.len() as int
    }
}

fn grow<S>(channels: &mut Vec<Vec<S>>, n: usize, capacity: usize)
    ensures
        final(channels)@.len() == grown(old(channels)@, n as int),
        forall|c: int|
            0 <= c < old(channels)@.len() ==> #[trigger] final(channels)@[c] == old(channels)@[c],
        forall|c: int|
            old(channels)@.len() <= c < final(channels)@.len()
                ==> (#[trigger] final(channels)@[c])@.len() == 0,
{
    while channels.len() < n
        invariant
            old(channels)@.len() <= channels@.len() <= grown(old(channels)@, n as int),
            forall|c: int|
                0 <= c < old(channels)@.len() ==> #[trigger] channels@[c] == old(channels)@[c],
            forall|c: int|
                old(channels)@.len() <= c < channels@.len() ==> (#[trigger] channels@[c])@.len()
                    == 0,
        decreases n - channels@.len(),
    {
        channels.push(Vec::with_capacity(capacity));
    }
}

impl<S> Default for RawBufferScratch<S> {
    fn default() -> (r: Self)
        ensures
            r.input_copies@.len() == 0,
            r.output_buffers@.len() == 0,
    {
        RawBufferScratch {
            input_copies: Vec::with_capacity(2),
            output_buffers: Vec::with_capacity(2),
        }
    }
}

impl<S: Copy> RawBufferScratch<S> {
    /// Plans a block and fills the scratch memory for it. `bytes` is the size of a
    /// channel of the host; a missing channel is `None`.
    pub fn build<'h, H: Copy, F: Fn(H) -> S>(
        &mut self,
        inputs: &Vec<Option<HostInput<'h, H>>>,
        outputs: &Vec<Option<usize>>,
        num_frames: usize,
        bytes: usize,
        same_precision: bool,
        supports_in_place: bool,
        silence: S,
        convert: F,
    ) -> (r: BufferPlan)
        requires
            forall|c: int|
                0 <= c < inputs@.len() ==> (#[trigger] inputs@[c] matches Some(host)
                    ==> host.address + bytes <= usize::MAX && host.samples@.len() == num_frames),
            forall|o: int|
                0 <= o < outputs@.len() ==> (#[trigger] outputs@[o] matches Some(p) ==> p + bytes
                    <= usize::MAX),
            forall|h: H| #[trigger] call_requires(convert, (h,)),
        ensures
            r.inputs@.len() == inputs@.len(),
            forall|c: int|
                0 <= c < inputs@.len() ==> #[trigger] r.inputs@[c] == input_source(
                    c,
                    inputs@[c],
                    outputs@,
                    bytes as int,
                    same_precision,
                    supports_in_place,
                ),
            r.outputs@.len() == outputs@.len(),
            forall|o: int|
                0 <= o < outputs@.len() ==> #[trigger] r.outputs@[o] == output_target(
                    outputs@[o],
                    same_precision,
                ),
            forall|c: int|
                #[trigger] in_place(r.in_place_mask, c) == (0 <= c < inputs@.len()
                    && is_shared(c, inputs@[c], outputs@)),
            final(self).input_copies@.len() == grown(
                old(self).input_copies@,
                inputs@.len() as int,
            ),
            forall|c: int|
                0 <= c < inputs@.len() && r.inputs@[c] == InputSource::Copied ==> converted(
                    convert,
                    (inputs@[c]->0).samples@,
                    (#[trigger] final(self).input_copies@[c])@,
                ),
            forall|c: int|
                0 <= c < old(self).input_copies@.len() && !(c < inputs@.len() && r.inputs@[c]
                    == InputSource::Copied) ==> #[trigger] final(self).input_copies@[c]
                    == old(self).input_copies@[c],
            final(self).output_buffers@.len() == grown(
                old(self).output_buffers@,
                if same_precision {
                    0
                } else {
                    outputs@.len() as int
                },
            ),
            forall|o: int|
                0 <= o < outputs@.len() && r.outputs@[o] == OutputTarget::Scratch
                    ==> (#[trigger] final(self).output_buffers@[o])@ == Seq::new(
                    num_frames as nat,
                    |k: int| silence,
                ),
            forall|o: int|
                0 <= o < old(self).output_buffers@.len() && !(o < outputs@.len() && r.outputs@[o]
                    == OutputTarget::Scratch) ==> #[trigger] final(self).output_buffers@[o]
                    == old(self).output_buffers@[o],
    {
        grow(&mut self.input_copies, inputs.len(), 0);
        if !same_precision {
            grow(&mut self.output_buffers, outputs.len(), 0);
        }
        let (sources, in_place_mask) = self.build_inputs(
            inputs,
            outputs,
            num_frames,
            bytes,
            same_precision,
            supports_in_place,
            convert,
        );
        let targets: Vec<OutputTarget> = self.build_outputs(
            outputs,
            num_frames,
            same_precision,
            silence,
        );
        BufferPlan { inputs: sources, outputs: targets, in_place_mask }
    }

    fn build_inputs<'h, H: Copy, F: Fn(H) -> S>(
        &mut self,
        inputs: &Vec<Option<HostInput<'h, H>>>,
        outputs: &Vec<Option<usize>>,
        num_frames: usize,
        bytes: usize,
        same_precision: bool,
        supports_in_place: bool,
        convert: F,
    ) -> (r: (Vec<InputSource>, u64))
        requires
            old(self).input_copies@.len() >= inputs@.len(),
            forall|c: int|
                0 <= c < inputs@.len() ==> (#[trigger] inputs@[c] matches Some(host)
                    ==> host.address + bytes <= usize::MAX && host.samples@.len() == num_frames),
            forall|o: int|
                0 <= o < outputs@.len() ==> (#[trigger] outputs@[o] matches Some(p) ==> p + bytes
                    <= usize::MAX),
            forall|h: H| #[trigger] call_requires(convert, (h,)),
        ensures
            r.0@.len() == inputs@.len(),
            forall|c: int|
                0 <= c < inputs@.len() ==> #[trigger] r.0@[c] == input_source(
                    c,
                    inputs@[c],
                    outputs@,
                    bytes as int,
                    same_precision,
                    supports_in_place,
                ),
            forall|c: int|
                #[trigger] in_place(r.1, c) == (0 <= c < inputs@.len() && is_shared(
                    c,
                    inputs@[c],
                    outputs@,
                )),
            final(self).output_buffers == old(self).output_buffers,
            final(self).input_copies@.len() == old(self).input_copies@.len(),
            forall|c: int|
                0 <= c < inputs@.len() && r.0@[c] == InputSource::Copied ==> converted(
                    convert,
                    (inputs@[c]->0).samples@,
                    (#[trigger] final(self).input_copies@[c])@,
                ),
            forall|c: int|
                0 <= c < old(self).input_copies@.len() && !(c < inputs@.len() && r.0@[c]
                    == InputSource::Copied) ==> #[trigger] final(self).input_copies@[c]
                    == old(self).input_copies@[c],
    {
        let mut sources: Vec<InputSource> = Vec::new();
        let mut mask: u64 = 0;
        let mut ch: usize = 0;
        proof {
            lemma_empty_mask();
        }
        while ch < inputs.len()
            invariant
                ch <= inputs@.len() <= self.input_copies@.len(),
                self.input_copies@.len() == old(self).input_copies@.len(),
                self.output_buffers == old(self).output_buffers,
                forall|c: int|
                    0 <= c < inputs@.len() ==> (#[trigger] inputs@[c] matches Some(host)
                        ==> host.address + bytes <= usize::MAX && host.samples@.len()
                        == num_frames),
                forall|o: int|
                    0 <= o < outputs@.len() ==> (#[trigger] outputs@[o] matches Some(p) ==> p
                        + bytes <= usize::MAX),
                forall|h: H| #[trigger] call_requires(convert, (h,)),
                sources@.len() == ch,
                forall|c: int|
                    0 <= c < ch ==> #[trigger] sources@[c] == input_source(
                        c,
                        inputs@[c],
                        outputs@,
                        bytes as int,
                        same_precision,
                        supports_in_place,
                    ),
                forall|c: int|
                    #[trigger] in_place(mask, c) == (0 <= c < ch && is_shared(
                        c,
                        inputs@[c],
                        outputs@,
                    )),
                forall|c: int|
                    0 <= c < ch && sources@[c] == InputSource::Copied ==> converted(
                        convert,
                        (inputs@[c]->0).samples@,
                        (#[trigger] self.input_copies@[c])@,
                    ),
                forall|c: int|
                    0 <= c < self.input_copies@.len() && !(c < ch && sources@[c]
                        == InputSource::Copied) ==> #[trigger] self.input_copies@[c]
                        == old(self).input_copies@[c],
            decreases inputs@.len() - ch,
        {
            let source: InputSource = match inputs[ch] {
                None => InputSource::Missing,
                Some(host) => {
                    let shared: bool = ch < outputs.len() && ch < MAX_CHANNELS_TRACKED && (
                    match outputs[ch] {
                        Some(p) => p == host.address,
                        None => false,
                    });
                    if shared {
                        proof {
                            lemma_mask_bit(mask, ch as u64);
                        }
                        mask = mask | (1u64 << (ch as u64));
                    }
                    if shared && supports_in_place && same_precision {
                        InputSource::Shared
                    } else if aliases_any_output(host.address, outputs, bytes) || !same_precision {
                        let mut copy: Vec<S> = Vec::with_capacity(num_frames);
                        let mut k: usize = 0;
                        while k < host.samples.len()
                            invariant
                                k <= host.samples@.len(),
                                copy@.len() == k,
                                forall|h: H| #[trigger] call_requires(convert, (h,)),
                                forall|j: int|
                                    0 <= j < k ==> call_ensures(
                                        convert,
                                        (host.samples@[j],),
                                        #[trigger] copy@[j],
                                    ),
                            decreases host.samples@.len() - k,
                        {
                            copy.push(convert(host.samples[k]));
                            k = k + 1;
                        }
                        self.input_copies.set(ch, copy);
                        InputSource::Copied
                    } else {
                        InputSource::Host
                    }
                },
            };
            sources.push(source);
            ch = ch + 1;
        }
        (sources, mask)
    }

    fn build_outputs(
        &mut self,
        outputs: &Vec<Option<usize>>,
        num_frames: usize,
        same_precision: bool,
        silence: S,
    ) -> (r: Vec<OutputTarget>)
        requires
            !same_precision ==> old(self).output_buffers@.len() >= outputs@.len(),
        ensures
            r@.len() == outputs@.len(),
            forall|o: int|
                0 <= o < outputs@.len() ==> #[trigger] r@[o] == output_target(
                    outputs@[o],
                    same_precision,
                ),
            final(self).input_copies == old(self).input_copies,
            final(self).output_buffers@.len() == old(self).output_buffers@.len(),
            forall|o: int|
                0 <= o < outputs@.len() && r@[o] == OutputTarget::Scratch
                    ==> (#[trigger] final(self).output_buffers@[o])@ == Seq::new(
                    num_frames as nat,
                    |k: int| silence,
                ),
            forall|o: int|
                0 <= o < old(self).output_buffers@.len() && !(o < outputs@.len() && r@[o]
                    == OutputTarget::Scratch) ==> #[trigger] final(self).output_buffers@[o]
                    == old(self).output_buffers@[o],
    {
        let mut targets: Vec<OutputTarget> = Vec::new();
        let mut ch: usize = 0;
        while ch < outputs.len()
            invariant
                ch <= outputs@.len(),
                !same_precision ==> outputs@.len() <= self.output_buffers@.len(),
                self.output_buffers@.len() == old(self).output_buffers@.len(),
                self.input_copies == old(self).input_copies,
                targets@.len() == ch,
                forall|o: int|
                    0 <= o < ch ==> #[trigger] targets@[o] == output_target(
                        outputs@[o],
                        same_precision,
                    ),
                forall|o: int|
                    0 <= o < ch && targets@[o] == OutputTarget::Scratch
                        ==> (#[trigger] self.output_buffers@[o])@ == Seq::new(
                        num_frames as nat,
                        |k: int| silence,
                    ),
                forall|o: int|
                    0 <= o < self.output_buffers@.len() && !(o < ch && targets@[o]
                        == OutputTarget::Scratch) ==> #[trigger] self.output_buffers@[o]
                        == old(self).output_buffers@[o],
            decreases outputs@.len() - ch,
        {
            let target: OutputTarget = match outputs[ch] {
                None => OutputTarget::Missing,
                Some(_) => if same_precision {
                    OutputTarget::Host
                } else {
                    let mut buffer: Vec<S> = Vec::with_capacity(num_frames);
                    let mut k: usize = 0;
                    while k < num_frames
                        invariant
                            k <= num_frames,
                            buffer@ =~= Seq::new(k as nat, |j: int| silence),
                        decreases num_frames - k,
                    {
                        buffer.push(silence);
                        k = k + 1;
                    }
                    self.output_buffers.set(ch, buffer);
                    OutputTarget::Scratch
                },
            };
            targets.push(target);
            ch = ch + 1;
        }
        targets
    }

    /// Hands the rendered output channels to the host, sample by sample, where they
    /// were rendered in scratch memory; a missing channel is passed over. Where the
    /// plugin wrote to the host's memory there is nothing to do.
    pub fn finish_widening<H: Copy, F: Fn(S) -> H>(
        &self,
        outputs: &mut Vec<Option<Vec<H>>>,
        same_precision: bool,
        convert: F,
    )
        requires
            !same_precision ==> old(outputs)@.len() <= self.output_buffers@.len(),
            forall|s: S| #[trigger] call_requires(convert, (s,)),
        ensures
            final(outputs)@.len() == old(outputs)@.len(),
            same_precision ==> final(outputs)@ == old(outputs)@,
            !same_precision ==> forall|c: int|
                0 <= c < old(outputs)@.len() ==> handed_over(
                    convert,
                    self.output_buffers@[c]@,
                    old(outputs)@[c],
                    #[trigger] final(outputs)@[c],
                ),
    {
        if same_precision {
            return ;
        }
        let mut ch: usize = 0;
        while ch < outputs.len()
            invariant
                ch <= outputs@.len() == old(outputs)@.len(),
                outputs@.len() <= self.output_buffers@.len(),
                forall|s: S| #[trigger] call_requires(convert, (s,)),
                forall|c: int|
                    0 <= c < ch ==> handed_over(
                        convert,
                        self.output_buffers@[c]@,
                        old(outputs)@[c],
                        #[trigger] outputs@[c],
                    ),
                forall|c: int|
                    ch <= c < outputs@.len() ==> #[trigger] outputs@[c] == old(outputs)@[c],
            decreases outputs@.len() - ch,
        {
            let rendered: &Vec<S> = &self.output_buffers[ch];
            let replacement: Option<Vec<H>> = match &outputs[ch] {
                None => None,
                Some(host) => {
                    let mut out: Vec<H> = Vec::with_capacity(host.len());
                    let mut k: usize = 0;
                    while k < host.len()
                        invariant
                            k <= host@.len(),
                            out@.len() == k,
                            forall|s: S| #[trigger] call_requires(convert, (s,)),
                            forall|j: int|
                                0 <= j < k ==> if j < rendered@.len() {
                                    call_ensures(convert, (rendered@[j],), #[trigger] out@[j])
                                } else {
                                    out@[j] == host@[j]
                                },
                        decreases host@.len() - k,
                    {
                        if k < rendered.len() {
                            out.push(convert(rendered[k]));
                        } else {
                            out.push(host[k]);
                        }
                        k = k + 1;
                    }
                    Some(out)
                },
            };
            outputs.set(ch, replacement);
            ch = ch + 1;
        }
    }

    /// Makes room for blocks of a size, so that building them later finds it. What
    /// the scratch memory holds stays.
    pub fn ensure_capacity(&mut self, num_in: usize, num_out: usize, max_frames: usize)
        ensures
            final(self).input_copies@.len() == grown(old(self).input_copies@, num_in as int),
            final(self).output_buffers@.len() == grown(old(self).output_buffers@, num_out as int),
            forall|c: int|
                0 <= c < final(self).input_copies@.len()
                    ==> (#[trigger] final(self).input_copies@[c])@ == if c
                    < old(self).input_copies@.len() {
                    old(self).input_copies@[c]@
                } else {
                    Seq::empty()
                },
            forall|c: int|
                0 <= c < final(self).output_buffers@.len()
                    ==> (#[trigger] final(self).output_buffers@[c])@ == if c
                    < old(self).output_buffers@.len() {
                    old(self).output_buffers@[c]@
                } else {
                    Seq::empty()
                },
    {
        grow(&mut self.input_copies, num_in, max_frames);
        grow(&mut self.output_buffers, num_out, max_frames);
        reserve_all(&mut self.input_copies, max_frames);
        reserve_all(&mut self.output_buffers, max_frames);
    }
}

/// Whether a host's output channel was given the rendered samples.
pub open spec fn handed_over<S, H, F: Fn(S) -> H>(
    convert: F,
    rendered: Seq<S>,
    before: Option<Vec<H>>,
    after: Option<Vec<H>>,
) -> bool {
    match (before, after) {
        (None, None) => true,
        (Some(b), Some(a)) => a@.len() == b@.len() && forall|k: int|
            0 <= k < b@.len() ==> if k < rendered.len() {
                call_ensures(convert, (rendered[k],), #[trigger] a@[k])
            } else {
                a@[k] == b@[k]
            },
        _ => false,
    }
}

fn reserve_all<S>(channels: &mut Vec<Vec<S>>, max_frames: usize)
    ensures
        final(channels)@.len() == old(channels)@.len(),
        forall|c: int|
            0 <= c < old(channels)@.len()
                ==> (#[trigger] final(channels)@[c])@ == old(channels)@[c]@,
{
    let mut c: usize = 0;
    while c < channels.len()
        invariant
            c <= channels@.len() == old(channels)@.len(),
            forall|k: int|
                0 <= k < channels@.len() ==> (#[trigger] channels@[k])@ == old(channels)@[k]@,
        decreases channels@.len() - c,
    {
        let held: usize = channels[c].len();
        if held < max_frames {
            channels[c].reserve(max_frames - held);
        }
        c = c + 1;
    }
}

/// Two pieces of memory overlap exactly where some byte belongs to both.
pub proof fn law_overlap_is_a_common_byte(a: int, b: int, bytes: int, x: int)
    requires
        bytes > 0,
    ensures
        a <= x < a + bytes && b <= x < b + bytes ==> overlaps(a, b, bytes),
        overlaps(a, b, bytes) ==> {
            let y = if a < b {
                b
            } else {
                a
            };
            a <= y < a + bytes && b <= y < b + bytes
        },
        overlaps(a, b, bytes) == overlaps(b, a, bytes),
{
}

/// A mask says of a channel what its bit says: none is marked to start with, marking one
/// marks that one alone, and channels from 64 on are never marked.
pub proof fn law_marks_are_single_bits(mask: u64, k: u64, c: int)
    requires
        k < 64,
    ensures
        !in_place(0, c),
        0 <= c < 64 ==> in_place(mask | (1u64 << k), c) == (c == k || in_place(mask, c)),
        c < 0 || c >= 64 ==> !in_place(mask, c),
{
    lemma_mask_bit(mask, k);
    lemma_empty_mask();
}

/// Where a plugin reads a channel follows from what the host gave: nowhere without a
/// buffer; in the output where both are one buffer and the plugin reads in place in the
/// host's precision; in a copy where the samples are of another type, or what the plugin
/// writes could change them; in the host's buffer otherwise.
pub proof fn law_inputs_are_read_where_they_are_safe<'h, H>(
    c: int,
    input: Option<HostInput<'h, H>>,
    outputs: Seq<Option<usize>>,
    bytes: int,
    same_precision: bool,
    supports_in_place: bool,
)
    ensures
        ({
            let source = input_source(c, input, outputs, bytes, same_precision, supports_in_place);
            let one_buffer = 0 <= c < outputs.len() && c < 64 && (input matches Some(host)
                && outputs[c] == Some(host.address));
            let touched = input matches Some(host) && exists|o: int|
                0 <= o < outputs.len() && o < 64 && (#[trigger] outputs[o] matches Some(p)
                    && overlaps(host.address as int, p as int, bytes));
            &&& source is Missing <==> input is None
            &&& source is Shared <==> one_buffer && supports_in_place && same_precision
            &&& source is Copied <==> input is Some && !(one_buffer && supports_in_place
                && same_precision) && (touched || !same_precision)
            &&& source is Host <==> input is Some && same_precision && !touched && !(one_buffer
                && supports_in_place)
        }),
{
}

/// An output is written in the host's buffer where the precision is the same, in a scratch
/// buffer where it is not, and nowhere where the host gave none.
pub proof fn law_outputs_are_written_where_they_go(output: Option<usize>, same_precision: bool)
    ensures
        output_target(output, same_precision) is Missing <==> output is None,
        output_target(output, same_precision) is Host <==> output is Some && same_precision,
        output_target(output, same_precision) is Scratch <==> output is Some && !same_precision,
{
}

/// Replacing samples in the middle of a channel changes those and no others.
pub proof fn law_replacing_a_part_keeps_the_rest<S>(
    channel: Seq<S>,
    from: int,
    part: Seq<S>,
    i: int,
)
    requires
        0 <= from,
        from + part.len() <= channel.len(),
        0 <= i < channel.len(),
    ensures
        with_part(channel, from, part).len() == channel.len(),
        with_part(channel, from, part)[i] == if from <= i < from + part.len() {
            part[i - from]
        } else {
            channel[i]
        },
{
}

/// The samples of a block are those of its channels from where it starts, one for each of
/// its places, and a frame has the sample of each channel at one place.
pub proof fn law_blocks_show_their_own_samples<'a, S>(
    block: AudioBuffer<'a, S>,
    ch: int,
    i: int,
)
    requires
        block.wf(),
        0 <= i < block.num_samples,
    ensures
        0 <= ch < block.inputs@.len() ==> block.input_samples(ch).len() == block.num_samples
            && block.input_samples(ch)[i] == block.inputs@[ch]@[block.offset + i],
        0 <= ch < block.output_channels().len() ==> block.output_samples(ch).len()
            == block.num_samples && block.output_samples(ch)[i]
            == block.output_channels()[ch]@[block.offset + i],
        0 <= ch < block.inputs@.len() ==> frame_at(
            block.inputs@,
            block.inputs@.len() as int,
            block.offset + i,
        )[ch] == block.inputs@[ch]@[block.offset + i],
{
}

/// Frames that were written stand in their channels at their own places, and everything
/// else is as it was.
pub proof fn law_written_frames_stand_at_their_places<S>(
    after: Seq<Vec<S>>,
    before: Seq<Vec<S>>,
    n: int,
    from: int,
    frames_out: Seq<Vec<S>>,
    ch: int,
    k: int,
)
    requires
        holds_frames(after, before, n, from, frames_out),
        0 <= ch < before.len(),
        0 <= k < before[ch]@.len(),
    ensures
        after.len() == before.len(),
        after[ch]@.len() == before[ch]@.len(),
        ch < n && from <= k < from + frames_out.len() - 1 ==> after[ch]@[k] == frames_out[k - from
            + 1]@[ch],
        ch >= n || k < from || k >= from + frames_out.len() - 1 ==> after[ch]@[k] == before[ch]@[k],
{
    assert(after[ch]@.len() == before[ch]@.len());
    let _ = after[ch]@[k];
}

/// A channel of the host gets the rendered samples from its start on, each changed on its
/// own, and keeps what lies behind them.
pub proof fn law_rendered_samples_reach_the_host<S, H, F: Fn(S) -> H>(
    convert: F,
    rendered: Seq<S>,
    before: Vec<H>,
    after: Vec<H>,
    k: int,
)
    requires
        handed_over(convert, rendered, Some(before), Some(after)),
        0 <= k < before@.len(),
    ensures
        after@.len() == before@.len(),
        k < rendered.len() ==> call_ensures(convert, (rendered[k],), after@[k]),
        k >= rendered.len() ==> after@[k] == before@[k],
{
    let _ = after@[k];
}

} // verus!
