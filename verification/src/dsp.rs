//! The block processor: it owns the kernel, one queue of partial sums per
//! channel and the receiving end of the channel on which the control surface
//! sends its events. On every block it takes the events that are waiting,
//! retunes the kernel if one of them asks for it, and drives the convolution
//! engine over every channel of the block.
//!
//! The control surface runs on another thread and only ever sends; taking the
//! waiting events never blocks.

pub mod convolution;
pub mod model;

use crate::dsp::convolution::convolve;
use crate::dsp::convolution::designed_kernel;
use crate::dsp::convolution::history_bounded;
use crate::dsp::convolution::ints;
use crate::dsp::convolution::lemma_designed_taps_bounded;
use crate::dsp::convolution::lemma_step_bounded;
use crate::dsp::convolution::run_history;
use crate::dsp::convolution::run_outputs;
use crate::dsp::convolution::samples_bounded;
use crate::dsp::convolution::taps_bounded;
use crate::dsp::convolution::windowed_sinc_filter;
use crate::dsp::convolution::zeros;
use crate::dsp::convolution::MAX_KERNEL_LEN;
use crate::dsp::convolution::SAMPLE_LIMIT;
use crate::dsp::model::block_len;
use crate::dsp::model::block_view;
use crate::dsp::model::fresh_state;
use crate::dsp::model::grown_len;
use crate::dsp::model::knob_cutoff;
use crate::dsp::model::last_knob;
use crate::dsp::model::lemma_events_first;
use crate::dsp::model::lemma_padded_bounded;
use crate::dsp::model::lemma_processed_lengths;
use crate::dsp::model::padded;
use crate::dsp::model::processed_as;
use crate::dsp::model::processed_block;
use crate::dsp::model::processed_state;
use crate::dsp::model::queues_view;
use crate::dsp::model::retuned_state;
use crate::dsp::model::same_shape;
use crate::dsp::model::valid_block;
use crate::dsp::model::valid_state;
use crate::dsp::model::DspView;
use crate::fixed::fx_mul;
use crate::fixed::HALF;
use crate::fixed::ONE;
use std::collections::VecDeque;
use std::sync::mpsc::Receiver;
use std::sync::mpsc::TryRecvError;
use vstd::prelude::*;

verus! {

/// The receiving end of a channel of the standard library. Nothing is known
/// of what it holds.
#[verifier::external_type_specification]
#[verifier::external_body]
#[verifier::reject_recursive_types(T)]
pub struct ExReceiver<T>(Receiver<T>);

/// Why `Receiver::try_recv` gave no value: nothing is waiting, or the sender
/// is gone. The processor treats both alike.
#[verifier::external_type_specification]
#[verifier::external_body]
pub struct ExTryRecvError(TryRecvError);

/// `Receiver::try_recv` takes the oldest value that is waiting in the channel,
/// if there is one, and never blocks. Which values are waiting is up to the
/// sender, so nothing is promised of the result.
pub assume_specification<T>[ Receiver::<T>::try_recv ](channel: &Receiver<T>) -> (event: Result<
    T,
    TryRecvError,
>)
;

/// The number of taps of a processor made by `PluginDsp::new`.
pub const DEFAULT_KERNEL_LEN: usize = 127;

/// The cutoff of a new processor: the raw value of 0.25.
pub const DEFAULT_CUTOFF: i64 = 0x4000_0000;

/// The number of channels of a processor made by `PluginDsp::new`.
pub const DEFAULT_CHANNELS: usize = 2;

/// A change that the control surface asks for.
#[derive(Clone, Copy, Debug, PartialEq, Eq)]
pub enum StateUpdate {
    /// The knob was turned to this position: the raw value of a number
    /// between 0 and 1.0.
    SetKnob(i64),
}

/// Why a processor could not be made.
#[derive(Clone, Copy, Debug, PartialEq, Eq)]
pub enum ConfigError {
    /// A kernel needs at least one tap.
    EmptyKernel,
    /// The kernel has more than `MAX_KERNEL_LEN` taps.
    KernelTooLong,
}

/// Handles all audio processing for the plugin.
pub struct PluginDsp {
    cutoff: i64,
    messages_from_params: Receiver<StateUpdate>,
    kernel: Vec<i64>,
    histories: Vec<VecDeque<i64>>,
}

impl View for PluginDsp {
    type V = DspView;

    closed spec fn view(&self) -> DspView {
        DspView {
            cutoff: self.cutoff as int,
            kernel: ints(self.kernel@),
            histories: queues_view(self.histories@),
        }
    }
}

/// The cutoff for a knob position.
pub fn knob_to_cutoff(knob: i64) -> (cutoff: i64)
    ensures
        cutoff == knob_cutoff(knob as int),
        0 <= cutoff <= HALF,
{
    if knob >= ONE || knob <= -ONE {
        proof {
            let k = knob as int;
            assert(k * k >= 0x1_0000_0000 * 0x1_0000_0000) by (nonlinear_arith)
                requires
                    k >= 0x1_0000_0000 || k <= -0x1_0000_0000,
            ;
        }
        HALF
    } else {
        proof {
            let k = knob as int;
            assert(0 <= k * k < 0x1_0000_0000 * 0x1_0000_0000) by (nonlinear_arith)
                requires
                    -0x1_0000_0000 < k < 0x1_0000_0000,
            ;
        }
        fx_mul(knob, knob) / 2
    }
}

/// A queue of `len` zeros.
fn zero_queue(len: usize) -> (queue: VecDeque<i64>)
    ensures
        ints(queue@) == zeros(len as nat),
{
    let mut queue: VecDeque<i64> = VecDeque::new();
    let mut i: usize = 0;
    while i < len
        invariant
            i <= len,
            queue@.len() == i,
            forall|j: int| 0 <= j < i ==> queue@[j] == 0,
        decreases len - i,
    {
        queue.push_back(0);
        i += 1;
    }
    assert(ints(queue@) =~= zeros(len as nat));
    queue
}

/// One queue of `len` zeros for each of `channels` channels.
fn zero_queues(len: usize, channels: usize) -> (queues: Vec<VecDeque<i64>>)
    ensures
        queues@.len() == channels,
        forall|c: int| 0 <= c < channels ==> ints(#[trigger] queues@[c]@) == zeros(len as nat),
{
    let mut queues: Vec<VecDeque<i64>> = Vec::new();
    let mut c: usize = 0;
    while c < channels
        invariant
            c <= channels,
            queues@.len() == c,
            forall|j: int| 0 <= j < c ==> ints(#[trigger] queues@[j]@) == zeros(len as nat),
        decreases channels - c,
    {
        queues.push(zero_queue(len));
        c += 1;
    }
    queues
}

/// A kernel of `len` taps, all zero.
fn zero_kernel(len: usize) -> (kernel: Vec<i64>)
    ensures
        kernel@.len() == len,
{
    let mut kernel: Vec<i64> = Vec::new();
    let mut i: usize = 0;
    while i < len
        invariant
            i <= len,
            kernel@.len() == i,
        decreases len - i,
    {
        kernel.push(0);
        i += 1;
    }
    kernel
}

/// Appends zeros to the queue until it has `len` slots.
fn pad_history(history: &mut VecDeque<i64>, len: usize)
    ensures
        ints(final(history)@) == padded(ints(old(history)@), len as nat),
{
    let ghost before = history@;
    while history.len() < len
        invariant
            before.len() <= history@.len(),
            history@.len() <= len || history@ == before,
            forall|j: int| 0 <= j < before.len() ==> history@[j] == before[j],
            forall|j: int| before.len() <= j < history@.len() ==> history@[j] == 0,
        decreases len - history@.len(),
    {
        history.push_back(0);
    }
    assert(ints(history@) =~= padded(ints(before), len as nat));
}

/// Runs the engine over the samples of one channel, in place.
fn run_channel(kernel: &[i64], history: &mut VecDeque<i64>, samples: &mut Vec<i64>)
    requires
        1 <= kernel@.len() <= MAX_KERNEL_LEN,
        taps_bounded(ints(kernel@)),
        history_bounded(ints(old(history)@), kernel@.len() as int),
        samples_bounded(ints(old(samples)@)),
    ensures
        ints(final(history)@) == run_history(
            ints(old(history)@),
            ints(old(samples)@),
            ints(kernel@),
        ),
        ints(final(samples)@) == run_outputs(
            ints(old(history)@),
            ints(old(samples)@),
            ints(kernel@),
        ),
        history_bounded(ints(final(history)@), kernel@.len() as int),
{
    let ghost start = ints(history@);
    let ghost inputs = ints(samples@);
    let ghost taps = ints(kernel@);
    let count: usize = samples.len();
    let mut n: usize = 0;
    assert(inputs.take(0) =~= Seq::<int>::empty());
    while n < count
        invariant
            n <= count,
            count == inputs.len(),
            samples@.len() == count,
            taps == ints(kernel@),
            1 <= taps.len() <= MAX_KERNEL_LEN,
            taps_bounded(taps),
            samples_bounded(inputs),
            ints(history@) == run_history(start, inputs.take(n as int), taps),
            history_bounded(ints(history@), taps.len() as int),
            forall|m: int| 0 <= m < n ==> samples@[m] == run_outputs(start, inputs, taps)[m],
            forall|m: int| n <= m < count ==> samples@[m] == inputs[m],
        decreases count - n,
    {
        proof {
            assert(-SAMPLE_LIMIT <= inputs[n as int] <= SAMPLE_LIMIT);
            lemma_step_bounded(ints(history@), inputs[n as int], taps);
            assert(inputs.take(n as int + 1).drop_last() =~= inputs.take(n as int));
            assert(inputs.take(n as int + 1).last() == inputs[n as int]);
        }
        let output: i64 = convolve(samples[n], kernel, history);
        samples[n] = output;
        n += 1;
    }
    assert(inputs.take(count as int) =~= inputs);
    assert(ints(samples@) =~= run_outputs(start, inputs, taps));
}

impl PluginDsp {
    /// Whether the processor is in a state that `process` can start from.
    pub open spec fn wf(&self) -> bool {
        valid_state(self@)
    }

    /// A processor with the default layout: 127 taps designed for a cutoff of
    /// a quarter of the sample rate, and two channels. It takes its events
    /// from `incoming_messages`.
    pub fn new(incoming_messages: Receiver<StateUpdate>) -> (dsp: Self)
        ensures
            dsp.wf(),
            dsp@ == fresh_state(DEFAULT_KERNEL_LEN as nat, DEFAULT_CHANNELS as nat),
    {
        let mut kernel: Vec<i64> = zero_kernel(DEFAULT_KERNEL_LEN);
        windowed_sinc_filter(DEFAULT_CUTOFF, &mut kernel);
        let histories: Vec<VecDeque<i64>> = zero_queues(DEFAULT_KERNEL_LEN, DEFAULT_CHANNELS);
        let dsp = PluginDsp {
            cutoff: DEFAULT_CUTOFF,
            messages_from_params: incoming_messages,
            kernel,
            histories,
        };
        proof {
            let fresh = fresh_state(DEFAULT_KERNEL_LEN as nat, DEFAULT_CHANNELS as nat);
            assert(dsp@.histories =~= fresh.histories);
            assert(dsp@.kernel == fresh.kernel);
        }
        dsp
    }

    /// A processor with `kernel_len` taps designed for the default cutoff and
    /// `channels` queues of `kernel_len` zeros each, which takes its events
    /// from `incoming_messages`.
    pub fn with_layout(
        incoming_messages: Receiver<StateUpdate>,
        kernel_len: usize,
        channels: usize,
    ) -> (made: Result<Self, ConfigError>)
        ensures
            match made {
                Ok(dsp) => {
                    &&& 1 <= kernel_len <= MAX_KERNEL_LEN
                    &&& dsp.wf()
                    &&& dsp@ == fresh_state(kernel_len as nat, channels as nat)
                },
                Err(ConfigError::EmptyKernel) => kernel_len == 0,
                Err(ConfigError::KernelTooLong) => kernel_len > MAX_KERNEL_LEN,
            },
    {
        if kernel_len == 0 {
            return Err(ConfigError::EmptyKernel);
        }
        if kernel_len > MAX_KERNEL_LEN {
            return Err(ConfigError::KernelTooLong);
        }
        let mut kernel: Vec<i64> = zero_kernel(kernel_len);
        windowed_sinc_filter(DEFAULT_CUTOFF, &mut kernel);
        let histories: Vec<VecDeque<i64>> = zero_queues(kernel_len, channels);
        let dsp = PluginDsp {
            cutoff: DEFAULT_CUTOFF,
            messages_from_params: incoming_messages,
            kernel,
            histories,
        };
        proof {
            assert(dsp@.histories =~= fresh_state(kernel_len as nat, channels as nat).histories);
            assert(dsp@.kernel == fresh_state(kernel_len as nat, channels as nat).kernel);
        }
        Ok(dsp)
    }

    /// The cutoff that the kernel is designed for.
    pub fn cutoff(&self) -> (cutoff: i64)
        ensures
            cutoff == self@.cutoff,
    {
        self.cutoff
    }

    /// The taps of the kernel.
    pub fn kernel(&self) -> (kernel: &Vec<i64>)
        ensures
            ints(kernel@) == self@.kernel,
            kernel@.len() == self@.kernel.len(),
    {
        &self.kernel
    }

    /// The number of channels that the processor keeps a queue for.
    pub fn channels(&self) -> (channels: usize)
        ensures
            channels == self@.histories.len(),
    {
        self.histories.len()
    }

    /// The queue of partial sums of one channel.
    pub fn history(&self, channel: usize) -> (history: &VecDeque<i64>)
        requires
            channel < self@.histories.len(),
        ensures
            ints(history@) == self@.histories[channel as int],
            history@.len() == self@.histories[channel as int].len(),
    {
        &self.histories[channel]
    }

    /// Takes `events` and one block: applies the last knob position among
    /// the events, if there is one, by designing the kernel anew; makes room
    /// in every queue for the block; and replaces the samples of each
    /// channel of `buffer`, in order, by what the engine emits for them.
    pub fn process_block(&mut self, events: &[StateUpdate], buffer: &mut Vec<Vec<i64>>)
        requires
            old(self).wf(),
            valid_block(block_view(old(buffer)@)),
            old(buffer)@.len() <= old(self)@.histories.len(),
            old(self)@.kernel.len() + block_len(block_view(old(buffer)@)) <= usize::MAX,
        ensures
            final(self).wf(),
            same_shape(final(buffer)@, old(buffer)@),
            forall|c: int|
                0 <= c < old(self)@.histories.len() ==> (#[trigger] final(self)@.histories[c]).len()
                    == grown_len(
                    old(self)@.histories[c].len(),
                    old(self)@.kernel.len(),
                    block_len(block_view(old(buffer)@)),
                ),
            processed_as(
                old(self)@,
                events@,
                block_view(old(buffer)@),
                final(self)@,
                block_view(final(buffer)@),
            ),
    {
        let ghost state = self@;
        let ghost block = block_view(buffer@);
        let count: usize = events.len();
        if count > 0 {
            match events[count - 1] {
                StateUpdate::SetKnob(knob) => {
                    self.retune(knob);
                },
            }
        }
        proof {
            lemma_events_first(state, events@, block);
            assert(self@ == retuned_state(state, events@));
        }
        self.filter(buffer);
    }

    /// Makes room in every queue for the block and replaces the samples of
    /// each channel of `buffer`, in order, by what the engine emits for them.
    fn filter(&mut self, buffer: &mut Vec<Vec<i64>>)
        requires
            old(self).wf(),
            valid_block(block_view(old(buffer)@)),
            old(buffer)@.len() <= old(self)@.histories.len(),
            old(self)@.kernel.len() + block_len(block_view(old(buffer)@)) <= usize::MAX,
        ensures
            final(self).wf(),
            same_shape(final(buffer)@, old(buffer)@),
            forall|c: int|
                0 <= c < old(self)@.histories.len() ==> (#[trigger] final(self)@.histories[c]).len()
                    == grown_len(
                    old(self)@.histories[c].len(),
                    old(self)@.kernel.len(),
                    block_len(block_view(old(buffer)@)),
                ),
            processed_as(
                old(self)@,
                Seq::<StateUpdate>::empty(),
                block_view(old(buffer)@),
                final(self)@,
                block_view(final(buffer)@),
            ),
    {
        let ghost state = self@;
        let ghost block = block_view(buffer@);
        let ghost none = Seq::<StateUpdate>::empty();
        let ghost target = processed_state(state, none, block);
        proof {
            lemma_designed_taps_bounded(target.cutoff, state.kernel.len());
        }
        assert(self.cutoff == target.cutoff);
        assert(ints(self.kernel@) == target.kernel);
        let samples: usize = if buffer.len() == 0 {
            0
        } else {
            buffer[0].len()
        };
        assert(samples == block_len(block)) by {
            if buffer@.len() > 0 {
                assert(block[0].len() == buffer@[0]@.len());
            }
        }
        let len: usize = self.kernel.len() + samples;
        let channels: usize = self.histories.len();
        let mut c: usize = 0;
        while c < channels
            invariant
                c <= channels,
                channels == self.histories@.len(),
                channels == state.histories.len(),
                valid_state(state),
                self.cutoff == target.cutoff,
                ints(self.kernel@) == target.kernel,
                target.kernel.len() == state.kernel.len(),
                forall|j: int|
                    0 <= j < c ==> ints(#[trigger] self.histories@[j]@) == padded(
                        state.histories[j],
                        len as nat,
                    ),
                forall|j: int|
                    c <= j < channels ==> ints(#[trigger] self.histories@[j]@)
                        == state.histories[j],
            decreases channels - c,
        {
            pad_history(&mut self.histories[c], len);
            c += 1;
        }
        let rows: usize = buffer.len();
        let mut c: usize = 0;
        while c < rows
            invariant
                c <= rows,
                rows <= channels,
                rows == buffer@.len(),
                rows == block.len(),
                channels == self.histories@.len(),
                channels == state.histories.len(),
                valid_state(state),
                valid_block(block),
                self.cutoff == target.cutoff,
                ints(self.kernel@) == target.kernel,
                target.kernel.len() == state.kernel.len(),
                taps_bounded(target.kernel),
                len == state.kernel.len() + block_len(block),
                forall|j: int|
                    0 <= j < c ==> ints(#[trigger] self.histories@[j]@) == run_history(
                        padded(state.histories[j], len as nat),
                        block[j],
                        target.kernel,
                    ),
                forall|j: int|
                    0 <= j < c ==> ints(#[trigger] buffer@[j]@) == run_outputs(
                        padded(state.histories[j], len as nat),
                        block[j],
                        target.kernel,
                    ),
                forall|j: int|
                    0 <= j < c ==> history_bounded(
                        ints(#[trigger] self.histories@[j]@),
                        state.kernel.len() as int,
                    ),
                forall|j: int|
                    c <= j < channels ==> ints(#[trigger] self.histories@[j]@) == padded(
                        state.histories[j],
                        len as nat,
                    ),
                forall|j: int| c <= j < rows ==> ints(#[trigger] buffer@[j]@) == block[j],
            decreases rows - c,
        {
            proof {
                assert(history_bounded(state.histories[c as int], state.kernel.len() as int));
                lemma_padded_bounded(
                    state.histories[c as int],
                    len as nat,
                    state.kernel.len() as int,
                );
                assert(samples_bounded(block[c as int]));
            }
            run_channel(&self.kernel, &mut self.histories[c], &mut buffer[c]);
            c += 1;
        }
        proof {
            assert forall|j: int| 0 <= j < channels implies history_bounded(
                #[trigger] self@.histories[j],
                state.kernel.len() as int,
            ) by {
                if j >= rows {
                    assert(history_bounded(state.histories[j], state.kernel.len() as int));
                    lemma_padded_bounded(state.histories[j], len as nat, state.kernel.len() as int);
                }
            }
            assert(self@.histories =~= target.histories);
            assert(block_view(buffer@) =~= processed_block(state, none, block));
            assert forall|c: int| 0 <= c < channels implies (#[trigger] self@.histories[c]).len()
                == grown_len(state.histories[c].len(), state.kernel.len(), block_len(block)) by {
                lemma_processed_lengths(state, none, block, c);
            }
        }
    }


    /// Designs the kernel anew for the cutoff of a knob position.
    fn retune(&mut self, knob: i64)
        requires
            old(self).wf(),
        ensures
            final(self).wf(),
            final(self)@.cutoff == knob_cutoff(knob as int),
            final(self)@.kernel == designed_kernel(
                knob_cutoff(knob as int),
                old(self)@.kernel.len(),
            ),
            final(self)@.histories == old(self)@.histories,
    {
        let ghost state = self@;
        self.cutoff = knob_to_cutoff(knob);
        windowed_sinc_filter(self.cutoff, &mut self.kernel);
        assert forall|c: int| 0 <= c < self@.histories.len() implies history_bounded(
            #[trigger] self@.histories[c],
            self@.kernel.len() as int,
        ) by {
            assert(self@.histories[c] == state.histories[c]);
        }
    }

    /// Takes the events that are waiting in the channel, one by one and
    /// without blocking, until none is left, and then one block, as
    /// `process_block` does with those events. Which events are waiting is up
    /// to the sender; whatever they are, the state and the block that this
    /// leaves are those that `process_block` leaves for them.
    pub fn process(&mut self, buffer: &mut Vec<Vec<i64>>)
        requires
            old(self).wf(),
            valid_block(block_view(old(buffer)@)),
            old(buffer)@.len() <= old(self)@.histories.len(),
            old(self)@.kernel.len() + block_len(block_view(old(buffer)@)) <= usize::MAX,
        ensures
            final(self).wf(),
            same_shape(final(buffer)@, old(buffer)@),
            forall|c: int|
                0 <= c < old(self)@.histories.len() ==> (#[trigger] final(self)@.histories[c]).len()
                    == grown_len(
                    old(self)@.histories[c].len(),
                    old(self)@.kernel.len(),
                    block_len(block_view(old(buffer)@)),
                ),
            exists|events: Seq<StateUpdate>|
                processed_as(
                    old(self)@,
                    events,
                    block_view(old(buffer)@),
                    final(self)@,
                    block_view(final(buffer)@),
                ),
    {
        let ghost before = self@;
        let ghost block = block_view(buffer@);
        let ghost mut taken: Seq<StateUpdate> = Seq::empty();
        let mut latest: Option<i64> = None;
        // The count only shows that the loop ends: it is far beyond what any
        // sender can keep up with.
        let mut budget: u64 = u64::MAX;
        while budget > 0
            invariant
                self@ == before,
                match latest {
                    Some(knob) => last_knob(taken) == Some(knob as int),
                    None => last_knob(taken).is_none(),
                },
            decreases budget,
        {
            match self.messages_from_params.try_recv() {
                Ok(StateUpdate::SetKnob(knob)) => {
                    latest = Some(knob);
                    proof {
                        taken = taken.push(StateUpdate::SetKnob(knob));
                    }
                },
                Err(_) => {
                    break;
                },
            }
            budget -= 1;
        }
        if let Some(knob) = latest {
            self.retune(knob);
        }
        proof {
            lemma_events_first(before, taken, block);
            assert(self@ == retuned_state(before, taken));
        }
        self.filter(buffer);
        assert(processed_as(before, taken, block, self@, block_view(buffer@)));
    }
}

} // verus!
