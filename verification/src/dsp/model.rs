//! What the block processor does, stated over sequences of integers: the
//! state that a call leaves, the block that it gives back, and what follows
//! for runs of calls.

use crate::dsp::convolution::all_zero;
use crate::dsp::convolution::clamped_cutoff;
use crate::dsp::convolution::designed_kernel;
use crate::dsp::convolution::history_bounded;
use crate::dsp::convolution::ints;
use crate::dsp::convolution::lemma_run_history_len;
use crate::dsp::convolution::lemma_silence;
use crate::dsp::convolution::run_history;
use crate::dsp::convolution::run_outputs;
use crate::dsp::convolution::samples_bounded;
use crate::dsp::convolution::slot_limit;
use crate::dsp::convolution::zeros;
use crate::dsp::convolution::MAX_KERNEL_LEN;
use crate::dsp::StateUpdate;
use crate::dsp::DEFAULT_CUTOFF;
use crate::fixed::scaled_product;
use crate::fixed::HALF;
use std::collections::VecDeque;
use vstd::prelude::*;

verus! {

/// The cutoff that a knob position stands for: half its square, which gives
/// the lower cutoffs more of the knob's travel, limited to the range from
/// zero to one half.
pub open spec fn knob_cutoff(knob: int) -> int {
    clamped_cutoff(scaled_product(knob, knob) / 2)
}

/// The position of the knob after `events`, if any of them moved it.
pub open spec fn last_knob(events: Seq<StateUpdate>) -> Option<int> {
    if events.len() == 0 {
        None
    } else {
        match events.last() {
            StateUpdate::SetKnob(knob) => Some(knob as int),
        }
    }
}

/// The cutoff after `events`: that of the last knob position among them, or
/// the one before if there is none.
pub open spec fn retuned_cutoff(cutoff: int, events: Seq<StateUpdate>) -> int {
    match last_knob(events) {
        Some(knob) => knob_cutoff(knob),
        None => cutoff,
    }
}

/// The queue with zeros appended until it has `len` slots; a queue that is
/// already that long is left as it is.
pub open spec fn padded(history: Seq<int>, len: nat) -> Seq<int> {
    if history.len() >= len {
        history
    } else {
        history + zeros((len - history.len()) as nat)
    }
}

/// What a processor holds.
pub struct DspView {
    /// The cutoff that the kernel was designed for.
    pub cutoff: int,
    /// The taps of the kernel.
    pub kernel: Seq<int>,
    /// The queue of partial sums of each channel.
    pub histories: Seq<Seq<int>>,
}

/// The state that a processor is in at every call: the kernel is the one
/// designed for the cutoff, and every queue has a slot for each tap and holds
/// no partial sum that could overflow.
pub open spec fn valid_state(state: DspView) -> bool {
    &&& 0 <= state.cutoff <= HALF
    &&& 1 <= state.kernel.len() <= MAX_KERNEL_LEN
    &&& state.kernel == designed_kernel(state.cutoff, state.kernel.len())
    &&& forall|c: int|
        0 <= c < state.histories.len() ==> history_bounded(
            #[trigger] state.histories[c],
            state.kernel.len() as int,
        )
}

/// The state of a processor that has not seen a block yet.
pub open spec fn fresh_state(kernel_len: nat, channels: nat) -> DspView {
    DspView {
        cutoff: DEFAULT_CUTOFF as int,
        kernel: designed_kernel(DEFAULT_CUTOFF as int, kernel_len),
        histories: Seq::new(channels, |c: int| zeros(kernel_len)),
    }
}

/// The queues of all channels as sequences of integers.
pub open spec fn queues_view(queues: Seq<VecDeque<i64>>) -> Seq<Seq<int>> {
    Seq::new(queues.len(), |c: int| ints(queues[c]@))
}

/// The samples of all channels of a block as sequences of integers.
pub open spec fn block_view(block: Seq<Vec<i64>>) -> Seq<Seq<int>> {
    Seq::new(block.len(), |c: int| ints(block[c]@))
}

/// The number of samples that each channel of the block holds; none if the
/// block has no channel.
pub open spec fn block_len(block: Seq<Seq<int>>) -> nat {
    if block.len() == 0 {
        0
    } else {
        block[0].len()
    }
}

/// Every channel of the block holds the same number of samples, and every
/// sample is at most `SAMPLE_LIMIT` in magnitude.
pub open spec fn valid_block(block: Seq<Seq<int>>) -> bool {
    forall|c: int|
        0 <= c < block.len() ==> (#[trigger] block[c]).len() == block_len(block) && samples_bounded(
            block[c],
        )
}

/// The length of a queue after a block: what it was, or the length of the
/// kernel and the block together if that is more.
pub open spec fn grown_len(history_len: nat, kernel_len: nat, samples: nat) -> nat {
    if history_len >= kernel_len + samples {
        history_len
    } else {
        kernel_len + samples
    }
}

/// The block has the shape of `before`: as many channels, and as many samples
/// in each.
pub open spec fn same_shape(block: Seq<Vec<i64>>, before: Seq<Vec<i64>>) -> bool {
    &&& block.len() == before.len()
    &&& forall|c: int| 0 <= c < block.len() ==> (#[trigger] block[c])@.len() == before[c]@.len()
}

/// The state that `process` leaves: the cutoff follows the last knob event
/// and the kernel is designed anew for it; every queue is padded to the
/// length of the kernel and the block together; and the queue of each channel
/// that the block has is what the engine leaves after that channel's samples.
pub open spec fn processed_state(
    state: DspView,
    events: Seq<StateUpdate>,
    block: Seq<Seq<int>>,
) -> DspView {
    let cutoff = retuned_cutoff(state.cutoff, events);
    let kernel = designed_kernel(cutoff, state.kernel.len());
    let len = state.kernel.len() + block_len(block);
    DspView {
        cutoff,
        kernel,
        histories: Seq::new(
            state.histories.len(),
            |c: int|
                if c < block.len() {
                    run_history(padded(state.histories[c], len), block[c], kernel)
                } else {
                    padded(state.histories[c], len)
                },
        ),
    }
}

/// The block that `process` leaves: each channel holds what the engine emits
/// for that channel's samples, from the channel's padded queue and with the
/// kernel of the new cutoff.
pub open spec fn processed_block(
    state: DspView,
    events: Seq<StateUpdate>,
    block: Seq<Seq<int>>,
) -> Seq<Seq<int>> {
    let next = processed_state(state, events, block);
    let len = state.kernel.len() + block_len(block);
    Seq::new(
        block.len(),
        |c: int| run_outputs(padded(state.histories[c], len), block[c], next.kernel),
    )
}

/// The state once the events have been applied and before any sample is
/// taken: the cutoff follows the last knob event, the kernel is designed anew
/// for it, and the queues are as they were.
pub open spec fn retuned_state(state: DspView, events: Seq<StateUpdate>) -> DspView {
    let cutoff = retuned_cutoff(state.cutoff, events);
    DspView {
        cutoff,
        kernel: designed_kernel(cutoff, state.kernel.len()),
        histories: state.histories,
    }
}

/// `after` and `output` are the state and the block that a call leaves which
/// starts in `before` and is given `events` and `block`.
pub open spec fn processed_as(
    before: DspView,
    events: Seq<StateUpdate>,
    block: Seq<Seq<int>>,
    after: DspView,
    output: Seq<Seq<int>>,
) -> bool {
    &&& after == processed_state(before, events, block)
    &&& output == processed_block(before, events, block)
}

/// No queue of the processor holds a partial sum other than zero.
pub open spec fn at_rest(state: DspView) -> bool {
    forall|c: int| 0 <= c < state.histories.len() ==> all_zero(#[trigger] state.histories[c])
}

/// Every sample of the block is zero.
pub open spec fn silent(block: Seq<Seq<int>>) -> bool {
    forall|c: int| 0 <= c < block.len() ==> all_zero(#[trigger] block[c])
}

/// What one call of `process` is given.
pub struct BlockCall {
    /// The events that were waiting.
    pub events: Seq<StateUpdate>,
    /// The samples of each channel.
    pub block: Seq<Seq<int>>,
}

/// The state after a run of calls of `process`, one after the other.
pub open spec fn state_after(state: DspView, calls: Seq<BlockCall>) -> DspView
    decreases calls.len(),
{
    if calls.len() == 0 {
        state
    } else {
        processed_state(
            state_after(state, calls.drop_last()),
            calls.last().events,
            calls.last().block,
        )
    }
}

/// The largest number of samples per channel among the blocks of `calls`.
pub open spec fn largest_block(calls: Seq<BlockCall>) -> nat
    decreases calls.len(),
{
    if calls.len() == 0 {
        0
    } else {
        let earlier = largest_block(calls.drop_last());
        let latest = block_len(calls.last().block);
        if latest > earlier {
            latest
        } else {
            earlier
        }
    }
}

/// One call of `process` keeps the number of taps and of channels, and leaves
/// each queue as long as it was or as long as the kernel and the block
/// together, whichever is more.
pub proof fn lemma_processed_lengths(
    state: DspView,
    events: Seq<StateUpdate>,
    block: Seq<Seq<int>>,
    c: int,
)
    requires
        state.kernel.len() >= 1,
        0 <= c < state.histories.len(),
    ensures
        processed_state(state, events, block).kernel.len() == state.kernel.len(),
        processed_state(state, events, block).histories.len() == state.histories.len(),
        processed_state(state, events, block).histories[c].len() == grown_len(
            state.histories[c].len(),
            state.kernel.len(),
            block_len(block),
        ),
{
    let next = processed_state(state, events, block);
    let len = state.kernel.len() + block_len(block);
    let wide = padded(state.histories[c], len);
    if c < block.len() {
        lemma_run_history_len(wide, block[c], next.kernel);
    }
}

/// After any run of calls of `process`, whatever their block sizes, a queue
/// that started with one slot per tap has as many slots as the kernel has
/// taps and the largest block has samples, together; a queue that started
/// longer has that many or its first length, whichever is more.
pub proof fn lemma_history_len_after(state: DspView, calls: Seq<BlockCall>, c: int)
    requires
        state.kernel.len() >= 1,
        0 <= c < state.histories.len(),
        state.histories[c].len() >= state.kernel.len(),
    ensures
        state_after(state, calls).kernel.len() == state.kernel.len(),
        state_after(state, calls).histories.len() == state.histories.len(),
        state_after(state, calls).histories[c].len() == grown_len(
            state.histories[c].len(),
            state.kernel.len(),
            largest_block(calls),
        ),
    decreases calls.len(),
{
    if calls.len() > 0 {
        lemma_history_len_after(state, calls.drop_last(), c);
        lemma_processed_lengths(
            state_after(state, calls.drop_last()),
            calls.last().events,
            calls.last().block,
            c,
        );
    }
}

/// No call of `process` ever shortens a queue.
pub proof fn lemma_history_never_shrinks(
    state: DspView,
    calls: Seq<BlockCall>,
    call: BlockCall,
    c: int,
)
    requires
        state.kernel.len() >= 1,
        0 <= c < state.histories.len(),
        state.histories[c].len() >= state.kernel.len(),
    ensures
        state_after(state, calls.push(call)).histories[c].len() >= state_after(
            state,
            calls,
        ).histories[c].len(),
{
    assert(calls.push(call).drop_last() =~= calls);
    lemma_history_len_after(state, calls, c);
    lemma_history_len_after(state, calls.push(call), c);
}

/// To take a block with events is to apply the events and then to take the
/// block without any.
pub proof fn lemma_events_first(state: DspView, events: Seq<StateUpdate>, block: Seq<Seq<int>>)
    ensures
        processed_state(retuned_state(state, events), Seq::<StateUpdate>::empty(), block)
            == processed_state(state, events, block),
        processed_block(retuned_state(state, events), Seq::<StateUpdate>::empty(), block)
            == processed_block(state, events, block),
        valid_state(state) ==> retuned_state(state, Seq::<StateUpdate>::empty()) == state,
{
    let none = Seq::<StateUpdate>::empty();
    let tuned = retuned_state(state, events);
    assert(processed_state(tuned, none, block).histories =~= processed_state(
        state,
        events,
        block,
    ).histories);
    assert(processed_block(tuned, none, block) =~= processed_block(state, events, block));
}

/// A call whose last event sets the knob leaves the kernel that the designer
/// makes for the cutoff of that knob position, whatever the events before it.
pub proof fn lemma_knob_retunes(
    state: DspView,
    events: Seq<StateUpdate>,
    block: Seq<Seq<int>>,
    knob: i64,
)
    requires
        events.len() > 0,
        events.last() == StateUpdate::SetKnob(knob),
    ensures
        processed_state(state, events, block).cutoff == knob_cutoff(knob as int),
        processed_state(state, events, block).kernel == designed_kernel(
            knob_cutoff(knob as int),
            state.kernel.len(),
        ),
{
}

/// A call without events and without samples changes nothing.
pub proof fn lemma_empty_call(state: DspView, block: Seq<Seq<int>>)
    requires
        valid_state(state),
        valid_block(block),
        block_len(block) == 0,
    ensures
        processed_state(state, Seq::<StateUpdate>::empty(), block) == state,
        processed_block(state, Seq::<StateUpdate>::empty(), block) == block,
{
    let events = Seq::<StateUpdate>::empty();
    let next = processed_state(state, events, block);
    assert forall|c: int| 0 <= c < state.histories.len() implies #[trigger] next.histories[c]
        == state.histories[c] by {
        assert(history_bounded(state.histories[c], state.kernel.len() as int));
    }
    assert(next.histories =~= state.histories);
    let output = processed_block(state, events, block);
    assert forall|c: int| 0 <= c < block.len() implies #[trigger] output[c] == block[c] by {
        assert(block[c].len() == 0);
        assert(output[c] =~= block[c]);
    }
    assert(output =~= block);
}

/// A new processor is at rest.
pub proof fn lemma_fresh_at_rest(kernel_len: nat, channels: nat)
    ensures
        at_rest(fresh_state(kernel_len, channels)),
{
}

/// A processor at rest answers a silent block with a silent block and stays
/// at rest, whatever the events.
pub proof fn lemma_silent_block(state: DspView, events: Seq<StateUpdate>, block: Seq<Seq<int>>)
    requires
        state.kernel.len() >= 1,
        at_rest(state),
        silent(block),
        block.len() <= state.histories.len(),
    ensures
        at_rest(processed_state(state, events, block)),
        silent(processed_block(state, events, block)),
{
    let next = processed_state(state, events, block);
    let output = processed_block(state, events, block);
    let len = state.kernel.len() + block_len(block);
    assert forall|c: int| 0 <= c < state.histories.len() implies all_zero(
        #[trigger] next.histories[c],
    ) && (c < block.len() ==> all_zero(output[c])) by {
        let wide = padded(state.histories[c], len);
        assert(all_zero(state.histories[c]));
        assert forall|p: int| 0 <= p < wide.len() implies #[trigger] wide[p] == 0 by {
            if p < state.histories[c].len() {
                assert(wide[p] == state.histories[c][p]);
            }
        }
        assert(wide =~= zeros(wide.len()));
        if c < block.len() {
            assert(all_zero(block[c]));
            lemma_silence(block[c], next.kernel, wide.len());
        }
    }
    assert forall|c: int| 0 <= c < output.len() implies all_zero(#[trigger] output[c]) by {
        assert(all_zero(next.histories[c]));
    }
}

/// A processor at rest that is given only silent blocks is at rest after any
/// number of calls, whatever the events.
pub proof fn lemma_rest_after(state: DspView, calls: Seq<BlockCall>)
    requires
        state.kernel.len() >= 1,
        at_rest(state),
        forall|k: int|
            0 <= k < calls.len() ==> silent((#[trigger] calls[k]).block) && calls[k].block.len()
                <= state.histories.len(),
    ensures
        at_rest(state_after(state, calls)),
        state_after(state, calls).kernel.len() == state.kernel.len(),
        state_after(state, calls).histories.len() == state.histories.len(),
    decreases calls.len(),
{
    if calls.len() > 0 {
        let earlier = calls.drop_last();
        assert forall|k: int| 0 <= k < earlier.len() implies silent((#[trigger] earlier[k]).block)
            && earlier[k].block.len() <= state.histories.len() by {
            assert(earlier[k] == calls[k]);
        }
        lemma_rest_after(state, earlier);
        let last = calls[calls.len() - 1];
        lemma_silent_block(state_after(state, earlier), last.events, last.block);
    }
}

/// A processor at rest that is given only silent blocks answers every one of
/// them with a silent block.
pub proof fn lemma_silent_calls(state: DspView, calls: Seq<BlockCall>, i: int)
    requires
        state.kernel.len() >= 1,
        at_rest(state),
        forall|k: int|
            0 <= k < calls.len() ==> silent((#[trigger] calls[k]).block) && calls[k].block.len()
                <= state.histories.len(),
        0 <= i < calls.len(),
    ensures
        silent(
            processed_block(state_after(state, calls.take(i)), calls[i].events, calls[i].block),
        ),
{
    let earlier = calls.take(i);
    assert forall|k: int| 0 <= k < earlier.len() implies silent((#[trigger] earlier[k]).block)
        && earlier[k].block.len() <= state.histories.len() by {
        assert(earlier[k] == calls[k]);
    }
    lemma_rest_after(state, earlier);
    lemma_silent_block(state_after(state, earlier), calls[i].events, calls[i].block);
}

/// Padding a bounded queue leaves it bounded.
pub proof fn lemma_padded_bounded(history: Seq<int>, len: nat, taps: int)
    requires
        history_bounded(history, taps),
    ensures
        history_bounded(padded(history, len), taps),
        padded(history, len).len() == if history.len() >= len {
            history.len()
        } else {
            len
        },
{
    let wide = padded(history, len);
    assert forall|p: int| 0 <= p < wide.len() implies -slot_limit(p, taps)
        <= #[trigger] wide[p] <= slot_limit(p, taps) by {
        if p < history.len() {
            assert(wide[p] == history[p]);
        }
    }
}

} // verus!
