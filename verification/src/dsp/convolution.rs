//! The kernel designer and the convolution engine.
//!
//! The designer fills a kernel with the taps of a low-pass filter: a sinc
//! whose width is set by the cutoff, tapered by a Hamming window.
//!
//! The engine takes one input sample and gives one output sample. It keeps a
//! queue of partial sums. Each input sample adds its contribution to the next
//! `L` outputs at once, where `L` is the number of taps; the front of the
//! queue has then received every contribution it will ever get, and leaves as
//! the output.

use crate::fixed::fx_mul;
use crate::fixed::fx_mul_add;
use crate::fixed::lemma_quot_bounds;
use crate::fixed::lemma_quot_signs;
use crate::fixed::lemma_scaled_product_bound;
use crate::fixed::lemma_scaled_product_unit;
use crate::fixed::magnitude;
use crate::fixed::quot;
use crate::fixed::scaled_product;
use crate::fixed::HALF;
use crate::fixed::ONE;
use crate::trig::cos_turns;
use crate::trig::cosine;
use crate::trig::lemma_sine_odd;
use crate::trig::lemma_sine_range;
use crate::trig::sin_turns;
use crate::trig::sine;
use crate::trig::turn;
use crate::trig::QUARTER_TURN;
use std::collections::VecDeque;
use vstd::prelude::*;

verus! {

/// A sequence of raw values as mathematical integers.
pub open spec fn ints(s: Seq<i64>) -> Seq<int> {
    s.map_values(|v: i64| v as int)
}

/// A run of zeros.
pub open spec fn zeros(len: nat) -> Seq<int> {
    Seq::new(len, |i: int| 0int)
}

/// Every element is zero.
pub open spec fn all_zero(s: Seq<int>) -> bool {
    forall|i: int| 0 <= i < s.len() ==> #[trigger] s[i] == 0
}

/// A unit impulse: 1.0 followed by zeros.
pub open spec fn unit_impulse(s: Seq<int>) -> bool {
    &&& s.len() > 0
    &&& s[0] == ONE
    &&& forall|i: int| 1 <= i < s.len() ==> #[trigger] s[i] == 0
}

/// The raw value of two pi.
pub const TWO_PI: i64 = 26986075409;

/// The raw value of 0.54, the level about which the Hamming window swings.
pub const HAMMING_LEVEL: i64 = 2319282340;

/// The raw value of 0.46, the depth of the Hamming window's swing.
pub const HAMMING_SWING: i64 = 1975684956;

/// No tap is larger than this in magnitude: the raw value of 4.0.
pub const TAP_LIMIT: i64 = 0x4_0000_0000;

/// The cutoff limited to the range from zero to half the sample rate.
pub open spec fn clamped_cutoff(cutoff: int) -> int {
    if cutoff < 0 {
        0
    } else if cutoff > HALF {
        HALF as int
    } else {
        cutoff
    }
}

/// The angle at which the window's cosine is taken for tap `i` of `len`, in
/// units of 2^-32 turns: `i / (len - 1)` of a turn, measured from the nearer
/// end of the kernel so that both halves of the window round alike.
pub open spec fn window_phase(i: int, len: int) -> int
    recommends
        len >= 2,
{
    let nearer = if i <= len - 1 - i {
        i
    } else {
        len - 1 - i
    };
    (nearer * turn()) / (len - 1)
}

/// The Hamming window's weight for tap `i` of `len`.
pub open spec fn hamming(i: int, len: int) -> int {
    HAMMING_LEVEL - scaled_product(HAMMING_SWING as int, cosine(window_phase(i, len)))
}

/// The ideal low-pass response `sin(2 pi c n) / n` at `offset` samples from
/// the centre, for a cutoff of `cutoff` cycles per sample.
pub open spec fn sinc(cutoff: int, offset: int) -> int
    recommends
        offset != 0,
{
    quot(sine(cutoff * offset), offset)
}

/// Tap `i` of a kernel of `len` taps for a cutoff within range.
pub open spec fn tap(cutoff: int, i: int, len: int) -> int {
    let offset = i - len / 2;
    if offset == 0 {
        scaled_product(TWO_PI as int, cutoff)
    } else {
        scaled_product(sinc(cutoff, offset), hamming(i, len))
    }
}

/// The kernel of `len` taps that the designer produces for `cutoff`.
pub open spec fn designed_kernel(cutoff: int, len: nat) -> Seq<int> {
    Seq::new(len, |i: int| tap(clamped_cutoff(cutoff), i, len as int))
}

/// The window's weight lies between 0.08 and 1.0.
pub proof fn lemma_hamming_range(i: int, len: int)
    ensures
        HAMMING_LEVEL - HAMMING_SWING <= hamming(i, len) <= ONE,
{
    let c = cosine(window_phase(i, len));
    lemma_sine_range(window_phase(i, len) + QUARTER_TURN);
    lemma_scaled_product_bound(HAMMING_SWING as int, c, HAMMING_SWING as int, ONE as int);
    assert((HAMMING_SWING * ONE) / (ONE as int) == HAMMING_SWING);
}

/// The window is symmetric about the middle of the kernel.
pub proof fn lemma_hamming_symmetric(i: int, len: int)
    ensures
        hamming(len - 1 - i, len) == hamming(i, len),
{
}

/// The sinc is even in its offset.
pub proof fn lemma_sinc_even(cutoff: int, offset: int)
    requires
        offset != 0,
    ensures
        sinc(cutoff, -offset) == sinc(cutoff, offset),
        magnitude(sinc(cutoff, offset)) <= ONE,
{
    assert(cutoff * (-offset) == -(cutoff * offset)) by (nonlinear_arith);
    lemma_sine_odd(cutoff * offset);
    lemma_quot_signs(sine(cutoff * offset), offset);
    lemma_sine_range(cutoff * offset);
    if offset > 0 {
        lemma_quot_bounds(sine(cutoff * offset), offset);
    } else {
        lemma_quot_bounds(sine(cutoff * offset), -offset);
    }
}

/// Every tap of a designed kernel is at most `TAP_LIMIT` in magnitude.
pub proof fn lemma_tap_range(cutoff: int, i: int, len: int)
    requires
        0 <= cutoff <= HALF,
    ensures
        -TAP_LIMIT <= tap(cutoff, i, len) <= TAP_LIMIT,
{
    let offset = i - len / 2;
    if offset == 0 {
        lemma_scaled_product_bound(TWO_PI as int, cutoff, TWO_PI as int, HALF as int);
        assert((TWO_PI * HALF) / (ONE as int) <= TAP_LIMIT);
    } else {
        lemma_sinc_even(cutoff, offset);
        lemma_hamming_range(i, len);
        lemma_scaled_product_bound(sinc(cutoff, offset), hamming(i, len), ONE as int, ONE as int);
        assert((ONE * ONE) / (ONE as int) == ONE);
    }
}

/// Every tap is at most `TAP_LIMIT` in magnitude.
pub open spec fn taps_bounded(kernel: Seq<int>) -> bool {
    forall|i: int| 0 <= i < kernel.len() ==> -TAP_LIMIT <= #[trigger] kernel[i] <= TAP_LIMIT
}

/// Every designed kernel has bounded taps, whatever the cutoff.
pub proof fn lemma_designed_taps_bounded(cutoff: int, len: nat)
    ensures
        taps_bounded(designed_kernel(cutoff, len)),
{
    let kernel = designed_kernel(cutoff, len);
    assert forall|i: int| 0 <= i < kernel.len() implies -TAP_LIMIT <= #[trigger] kernel[i]
        <= TAP_LIMIT by {
        lemma_tap_range(clamped_cutoff(cutoff), i, len as int);
    }
}

/// A designed kernel of odd length reads the same from both ends.
pub proof fn lemma_kernel_symmetric(cutoff: int, len: nat, i: int)
    requires
        len % 2 == 1,
        0 <= i < len,
    ensures
        designed_kernel(cutoff, len)[i] == designed_kernel(cutoff, len)[len - 1 - i],
{
    let c = clamped_cutoff(cutoff);
    let offset = i - (len as int) / 2;
    assert((len as int) - 1 - i - (len as int) / 2 == -offset);
    if offset != 0 {
        lemma_sinc_even(c, offset);
        lemma_hamming_symmetric(i, len as int);
    }
}

/// The middle tap of a designed kernel is two pi times the cutoff, with no
/// window applied.
pub proof fn lemma_kernel_midpoint(cutoff: int, len: nat)
    requires
        len >= 1,
    ensures
        designed_kernel(cutoff, len)[(len as int) / 2] == scaled_product(
            TWO_PI as int,
            clamped_cutoff(cutoff),
        ),
{
}

/// A cutoff outside the range from zero to one half designs the kernel of the
/// nearer end of that range.
pub proof fn lemma_kernel_clamped(cutoff: int, len: nat)
    ensures
        designed_kernel(cutoff, len) == designed_kernel(clamped_cutoff(cutoff), len),
        cutoff <= 0 ==> designed_kernel(cutoff, len) == designed_kernel(0, len),
        cutoff >= HALF ==> designed_kernel(cutoff, len) == designed_kernel(HALF as int, len),
{
    assert(designed_kernel(cutoff, len) =~= designed_kernel(clamped_cutoff(cutoff), len));
    if cutoff <= 0 {
        assert(designed_kernel(cutoff, len) =~= designed_kernel(0, len));
    }
    if cutoff >= HALF {
        assert(designed_kernel(cutoff, len) =~= designed_kernel(HALF as int, len));
    }
}

/// The Hamming window's weight for tap `i` of `len`.
fn hamming_weight(i: usize, len: usize) -> (w: i64)
    requires
        i < len,
        len >= 2,
    ensures
        w == hamming(i as int, len as int),
        0 <= w <= ONE,
{
    let last: usize = len - 1;
    let nearer: usize = if i <= last - i {
        i
    } else {
        last - i
    };
    assert(0 <= nearer * 0x1_0000_0000 <= last * 0x8000_0000) by (nonlinear_arith)
        requires
            0 <= 2 * nearer <= last,
    ;
    let scaled: u128 = (nearer as u128) * 0x1_0000_0000u128;
    let phase: u128 = scaled / (last as u128);
    assert(phase <= 0x8000_0000) by (nonlinear_arith)
        requires
            phase == scaled / (last as u128),
            0 <= scaled <= last * 0x8000_0000,
            last > 0,
    ;
    let c: i64 = cos_turns(phase as u32);
    proof {
        lemma_hamming_range(i as int, len as int);
        lemma_scaled_product_bound(HAMMING_SWING as int, c as int, HAMMING_SWING as int, ONE as int);
        assert((HAMMING_SWING * ONE) / (ONE as int) == HAMMING_SWING);
    }
    HAMMING_LEVEL - fx_mul(HAMMING_SWING, c)
}

/// Tap `i` of the kernel of `len` taps for `cutoff_freq`, a fraction of the
/// sample rate that is first limited to the range from zero to one half.
pub fn design_tap(cutoff_freq: i64, i: usize, len: usize) -> (t: i64)
    requires
        i < len,
    ensures
        t == designed_kernel(cutoff_freq as int, len as nat)[i as int],
        -TAP_LIMIT <= t <= TAP_LIMIT,
{
    let cutoff: i64 = if cutoff_freq < 0 {
        0
    } else if cutoff_freq > HALF {
        HALF
    } else {
        cutoff_freq
    };
    proof {
        lemma_tap_range(cutoff as int, i as int, len as int);
    }
    let centre: usize = len / 2;
    if i == centre {
        return fx_mul(TWO_PI, cutoff);
    }
    let distance: usize = if i > centre {
        i - centre
    } else {
        centre - i
    };
    assert(0 <= cutoff * distance <= 0x8000_0000 * 0xffff_ffff_ffff_ffff) by (nonlinear_arith)
        requires
            0 <= cutoff <= 0x8000_0000,
            0 <= distance <= 0xffff_ffff_ffff_ffff,
    ;
    let angle: u128 = (cutoff as u128) * (distance as u128);
    let phase: u128 = angle % 0x1_0000_0000u128;
    let s: i64 = sin_turns(phase as u32);
    let ratio: i64 = s / (distance as i64);
    let w: i64 = hamming_weight(i, len);
    proof {
        let offset = i as int - (len as int) / 2;
        assert(sine(phase as int) == sine(cutoff * distance));
        assert(ratio == quot(s as int, distance as int));
        lemma_sinc_even(cutoff as int, distance as int);
        assert(ratio == sinc(cutoff as int, offset));
    }
    fx_mul(ratio, w)
}

/// Overwrites every tap of `filter_kernal` with the low-pass kernel for
/// `cutoff_freq`, a fraction of the sample rate that is first limited to the
/// range from zero to one half.
pub fn windowed_sinc_filter(cutoff_freq: i64, filter_kernal: &mut [i64])
    ensures
        final(filter_kernal)@.len() == old(filter_kernal)@.len(),
        ints(final(filter_kernal)@) == designed_kernel(
            cutoff_freq as int,
            old(filter_kernal)@.len(),
        ),
        taps_bounded(ints(final(filter_kernal)@)),
{
    let len: usize = filter_kernal.len();
    let mut i: usize = 0;
    while i < len
        invariant
            i <= len,
            len == filter_kernal@.len(),
            forall|j: int|
                0 <= j < i ==> #[trigger] filter_kernal@[j] == designed_kernel(
                    cutoff_freq as int,
                    len as nat,
                )[j],
        decreases len - i,
    {
        let t: i64 = design_tap(cutoff_freq, i, len);
        filter_kernal[i] = t;
        i += 1;
    }
    assert(ints(filter_kernal@) =~= designed_kernel(cutoff_freq as int, len as nat));
    proof {
        lemma_designed_taps_bounded(cutoff_freq as int, len as nat);
    }
}

/// The queue after the input's contribution has been added to its first
/// `kernel.len()` slots.
pub open spec fn accumulated(history: Seq<int>, input: int, kernel: Seq<int>) -> Seq<int> {
    Seq::new(
        history.len(),
        |i: int|
            if i < kernel.len() {
                history[i] + scaled_product(input, kernel[i])
            } else {
                history[i]
            },
    )
}

/// The queue that one step of the engine leaves behind: the contributions are
/// added, the front leaves, and a zero enters at the back.
pub open spec fn conv_history(history: Seq<int>, input: int, kernel: Seq<int>) -> Seq<int> {
    accumulated(history, input, kernel).drop_first().push(0)
}

/// The sample that one step of the engine emits: the front of the queue with
/// the input's contribution added.
pub open spec fn conv_output(history: Seq<int>, input: int, kernel: Seq<int>) -> int {
    accumulated(history, input, kernel)[0]
}

/// Every partial sum that the step writes fits in 64 bits.
pub open spec fn accumulation_fits(history: Seq<int>, input: int, kernel: Seq<int>) -> bool {
    forall|i: int|
        0 <= i < kernel.len() && i < history.len() ==> i64::MIN <= history[i] + scaled_product(
            input,
            #[trigger] kernel[i],
        ) <= i64::MAX
}

/// The queue after the engine has taken every sample of `inputs` in turn.
pub open spec fn run_history(history: Seq<int>, inputs: Seq<int>, kernel: Seq<int>) -> Seq<int>
    decreases inputs.len(),
{
    if inputs.len() == 0 {
        history
    } else {
        conv_history(run_history(history, inputs.drop_last(), kernel), inputs.last(), kernel)
    }
}

/// The samples that the engine emits while it takes every sample of `inputs`
/// in turn: output `n` comes from the queue that the first `n` inputs left.
pub open spec fn run_outputs(history: Seq<int>, inputs: Seq<int>, kernel: Seq<int>) -> Seq<int> {
    Seq::new(
        inputs.len(),
        |n: int| conv_output(run_history(history, inputs.take(n), kernel), inputs[n], kernel),
    )
}

/// The engine never changes the length of a queue that has a slot.
pub proof fn lemma_run_history_len(history: Seq<int>, inputs: Seq<int>, kernel: Seq<int>)
    requires
        history.len() > 0,
    ensures
        run_history(history, inputs, kernel).len() == history.len(),
    decreases inputs.len(),
{
    if inputs.len() > 0 {
        lemma_run_history_len(history, inputs.drop_last(), kernel);
    }
}

/// What input `n - i` adds to output `n` through tap `i`; nothing where the
/// input lies before the start of the stream.
pub open spec fn fir_term(inputs: Seq<int>, kernel: Seq<int>, n: int, i: int) -> int {
    if 0 <= n - i < inputs.len() {
        scaled_product(inputs[n - i], kernel[i])
    } else {
        0
    }
}

/// The sum of what taps `from` and later add to output `n`.
pub open spec fn fir_sum(inputs: Seq<int>, kernel: Seq<int>, n: int, from: int) -> int
    decreases kernel.len() - from,
{
    if from < 0 || from >= kernel.len() {
        0
    } else {
        fir_term(inputs, kernel, n, from) + fir_sum(inputs, kernel, n, from + 1)
    }
}

/// Output `n` of the filter as a sum over a window of past inputs:
/// `y[n] = sum of x[n - i] * k[i]` over every tap `i`.
pub open spec fn fir_output(inputs: Seq<int>, kernel: Seq<int>, n: int) -> int {
    fir_sum(inputs, kernel, n, 0)
}

/// The queue that an engine started on zeros holds after `n` inputs: slot `p`
/// has what those inputs add to output `n + p`, which is what taps after `p`
/// add to it.
pub open spec fn pending(inputs: Seq<int>, kernel: Seq<int>, n: int, slots: nat) -> Seq<int> {
    Seq::new(slots, |p: int| fir_sum(inputs, kernel, n + p, p + 1))
}

/// Taps that would need inputs from before the start of the stream add
/// nothing.
pub proof fn lemma_fir_sum_future(inputs: Seq<int>, kernel: Seq<int>, n: int, from: int)
    requires
        from > n,
    ensures
        fir_sum(inputs, kernel, n, from) == 0,
    decreases kernel.len() - from,
{
    if 0 <= from < kernel.len() {
        lemma_fir_sum_future(inputs, kernel, n, from + 1);
    }
}

/// An engine started on zeros holds, after the first `n` inputs, exactly what
/// those inputs add to the outputs still to come.
pub proof fn lemma_run_history_pending(inputs: Seq<int>, kernel: Seq<int>, n: int, slots: nat)
    requires
        slots >= kernel.len(),
        slots > 0,
        0 <= n <= inputs.len(),
    ensures
        run_history(zeros(slots), inputs.take(n), kernel) == pending(inputs, kernel, n, slots),
    decreases n,
{
    if n == 0 {
        let none = pending(inputs, kernel, 0, slots);
        assert forall|p: int| 0 <= p < slots implies #[trigger] none[p] == 0 by {
            lemma_fir_sum_future(inputs, kernel, p, p + 1);
        }
        assert(zeros(slots) =~= none);
    } else {
        lemma_run_history_pending(inputs, kernel, n - 1, slots);
        let prefix = inputs.take(n);
        assert(prefix.drop_last() =~= inputs.take(n - 1));
        assert(prefix.last() == inputs[n - 1]);
        let before = pending(inputs, kernel, n - 1, slots);
        let acc = accumulated(before, inputs[n - 1], kernel);
        assert forall|p: int| 0 <= p < slots implies #[trigger] acc[p] == fir_sum(
            inputs,
            kernel,
            n - 1 + p,
            p,
        ) by {
        }
        let after = conv_history(before, inputs[n - 1], kernel);
        assert forall|p: int| 0 <= p < slots implies #[trigger] after[p] == fir_sum(
            inputs,
            kernel,
            n + p,
            p + 1,
        ) by {
            if p < slots - 1 {
                assert(after[p] == acc[p + 1]);
            }
        }
        assert(after =~= pending(inputs, kernel, n, slots));
    }
}

/// The running-sum engine computes the convolution of its input with the
/// kernel: started on a queue of zeros with a slot for every tap, its output
/// `n` is the sum of `x[n - i] * k[i]` over every tap `i`.
pub proof fn lemma_engine_is_fir(inputs: Seq<int>, kernel: Seq<int>, slots: nat, n: int)
    requires
        slots >= kernel.len(),
        slots > 0,
        0 <= n < inputs.len(),
    ensures
        run_outputs(zeros(slots), inputs, kernel)[n] == fir_output(inputs, kernel, n),
{
    lemma_run_history_pending(inputs, kernel, n, slots);
}

/// Of a unit impulse only the tap at the output's own index is seen.
proof fn lemma_fir_sum_impulse(inputs: Seq<int>, kernel: Seq<int>, n: int, from: int)
    requires
        unit_impulse(inputs),
        0 <= n < inputs.len(),
        0 <= from,
    ensures
        fir_sum(inputs, kernel, n, from) == if from <= n < kernel.len() {
            kernel[n]
        } else {
            0
        },
    decreases kernel.len() - from,
{
    if from < kernel.len() {
        lemma_fir_sum_impulse(inputs, kernel, n, from + 1);
        if from == n {
            lemma_scaled_product_unit(kernel[n]);
        } else if from < n {
            assert(inputs[n - from] == 0);
            lemma_scaled_product_unit(kernel[from]);
        }
    }
}

/// An engine started on zeros answers a unit impulse with the taps of its
/// kernel, in order, and with zeros once the taps are used up.
pub proof fn lemma_impulse_response(inputs: Seq<int>, kernel: Seq<int>, slots: nat, n: int)
    requires
        slots >= kernel.len(),
        slots > 0,
        unit_impulse(inputs),
        0 <= n < inputs.len(),
    ensures
        run_outputs(zeros(slots), inputs, kernel)[n] == if n < kernel.len() {
            kernel[n]
        } else {
            0
        },
{
    lemma_engine_is_fir(inputs, kernel, slots, n);
    lemma_fir_sum_impulse(inputs, kernel, n, 0);
}

/// A sum over taps of a silent input is zero.
proof fn lemma_fir_sum_silent(inputs: Seq<int>, kernel: Seq<int>, n: int, from: int)
    requires
        all_zero(inputs),
    ensures
        fir_sum(inputs, kernel, n, from) == 0,
    decreases kernel.len() - from,
{
    if 0 <= from < kernel.len() {
        lemma_fir_sum_silent(inputs, kernel, n, from + 1);
        if 0 <= n - from < inputs.len() {
            assert(inputs[n - from] == 0);
        }
        lemma_scaled_product_unit(kernel[from]);
    }
}

/// An engine started on zeros and fed zeros emits zeros and is left on zeros.
pub proof fn lemma_silence(inputs: Seq<int>, kernel: Seq<int>, slots: nat)
    requires
        slots >= kernel.len(),
        slots > 0,
        all_zero(inputs),
    ensures
        run_outputs(zeros(slots), inputs, kernel) == zeros(inputs.len()),
        run_history(zeros(slots), inputs, kernel) == zeros(slots),
{
    let outputs = run_outputs(zeros(slots), inputs, kernel);
    assert forall|n: int| 0 <= n < inputs.len() implies #[trigger] outputs[n] == 0 by {
        lemma_engine_is_fir(inputs, kernel, slots, n);
        lemma_fir_sum_silent(inputs, kernel, n, 0);
    }
    assert(outputs =~= zeros(inputs.len()));
    let count = inputs.len() as int;
    lemma_run_history_pending(inputs, kernel, count, slots);
    assert(inputs.take(count) =~= inputs);
    let left = pending(inputs, kernel, count, slots);
    assert forall|p: int| 0 <= p < slots implies #[trigger] left[p] == 0 by {
        lemma_fir_sum_silent(inputs, kernel, count + p, p + 1);
    }
    assert(left =~= zeros(slots));
}

/// No sample handed to the block processor is larger than this in magnitude:
/// the raw value of 65536.0.
pub const SAMPLE_LIMIT: i64 = 0x1_0000_0000_0000;

/// No single contribution to a partial sum is larger than this in magnitude:
/// the product of `SAMPLE_LIMIT` and `TAP_LIMIT`.
pub const TERM_LIMIT: i64 = 0x4_0000_0000_0000;

/// The longest kernel whose partial sums are sure to fit in 64 bits.
pub const MAX_KERNEL_LEN: usize = 8191;

/// Every sample is at most `SAMPLE_LIMIT` in magnitude.
pub open spec fn samples_bounded(samples: Seq<int>) -> bool {
    forall|n: int| 0 <= n < samples.len() ==> -SAMPLE_LIMIT <= #[trigger] samples[n] <= SAMPLE_LIMIT
}

/// The largest magnitude that slot `p` of the queue can reach between two
/// steps: it has received one contribution for each tap behind `p`.
pub open spec fn slot_limit(p: int, taps: int) -> int {
    if p < taps - 1 {
        (taps - 1 - p) * TERM_LIMIT
    } else {
        0
    }
}

/// The queue has a slot for every tap, and no slot is beyond its limit.
pub open spec fn history_bounded(history: Seq<int>, taps: int) -> bool {
    &&& history.len() >= taps
    &&& forall|p: int|
        0 <= p < history.len() ==> -slot_limit(p, taps) <= #[trigger] history[p] <= slot_limit(
            p,
            taps,
        )
}

/// One step on a bounded queue, with a bounded sample and bounded taps,
/// overflows nowhere, leaves a bounded queue, and emits a bounded sample.
pub proof fn lemma_step_bounded(history: Seq<int>, input: int, kernel: Seq<int>)
    requires
        1 <= kernel.len() <= MAX_KERNEL_LEN,
        history_bounded(history, kernel.len() as int),
        taps_bounded(kernel),
        -SAMPLE_LIMIT <= input <= SAMPLE_LIMIT,
    ensures
        accumulation_fits(history, input, kernel),
        history_bounded(conv_history(history, input, kernel), kernel.len() as int),
        -kernel.len() * TERM_LIMIT <= conv_output(history, input, kernel) <= kernel.len()
            * TERM_LIMIT,
{
    let taps = kernel.len() as int;
    assert forall|i: int| 0 <= i < taps implies -TERM_LIMIT <= #[trigger] scaled_product(
        input,
        kernel[i],
    ) <= TERM_LIMIT by {
        lemma_scaled_product_bound(input, kernel[i], SAMPLE_LIMIT as int, TAP_LIMIT as int);
        assert((SAMPLE_LIMIT * TAP_LIMIT) / (ONE as int) == TERM_LIMIT);
    }
    let acc = accumulated(history, input, kernel);
    assert forall|p: int| 0 <= p < acc.len() implies -slot_limit(p - 1, taps) <= #[trigger] acc[p]
        <= slot_limit(p - 1, taps) by {
        assert(-slot_limit(p, taps) <= history[p] <= slot_limit(p, taps));
        if p < taps {
            assert(-TERM_LIMIT <= scaled_product(input, kernel[p]) <= TERM_LIMIT);
        }
    }
    let next = conv_history(history, input, kernel);
    assert forall|p: int| 0 <= p < next.len() implies -slot_limit(p, taps) <= #[trigger] next[p]
        <= slot_limit(p, taps) by {
        if p < next.len() - 1 {
            assert(next[p] == acc[p + 1]);
        }
    }
    assert(acc[0] == conv_output(history, input, kernel));
}

/// Overwrites one slot of the queue through `VecDeque`'s `IndexMut`, which
/// panics when the index is out of bounds and otherwise replaces exactly that
/// element.
#[verifier::external_body]
fn set_slot(queue: &mut VecDeque<i64>, index: usize, value: i64)
    requires
        index < old(queue)@.len(),
    ensures
        final(queue)@ == old(queue)@.update(index as int, value),
{
    queue[index] = value;
}

/// Feeds one sample to the engine and returns the sample that is now complete.
pub fn convolve(
    input_sample: i64,
    impulse_response: &[i64],
    history_buffer: &mut VecDeque<i64>,
) -> (output: i64)
    requires
        old(history_buffer)@.len() > 0,
        old(history_buffer)@.len() >= impulse_response@.len(),
        accumulation_fits(
            ints(old(history_buffer)@),
            input_sample as int,
            ints(impulse_response@),
        ),
    ensures
        final(history_buffer)@.len() == old(history_buffer)@.len(),
        ints(final(history_buffer)@) == conv_history(
            ints(old(history_buffer)@),
            input_sample as int,
            ints(impulse_response@),
        ),
        output == conv_output(
            ints(old(history_buffer)@),
            input_sample as int,
            ints(impulse_response@),
        ),
{
    let ghost before = ints(history_buffer@);
    let ghost kernel = ints(impulse_response@);
    let taps: usize = impulse_response.len();
    let mut i: usize = 0;
    while i < taps
        invariant
            i <= taps,
            taps == impulse_response@.len(),
            kernel == ints(impulse_response@),
            before.len() >= taps,
            before.len() > 0,
            history_buffer@.len() == before.len(),
            accumulation_fits(before, input_sample as int, kernel),
            forall|j: int|
                0 <= j < i ==> history_buffer@[j] == before[j] + scaled_product(
                    input_sample as int,
                    kernel[j],
                ),
            forall|j: int| i <= j < before.len() ==> history_buffer@[j] == before[j],
        decreases taps - i,
    {
        assert(kernel[i as int] == impulse_response@[i as int]);
        let sum: i64 = fx_mul_add(history_buffer[i], input_sample, impulse_response[i]);
        set_slot(history_buffer, i, sum);
        i += 1;
    }
    assert(ints(history_buffer@) =~= accumulated(before, input_sample as int, kernel));
    match history_buffer.pop_front() {
        Some(output) => {
            history_buffer.push_back(0);
            assert(ints(history_buffer@) =~= conv_history(before, input_sample as int, kernel));
            output
        },
        // The queue has a slot, so this arm is never taken.
        None => input_sample,
    }
}

} // verus!
