//! A streaming low-pass filter on fixed-point samples: a windowed-sinc kernel
//! designer, a running-sum FIR convolution engine, and the block processor
//! that owns the kernel and one queue of partial sums per channel.
//!
//! Every quantity is a signed 64-bit integer that counts units of 2^-32, so
//! that each contract can say exactly, over the integers, what is computed.
//! Samples may be as large as 65536.0 in magnitude and a kernel may have up to
//! 8191 taps; within those limits no partial sum can overflow.
//!
//! - `fixed`: products of fixed-point values.
//! - `trig`: sine and cosine of angles measured in turns.
//! - `dsp::convolution`: the kernel designer and the convolution engine.
//! - `dsp`: the block processor.
//! - `dsp::model`: what the block processor does, over sequences of integers.

pub mod fixed;
pub mod trig;
pub mod dsp;
