//! A line-delimited JSON command server for a bare-metal instrument: a fixed-capacity
//! line accumulator (`framer`), the reply codec with its quote convention (`codec`), and
//! the attribute router (`router`); with a few integer signal-processing helpers (`dsp`).

pub mod codec;
pub mod dsp;
pub mod framer;
pub mod router;
