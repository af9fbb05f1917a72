//! A composable byte transcoding pipeline: codec stages chained so that the
//! output of one is the input of the next, with one error policy for all.
//!
//! - `encoding`: errors, the buffered input of a stage, the stage itself
//!   and the error policy, with the laws of the policy.
//! - `codec`: the closed set of codecs a stage can run.
//! - `catalog`: codecs by name, set up from their options.
//! - `chain`: stages stacked so that each reads what the one below hands
//!   out, the lowest fed from outside piece by piece.
//! - `pipeline`: laws over stages: the error policies, and UTF-8 decoding
//!   then encoding as the identity.
//! - `base64`, `utf8`, `utf16`, `utf7`: the bit-level and stateful codecs.
//! - `hex`, `ucode`, `cp437`, `iso8859`, `windows1252`, `shift_jis`: the
//!   table-driven and diagnostic codecs.
//! - `utils`: integers to and from bytes.

pub mod base64;
pub mod catalog;
pub mod chain;
pub mod codec;
pub mod cp437;
pub mod encoding;
pub mod hex;
pub mod iso8859;
pub mod pipeline;
pub mod shift_jis;
pub mod ucode;
pub mod utf16;
pub mod utf7;
pub mod utf8;
pub mod utils;
pub mod windows1252;
