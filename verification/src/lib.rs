//! Repackaging of the ATRAC9 samples of an FSB5 sound bank.
//!
//! An FSB5 bank holds a table of sample descriptors, an optional table of
//! names and one region of raw sample data. For a bank of ATRAC9 samples this
//! crate decodes the descriptors, reads the codec configuration words that
//! each sample carries, and deals the sample's data out, block by block, to as
//! many streams as there are words, each with a RIFF header in front.
//!
//! Every function works on bytes in memory and is verified against a
//! mathematical model of the formats; reading and writing files is left to
//! the caller. The one thing taken on trust is the text that `binrw` shows a
//! sample's name as.
//!
//! - [`fsb`] reads the header and the tables of a bank.
//! - [`at9_config`] decodes a configuration word.
//! - [`at9_header`] builds and writes the header of a stream.
//! - [`blocks`] deals blocks out to streams in turn.
//! - [`demux`] puts these together: [`demux::extract`] turns a bank into its
//!   streams.
//! - [`wire`] and [`text`] hold the integers and the names of both formats.

pub mod error;
pub mod at9_config;
pub mod wire;
pub mod text;
pub mod at9_header;
pub mod fsb;
pub mod blocks;
pub mod demux;
