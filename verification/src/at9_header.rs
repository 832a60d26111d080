//! The RIFF header that stands in front of an ATRAC9 stream.
//!
//! The header is exactly 100 bytes, every number little-endian:
//!
//! | offset | bytes | content                              |
//! |--------|-------|--------------------------------------|
//! | 0      | 4     | `RIFF`                               |
//! | 4      | 4     | size of all that follows this field  |
//! | 8      | 4     | `WAVE`                               |
//! | 12     | 4     | `fmt `                               |
//! | 16     | 4     | size of the format chunk: 52         |
//! | 20     | 2     | format tag: extensible, `0xFFFE`     |
//! | 22     | 2     | channels                             |
//! | 24     | 4     | samples per second                   |
//! | 28     | 4     | bytes per second                     |
//! | 32     | 2     | block alignment: bytes per superframe |
//! | 34     | 2     | bits per sample: 0                   |
//! | 36     | 2     | size of the extension: 34            |
//! | 38     | 2     | samples per superframe               |
//! | 40     | 4     | channel mask                         |
//! | 44     | 16    | subformat identifier of ATRAC9       |
//! | 60     | 4     | version: 1                           |
//! | 64     | 4     | the configuration word               |
//! | 68     | 4     | zero                                 |
//! | 72     | 4     | `fact`                               |
//! | 76     | 4     | size of the fact chunk: 12           |
//! | 80     | 4     | samples in the stream                |
//! | 84     | 4     | input and overlap delay: 256 samples |
//! | 88     | 4     | encoder delay: 256 samples           |
//! | 92     | 4     | `data`                               |
//! | 96     | 4     | size of the stream in bytes          |

use vstd::prelude::*;
use crate::at9_config::At9Config;
use crate::wire::{push_bytes, push_u16_le, push_u32_le, u16_le, u32_le};

verus! {

/// Size of the whole header in bytes.
pub const HEADER_SIZE: u32 = 100;

/// What the outer chunk counts of the header itself: all but its first
/// eight bytes.
pub const HEADER_REMAINDER: u32 = 0x5C;

/// The subformat identifier that marks a wave stream as ATRAC9.
pub const SUBFORMAT_GUID: [u8; 16] = [
    0xD2, 0x42, 0xE1, 0x47, 0xBA, 0x36, 0x8D, 0x4D,
    0x88, 0xFC, 0x61, 0x65, 0x4F, 0x8C, 0x83, 0x6C,
];

/// The tag `RIFF`.
pub open spec fn riff_magic() -> Seq<u8> {
    seq![0x52u8, 0x49u8, 0x46u8, 0x46u8]
}

/// The tag `WAVE`.
pub open spec fn wave_magic() -> Seq<u8> {
    seq![0x57u8, 0x41u8, 0x56u8, 0x45u8]
}

/// The tag `fmt `.
pub open spec fn fmt_magic() -> Seq<u8> {
    seq![0x66u8, 0x6Du8, 0x74u8, 0x20u8]
}

/// The tag `fact`.
pub open spec fn fact_magic() -> Seq<u8> {
    seq![0x66u8, 0x61u8, 0x63u8, 0x74u8]
}

/// The tag `data`.
pub open spec fn data_magic() -> Seq<u8> {
    seq![0x64u8, 0x61u8, 0x74u8, 0x61u8]
}

/// The chunk that announces the stream itself.
#[derive(Debug, Clone, Copy, PartialEq, Eq, Structural)]
pub struct DataChunk {
    /// Size of the stream in bytes.
    pub len: u32,
}

/// The chunk that counts the samples.
#[derive(Debug, Clone, Copy, PartialEq, Eq, Structural)]
pub struct FactChunk {
    /// Size of the rest of this chunk.
    pub len: u32,
    /// Samples in the stream.
    pub num_samples: u32,
    /// Samples of delay from input and overlap.
    pub input_and_overlap_delay_samples: u32,
    /// Samples of delay from the encoder.
    pub encoder_delay_samples: u32,
}

/// The chunk that describes the format of the stream.
#[derive(Debug, Clone, Copy, PartialEq, Eq)]
pub struct FmtChunk {
    /// Size of the rest of this chunk.
    pub len: u32,
    /// The wave format tag.
    pub format_tag: u16,
    /// Number of channels.
    pub channel_count: u16,
    /// Samples per second.
    pub sampling_rate: u32,
    /// Bytes of stream per second of sound.
    pub bytes_per_second: u32,
    /// Bytes in one superframe.
    pub block_align: u16,
    /// Unused for a compressed stream.
    pub bits_per_sample: u16,
    /// Size of the fields from here to the end of the chunk.
    pub extension_size: u16,
    /// Samples in one superframe.
    pub samples_per_block: u16,
    /// Speaker positions.
    pub channel_mask: u32,
    /// Identifier of the codec.
    pub subformat_guid: [u8; 16],
    /// Version of the format.
    pub version: u32,
    /// The configuration word, as it was found.
    pub at9_config: [u8; 4],
}

/// The whole header.
#[derive(Debug, Clone, Copy, PartialEq, Eq)]
pub struct Atrac9Header {
    /// Size of all that follows this field, the stream included.
    pub size_remaining: u32,
    /// The form type of the file.
    pub wave: [u8; 4],
    /// The format chunk.
    pub fmt: FmtChunk,
    /// The fact chunk.
    pub fact: FactChunk,
    /// The head of the data chunk.
    pub data: DataChunk,
}

impl DataChunk {
    /// The eight bytes of the chunk's head.
    pub open spec fn spec_bytes(self) -> Seq<u8> {
        data_magic() + u32_le(self.len)
    }

    /// Appends the chunk's head to `out`.
    pub fn write(&self, out: &mut Vec<u8>)
        ensures
            final(out)@ == old(out)@ + self.spec_bytes(),
    {
        out.push(0x64);
        out.push(0x61);
        out.push(0x74);
        out.push(0x61);
        push_u32_le(out, self.len);
    }
}

impl FactChunk {
    /// The twenty bytes of the chunk.
    pub open spec fn spec_bytes(self) -> Seq<u8> {
        fact_magic() + u32_le(self.len) + u32_le(self.num_samples) + u32_le(
            self.input_and_overlap_delay_samples,
        ) + u32_le(self.encoder_delay_samples)
    }

    /// Appends the chunk to `out`.
    pub fn write(&self, out: &mut Vec<u8>)
        ensures
            final(out)@ == old(out)@ + self.spec_bytes(),
    {
        out.push(0x66);
        out.push(0x61);
        out.push(0x63);
        out.push(0x74);
        push_u32_le(out, self.len);
        push_u32_le(out, self.num_samples);
        push_u32_le(out, self.input_and_overlap_delay_samples);
        push_u32_le(out, self.encoder_delay_samples);
    }
}

impl FmtChunk {
    /// The sixty bytes of the chunk.
    pub open spec fn spec_bytes(self) -> Seq<u8> {
        fmt_magic() + u32_le(self.len) + u16_le(self.format_tag) + u16_le(self.channel_count)
            + u32_le(self.sampling_rate) + u32_le(self.bytes_per_second) + u16_le(self.block_align)
            + u16_le(self.bits_per_sample) + u16_le(self.extension_size) + u16_le(
            self.samples_per_block,
        ) + u32_le(self.channel_mask) + self.subformat_guid@ + u32_le(self.version)
            + self.at9_config@ + seq![0u8, 0u8, 0u8, 0u8]
    }

    /// Every field of the chunk lies at its fixed place.
    pub proof fn lemma_layout(self)
        ensures
            self.spec_bytes().len() == 60,
            self.spec_bytes().subrange(0, 4) == fmt_magic(),
            self.spec_bytes().subrange(4, 8) == u32_le(self.len),
            self.spec_bytes().subrange(8, 10) == u16_le(self.format_tag),
            self.spec_bytes().subrange(10, 12) == u16_le(self.channel_count),
            self.spec_bytes().subrange(12, 16) == u32_le(self.sampling_rate),
            self.spec_bytes().subrange(16, 20) == u32_le(self.bytes_per_second),
            self.spec_bytes().subrange(20, 22) == u16_le(self.block_align),
            self.spec_bytes().subrange(22, 24) == u16_le(self.bits_per_sample),
            self.spec_bytes().subrange(24, 26) == u16_le(self.extension_size),
            self.spec_bytes().subrange(26, 28) == u16_le(self.samples_per_block),
            self.spec_bytes().subrange(28, 32) == u32_le(self.channel_mask),
            self.spec_bytes().subrange(32, 48) == self.subformat_guid@,
            self.spec_bytes().subrange(48, 52) == u32_le(self.version),
            self.spec_bytes().subrange(52, 56) == self.at9_config@,
            self.spec_bytes().subrange(56, 60) == seq![0u8, 0u8, 0u8, 0u8],
    {
    }

    /// Appends the chunk to `out`.
    pub fn write(&self, out: &mut Vec<u8>)
        ensures
            final(out)@ == old(out)@ + self.spec_bytes(),
    {
        out.push(0x66);
        out.push(0x6D);
        out.push(0x74);
        out.push(0x20);
        push_u32_le(out, self.len);
        push_u16_le(out, self.format_tag);
        push_u16_le(out, self.channel_count);
        push_u32_le(out, self.sampling_rate);
        push_u32_le(out, self.bytes_per_second);
        push_u16_le(out, self.block_align);
        push_u16_le(out, self.bits_per_sample);
        push_u16_le(out, self.extension_size);
        push_u16_le(out, self.samples_per_block);
        push_u32_le(out, self.channel_mask);
        push_bytes(out, self.subformat_guid.as_slice());
        push_u32_le(out, self.version);
        push_bytes(out, self.at9_config.as_slice());
        out.push(0);
        out.push(0);
        out.push(0);
        out.push(0);
    }
}

impl Atrac9Header {
    /// The hundred bytes of the header.
    pub open spec fn spec_bytes(self) -> Seq<u8> {
        riff_magic() + u32_le(self.size_remaining) + self.wave@ + self.fmt.spec_bytes()
            + self.fact.spec_bytes() + self.data.spec_bytes()
    }

    /// The header of a stream of `size` bytes and `num_samples` samples
    /// whose configuration word `at9_config` decodes to `config`.
    pub open spec fn spec_new(
        config: At9Config,
        num_samples: u32,
        size: u32,
        at9_config: [u8; 4],
    ) -> Atrac9Header {
        Atrac9Header {
            size_remaining: (size + HEADER_REMAINDER) as u32,
            wave: [0x57u8, 0x41u8, 0x56u8, 0x45u8],
            fmt: FmtChunk {
                len: 52,
                format_tag: 0xFFFE,
                channel_count: config.num_channels as u16,
                sampling_rate: config.sample_rate,
                bytes_per_second: config.spec_bytes_per_second() as u32,
                block_align: config.spec_superframe_bytes() as u16,
                bits_per_sample: 0,
                extension_size: 34,
                samples_per_block: config.spec_superframe_samples() as u16,
                channel_mask: config.channel_mask as u32,
                subformat_guid: SUBFORMAT_GUID,
                version: 1,
                at9_config,
            },
            fact: FactChunk {
                len: 12,
                num_samples,
                input_and_overlap_delay_samples: 256,
                encoder_delay_samples: 256,
            },
            data: DataChunk { len: size },
        }
    }

    /// Builds the header of a stream of `size` bytes and `num_samples`
    /// samples whose configuration word `at9_config` decodes to `config`.
    ///
    /// The stream and the header together must fit the 32-bit size field of
    /// the outer chunk.
    pub fn new(config: &At9Config, num_samples: u32, size: u32, at9_config: [u8; 4]) -> (r:
        Atrac9Header)
        requires
            config.wf(),
            size + HEADER_REMAINDER <= u32::MAX,
        ensures
            r == Atrac9Header::spec_new(*config, num_samples, size, at9_config),
    {
        Atrac9Header {
            size_remaining: size + HEADER_REMAINDER,
            wave: [0x57, 0x41, 0x56, 0x45],
            fmt: FmtChunk {
                len: 52,
                format_tag: 0xFFFE,
                channel_count: config.num_channels as u16,
                sampling_rate: config.sample_rate,
                bytes_per_second: config.bytes_per_second(),
                block_align: config.superframe_bytes(),
                bits_per_sample: 0,
                extension_size: 34,
                samples_per_block: config.superframe_samples(),
                channel_mask: config.channel_mask as u32,
                subformat_guid: SUBFORMAT_GUID,
                version: 1,
                at9_config,
            },
            fact: FactChunk {
                len: 12,
                num_samples,
                input_and_overlap_delay_samples: 256,
                encoder_delay_samples: 256,
            },
            data: DataChunk { len: size },
        }
    }

    /// Every field of the header lies at its fixed place, whatever the
    /// fields hold.
    pub proof fn lemma_layout(self)
        ensures
            self.spec_bytes().len() == HEADER_SIZE,
            self.spec_bytes().subrange(0, 4) == riff_magic(),
            self.spec_bytes().subrange(4, 8) == u32_le(self.size_remaining),
            self.spec_bytes().subrange(8, 12) == self.wave@,
            self.spec_bytes().subrange(12, 16) == fmt_magic(),
            self.spec_bytes().subrange(16, 20) == u32_le(self.fmt.len),
            self.spec_bytes().subrange(20, 22) == u16_le(self.fmt.format_tag),
            self.spec_bytes().subrange(22, 24) == u16_le(self.fmt.channel_count),
            self.spec_bytes().subrange(24, 28) == u32_le(self.fmt.sampling_rate),
            self.spec_bytes().subrange(28, 32) == u32_le(self.fmt.bytes_per_second),
            self.spec_bytes().subrange(32, 34) == u16_le(self.fmt.block_align),
            self.spec_bytes().subrange(34, 36) == u16_le(self.fmt.bits_per_sample),
            self.spec_bytes().subrange(36, 38) == u16_le(self.fmt.extension_size),
            self.spec_bytes().subrange(38, 40) == u16_le(self.fmt.samples_per_block),
            self.spec_bytes().subrange(40, 44) == u32_le(self.fmt.channel_mask),
            self.spec_bytes().subrange(44, 60) == self.fmt.subformat_guid@,
            self.spec_bytes().subrange(60, 64) == u32_le(self.fmt.version),
            self.spec_bytes().subrange(64, 68) == self.fmt.at9_config@,
            self.spec_bytes().subrange(68, 72) == seq![0u8, 0u8, 0u8, 0u8],
            self.spec_bytes().subrange(72, 76) == fact_magic(),
            self.spec_bytes().subrange(76, 80) == u32_le(self.fact.len),
            self.spec_bytes().subrange(80, 84) == u32_le(self.fact.num_samples),
            self.spec_bytes().subrange(84, 88) == u32_le(
                self.fact.input_and_overlap_delay_samples,
            ),
            self.spec_bytes().subrange(88, 92) == u32_le(self.fact.encoder_delay_samples),
            self.spec_bytes().subrange(92, 96) == data_magic(),
            self.spec_bytes().subrange(96, 100) == u32_le(self.data.len),
    {
        self.fmt.lemma_layout();
    }

    /// Appends the header to `out`.
    pub fn write(&self, out: &mut Vec<u8>)
        ensures
            final(out)@ == old(out)@ + self.spec_bytes(),
    {
        out.push(0x52);
        out.push(0x49);
        out.push(0x46);
        out.push(0x46);
        push_u32_le(out, self.size_remaining);
        push_bytes(out, self.wave.as_slice());
        self.fmt.write(out);
        self.fact.write(out);
        self.data.write(out);
    }

    /// The header as bytes.
    pub fn to_bytes(&self) -> (r: Vec<u8>)
        ensures
            r@ == self.spec_bytes(),
            r@.len() == HEADER_SIZE,
    {
        let mut out: Vec<u8> = Vec::new();
        self.write(&mut out);
        out
    }
}

} // verus!
