//! The packed ATRAC9 configuration word.
//!
//! The word is four bytes, read big-endian:
//!
//! | bits   | width | field                                  |
//! |--------|-------|----------------------------------------|
//! | 24..32 | 8     | sync code, always `0xFE`               |
//! | 20..24 | 4     | sample rate index                      |
//! | 17..20 | 3     | channel configuration index            |
//! | 16     | 1     | reserved, always zero                  |
//! | 5..16  | 11    | frame size in bytes, less one          |
//! | 3..5   | 2     | binary logarithm of frames per superframe |

use vstd::prelude::*;
use vstd::arithmetic::power2::{lemma2_to64, pow2};
use crate::error::Error;
use crate::wire::{be_u32_at, read_u32_be};

verus! {

/// The value of the top byte of every configuration word.
pub const SYNC_CODE: u8 = 0xFE;

/// Sample rate in Hz, by sample rate index.
pub const SAMPLE_RATE_MAP: [u32; 16] = [
    11025, 12000, 16000, 22050, 24000, 32000, 44100, 48000,
    44100, 48000, 64000, 88200, 96000, 128000, 176400, 192000,
];

/// Binary logarithm of the samples in a frame, by sample rate index.
pub const FRAME_SAMPLE_POWER_MAP: [u8; 16] = [6, 6, 7, 7, 7, 8, 8, 8, 6, 6, 7, 7, 7, 8, 8, 8];

/// Number of channels, by channel configuration index.
pub const CHANNEL_MAP: [u8; 6] = [1, 2, 2, 6, 8, 4];

/// Speaker positions as a wave channel mask, by channel configuration index.
pub const CHANNEL_MASK_MAP: [u8; 6] = [0x04, 0x04, 0x03, 0xCF, 0xFF, 0x33];

/// Bits 24 to 31: the sync code.
pub open spec fn sync_code(word: int) -> int {
    word / 0x100_0000 % 0x100
}

/// Bits 20 to 23: the sample rate index.
pub open spec fn sample_rate_index(word: int) -> int {
    word / 0x10_0000 % 0x10
}

/// Bits 17 to 19: the channel configuration index.
pub open spec fn channel_config_index(word: int) -> int {
    word / 0x2_0000 % 8
}

/// Bit 16: the reserved bit.
pub open spec fn reserved_bit(word: int) -> int {
    word / 0x1_0000 % 2
}

/// Bits 5 to 15: the frame size in bytes, less one.
pub open spec fn frame_bytes_field(word: int) -> int {
    word / 0x20 % 0x800
}

/// Bits 3 and 4: the binary logarithm of the frames in a superframe.
pub open spec fn superframe_power(word: int) -> int {
    word / 8 % 4
}

/// A word is accepted when it starts with the sync code, its reserved bit is
/// clear and its channel configuration index is one of the six in use.
pub open spec fn word_is_valid(word: int) -> bool {
    &&& sync_code(word) == SYNC_CODE
    &&& reserved_bit(word) == 0
    &&& channel_config_index(word) < 6
}

/// Playback parameters of one ATRAC9 stream.
#[derive(Debug, Clone, Copy, PartialEq, Eq, Structural)]
pub struct At9Config {
    /// Samples per second.
    pub sample_rate: u32,
    /// Samples in one frame: 64, 128 or 256.
    pub frame_samples: u16,
    /// Number of channels.
    pub num_channels: u8,
    /// Speaker positions, as a wave channel mask.
    pub channel_mask: u8,
    /// Bytes in one frame: 1 to 2048.
    pub frame_bytes: u16,
    /// Frames in one superframe: 1, 2, 4 or 8.
    pub frames_per_superframe: u16,
}

/// The parameters that an accepted word stands for.
pub open spec fn decode_word(word: int) -> At9Config {
    At9Config {
        sample_rate: SAMPLE_RATE_MAP[sample_rate_index(word)],
        frame_samples: pow2(FRAME_SAMPLE_POWER_MAP[sample_rate_index(word)] as nat) as u16,
        num_channels: CHANNEL_MAP[channel_config_index(word)],
        channel_mask: CHANNEL_MASK_MAP[channel_config_index(word)],
        frame_bytes: (frame_bytes_field(word) + 1) as u16,
        frames_per_superframe: pow2(superframe_power(word) as nat) as u16,
    }
}

/// The word that holds the given fields, with its three lowest bits clear.
pub open spec fn encode_word(
    sample_rate_index: int,
    channel_config_index: int,
    frame_bytes: int,
    superframe_power: int,
) -> int {
    0x100_0000 * SYNC_CODE + 0x10_0000 * sample_rate_index + 0x2_0000 * channel_config_index
        + 0x20 * (frame_bytes - 1) + 8 * superframe_power
}

/// The place values of the fields of a word add up without carrying into
/// one another.
proof fn lemma_encoded_fields(rate: u32, channels: u32, frame: u32, power: u32)
    by (bit_vector)
    requires
        rate < 0x10,
        channels < 8,
        frame < 0x800,
        power < 4,
    ensures
        (0xFE00_0000u32 + 0x10_0000 * rate + 0x2_0000 * channels + 0x20 * frame + 8 * power)
            / 0x100_0000 % 0x100 == 0xFE,
        (0xFE00_0000u32 + 0x10_0000 * rate + 0x2_0000 * channels + 0x20 * frame + 8 * power)
            / 0x10_0000 % 0x10 == rate,
        (0xFE00_0000u32 + 0x10_0000 * rate + 0x2_0000 * channels + 0x20 * frame + 8 * power)
            / 0x2_0000 % 8 == channels,
        (0xFE00_0000u32 + 0x10_0000 * rate + 0x2_0000 * channels + 0x20 * frame + 8 * power)
            / 0x1_0000 % 2 == 0,
        (0xFE00_0000u32 + 0x10_0000 * rate + 0x2_0000 * channels + 0x20 * frame + 8 * power)
            / 0x20 % 0x800 == frame,
        (0xFE00_0000u32 + 0x10_0000 * rate + 0x2_0000 * channels + 0x20 * frame + 8 * power) / 8
            % 4 == power,
{
}

/// Every sample rate index and every channel configuration index in use
/// has its word, and the word decodes to the entries of the tables at
/// those indices, whatever the other fields hold.
pub proof fn lemma_decode_encoded(
    sample_rate_index: int,
    channel_config_index: int,
    frame_bytes: int,
    superframe_power: int,
)
    requires
        0 <= sample_rate_index < 16,
        0 <= channel_config_index < 6,
        1 <= frame_bytes <= 2048,
        0 <= superframe_power < 4,
    ensures
        ({
            let word = encode_word(
                sample_rate_index,
                channel_config_index,
                frame_bytes,
                superframe_power,
            );
            &&& 0 <= word <= u32::MAX
            &&& word_is_valid(word)
            &&& decode_word(word).sample_rate == SAMPLE_RATE_MAP[sample_rate_index]
            &&& decode_word(word).frame_samples == pow2(
                FRAME_SAMPLE_POWER_MAP[sample_rate_index] as nat,
            )
            &&& decode_word(word).num_channels == CHANNEL_MAP[channel_config_index]
            &&& decode_word(word).channel_mask == CHANNEL_MASK_MAP[channel_config_index]
            &&& decode_word(word).frame_bytes == frame_bytes
            &&& decode_word(word).frames_per_superframe == pow2(superframe_power as nat)
        }),
{
    lemma_encoded_fields(
        sample_rate_index as u32,
        channel_config_index as u32,
        (frame_bytes - 1) as u32,
        superframe_power as u32,
    );
    lemma2_to64();
}

/// Whatever an accepted word decodes to lies in the ranges of a
/// configuration.
pub proof fn lemma_decode_word_wf(word: int)
    requires
        word_is_valid(word),
    ensures
        decode_word(word).wf(),
        0 < decode_word(word).spec_superframe_bytes() <= 16384,
{
    lemma2_to64();
    let config = decode_word(word);
    assert(config.frame_bytes * config.frames_per_superframe <= 16384) by (nonlinear_arith)
        requires
            config.frame_bytes <= 2048,
            config.frames_per_superframe <= 8,
    ;
    assert(config.frame_bytes * config.frames_per_superframe > 0) by (nonlinear_arith)
        requires
            config.frame_bytes >= 1,
            config.frames_per_superframe >= 1,
    ;
}

/// The shifts and masks that read a word agree with the place values of its
/// fields.
proof fn lemma_word_fields(num: u32)
    by (bit_vector)
    ensures
        (num >> 24) & 0xFF == num / 0x100_0000 % 0x100,
        (num >> 20) & 0xF == num / 0x10_0000 % 0x10,
        (num >> 17) & 0x7 == num / 0x2_0000 % 8,
        (num >> 16) & 0x1 == num / 0x1_0000 % 2,
        (num >> 5) & 0x7FF == num / 0x20 % 0x800,
        (num >> 3) & 0x3 == num / 8 % 4,
{
}

/// Shifting one to the left by a small exponent gives the power of two.
proof fn lemma_shift_powers(e: u32)
    ensures
        e <= 8 ==> (1u16 << e) == pow2(e as nat),
{
    lemma2_to64();
    assert(e <= 8 ==> (1u16 << e) == (if e == 0 {
        1u16
    } else if e == 1 {
        2u16
    } else if e == 2 {
        4u16
    } else if e == 3 {
        8u16
    } else if e == 4 {
        16u16
    } else if e == 5 {
        32u16
    } else if e == 6 {
        64u16
    } else if e == 7 {
        128u16
    } else {
        256u16
    })) by (bit_vector);
}

impl At9Config {
    /// The ranges that every decoded configuration lies in.
    pub open spec fn wf(self) -> bool {
        &&& 0 < self.sample_rate <= 192000
        &&& (self.frame_samples == 64 || self.frame_samples == 128 || self.frame_samples == 256)
        &&& 1 <= self.frame_bytes <= 2048
        &&& (self.frames_per_superframe == 1 || self.frames_per_superframe == 2
            || self.frames_per_superframe == 4 || self.frames_per_superframe == 8)
    }

    /// Bytes in one superframe.
    pub open spec fn spec_superframe_bytes(self) -> int {
        self.frame_bytes * self.frames_per_superframe
    }

    /// Samples in one superframe.
    pub open spec fn spec_superframe_samples(self) -> int {
        self.frame_samples * self.frames_per_superframe
    }

    /// Bytes of compressed audio per second of sound, rounded down.
    pub open spec fn spec_bytes_per_second(self) -> int {
        self.spec_superframe_bytes() * self.sample_rate / self.spec_superframe_samples()
    }

    /// Bytes in one superframe: the size of the blocks that a stream is
    /// stored and dealt out in.
    pub fn superframe_bytes(&self) -> (r: u16)
        requires
            self.wf(),
        ensures
            r == self.spec_superframe_bytes(),
            1 <= r <= 16384,
    {
        self.frame_bytes * self.frames_per_superframe
    }

    /// Samples in one superframe.
    pub fn superframe_samples(&self) -> (r: u16)
        requires
            self.wf(),
        ensures
            r == self.spec_superframe_samples(),
            64 <= r <= 2048,
    {
        self.frame_samples * self.frames_per_superframe
    }

    /// Bytes of compressed audio per second of sound, rounded down.
    pub fn bytes_per_second(&self) -> (r: u32)
        requires
            self.wf(),
        ensures
            r == self.spec_bytes_per_second(),
    {
        let bytes: u32 = self.superframe_bytes() as u32;
        let samples: u32 = self.superframe_samples() as u32;
        assert(bytes * self.sample_rate <= 3145728000) by (nonlinear_arith)
            requires
                bytes <= 16384,
                self.sample_rate <= 192000,
        ;
        bytes * self.sample_rate / samples
    }

    /// Decodes a configuration word.
    ///
    /// The word is refused when its sync code is wrong, its reserved bit is
    /// set, or its channel configuration index is 6 or 7. An accepted word
    /// gives, by its sample rate index, the rate and the frame length of the
    /// tables, and by its channel configuration index the channel count and
    /// mask.
    pub fn parse(data: [u8; 4]) -> (r: Result<At9Config, Error>)
        ensures
            word_is_valid(be_u32_at(data@, 0)) ==> r == Ok::<At9Config, Error>(
                decode_word(be_u32_at(data@, 0)),
            ),
            !word_is_valid(be_u32_at(data@, 0)) ==> r == Err::<At9Config, Error>(
                Error::StructuralParse,
            ),
            r is Ok ==> r->Ok_0.wf(),
    {
        let num: u32 = read_u32_be(&data);
        proof {
            lemma_word_fields(num);
            lemma2_to64();
        }
        if (num >> 24) & 0xFF != 0xFE {
            return Err(Error::StructuralParse);
        }
        if (num >> 16) & 0x1 != 0 {
            return Err(Error::StructuralParse);
        }
        let sample_rate_idx: usize = ((num >> 20) & 0xF) as usize;
        let channel_cfg_idx: usize = ((num >> 17) & 0x7) as usize;
        if channel_cfg_idx >= 6 {
            return Err(Error::StructuralParse);
        }
        let frame_power: u32 = FRAME_SAMPLE_POWER_MAP[sample_rate_idx] as u32;
        let superframe_power: u32 = (num >> 3) & 0x3;
        proof {
            lemma_shift_powers(frame_power);
            lemma_shift_powers(superframe_power);
        }
        Ok(
            At9Config {
                sample_rate: SAMPLE_RATE_MAP[sample_rate_idx],
                frame_samples: 1u16 << frame_power,
                num_channels: CHANNEL_MAP[channel_cfg_idx],
                channel_mask: CHANNEL_MASK_MAP[channel_cfg_idx],
                frame_bytes: (((num >> 5) & 0x7FF) + 1) as u16,
                frames_per_superframe: 1u16 << superframe_power,
            },
        )
    }
}

} // verus!
