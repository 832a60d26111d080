//! The FSB5 container.
//!
//! A bank starts with a fixed header, every number little-endian:
//!
//! | offset | bytes  | content                                   |
//! |--------|--------|-------------------------------------------|
//! | 0      | 4      | `FSB5`                                    |
//! | 4      | 4      | version: 0 or 1                           |
//! | 8      | 4      | number of samples                         |
//! | 12     | 4      | size of the sample descriptors            |
//! | 16     | 4      | size of the name table                    |
//! | 20     | 4      | size of the sample data                   |
//! | 24     | 4      | codec identifier                          |
//! | 28     | 8 or 4 | padding: 8 bytes in version 0, 4 in 1     |
//! |        | 4      | flags                                     |
//! |        | 16     | identifier of the bank                    |
//! |        | 8      | hash                                      |
//!
//! The sample descriptors follow, one per sample: a packed 64-bit word and,
//! where the word says so, a chain of flag records. Where the size of the
//! name table is not zero, a table of four bytes per sample follows, and
//! then one zero-terminated name per sample.

use vstd::prelude::*;
use vstd::slice::{slice_subrange, slice_to_vec};
use crate::error::Error;
use crate::wire::{
    get_array16, get_array4, get_array8, get_u32_le, has_bytes, le_u32_at, le_u64_at,
    lemma_u32_le_round_trip, read_u32_le, read_u64_le, read_u8, u32_le,
};

verus! {

/// How the samples of a bank are encoded.
#[derive(Debug, Clone, Copy, PartialEq, Eq, Structural)]
pub enum Codec {
    Pcm8,
    Pcm16,
    Pcm24,
    Pcm32,
    PcmFloat,
    GcAdpcm,
    ImaAdpcm,
    Vag,
    HeVag,
    Xma,
    Mpeg,
    Celt,
    At9,
    XWma,
    Vorbis,
    FAdpcm,
    Opus,
}

impl Codec {
    /// The codec that an identifier names, if any.
    pub open spec fn spec_from_id(id: int) -> Option<Codec> {
        if id == 0x1 {
            Some(Codec::Pcm8)
        } else if id == 0x2 {
            Some(Codec::Pcm16)
        } else if id == 0x3 {
            Some(Codec::Pcm24)
        } else if id == 0x4 {
            Some(Codec::Pcm32)
        } else if id == 0x5 {
            Some(Codec::PcmFloat)
        } else if id == 0x6 {
            Some(Codec::GcAdpcm)
        } else if id == 0x7 {
            Some(Codec::ImaAdpcm)
        } else if id == 0x8 {
            Some(Codec::Vag)
        } else if id == 0x9 {
            Some(Codec::HeVag)
        } else if id == 0xa {
            Some(Codec::Xma)
        } else if id == 0xb {
            Some(Codec::Mpeg)
        } else if id == 0xc {
            Some(Codec::Celt)
        } else if id == 0xd {
            Some(Codec::At9)
        } else if id == 0xe {
            Some(Codec::XWma)
        } else if id == 0xf {
            Some(Codec::Vorbis)
        } else if id == 0x10 {
            Some(Codec::FAdpcm)
        } else if id == 0x11 {
            Some(Codec::Opus)
        } else {
            None
        }
    }

    /// The identifier of a codec.
    pub open spec fn spec_id(self) -> int {
        match self {
            Codec::Pcm8 => 0x1,
            Codec::Pcm16 => 0x2,
            Codec::Pcm24 => 0x3,
            Codec::Pcm32 => 0x4,
            Codec::PcmFloat => 0x5,
            Codec::GcAdpcm => 0x6,
            Codec::ImaAdpcm => 0x7,
            Codec::Vag => 0x8,
            Codec::HeVag => 0x9,
            Codec::Xma => 0xa,
            Codec::Mpeg => 0xb,
            Codec::Celt => 0xc,
            Codec::At9 => 0xd,
            Codec::XWma => 0xe,
            Codec::Vorbis => 0xf,
            Codec::FAdpcm => 0x10,
            Codec::Opus => 0x11,
        }
    }

    /// The codec that an identifier names, if any.
    pub fn from_id(id: u32) -> (r: Option<Codec>)
        ensures
            r == Codec::spec_from_id(id as int),
    {
        match id {
            0x1 => Some(Codec::Pcm8),
            0x2 => Some(Codec::Pcm16),
            0x3 => Some(Codec::Pcm24),
            0x4 => Some(Codec::Pcm32),
            0x5 => Some(Codec::PcmFloat),
            0x6 => Some(Codec::GcAdpcm),
            0x7 => Some(Codec::ImaAdpcm),
            0x8 => Some(Codec::Vag),
            0x9 => Some(Codec::HeVag),
            0xa => Some(Codec::Xma),
            0xb => Some(Codec::Mpeg),
            0xc => Some(Codec::Celt),
            0xd => Some(Codec::At9),
            0xe => Some(Codec::XWma),
            0xf => Some(Codec::Vorbis),
            0x10 => Some(Codec::FAdpcm),
            0x11 => Some(Codec::Opus),
            _ => None,
        }
    }

    /// The identifier of a codec.
    pub fn id(&self) -> (r: u32)
        ensures
            r == self.spec_id(),
            Codec::spec_from_id(r as int) == Some(*self),
    {
        match self {
            Codec::Pcm8 => 0x1,
            Codec::Pcm16 => 0x2,
            Codec::Pcm24 => 0x3,
            Codec::Pcm32 => 0x4,
            Codec::PcmFloat => 0x5,
            Codec::GcAdpcm => 0x6,
            Codec::ImaAdpcm => 0x7,
            Codec::Vag => 0x8,
            Codec::HeVag => 0x9,
            Codec::Xma => 0xa,
            Codec::Mpeg => 0xb,
            Codec::Celt => 0xc,
            Codec::At9 => 0xd,
            Codec::XWma => 0xe,
            Codec::Vorbis => 0xf,
            Codec::FAdpcm => 0x10,
            Codec::Opus => 0x11,
        }
    }
}

/// The packed word at the head of a sample descriptor.
///
/// | bits   | width | field                                 |
/// |--------|-------|---------------------------------------|
/// | 0      | 1     | whether a chain of flag records follows |
/// | 1..5   | 4     | sample rate index                     |
/// | 5..7   | 2     | channel count index                   |
/// | 7..34  | 27    | offset of the data, in units of 32 bytes |
/// | 34..64 | 30    | number of samples                     |
#[derive(Debug, Clone, Copy, PartialEq, Eq, Structural)]
pub struct SampleInfo {
    /// The word as it was read.
    pub value: u64,
}

/// The shifts and masks that read a descriptor word agree with the place
/// values of its fields.
proof fn lemma_sample_info_fields(value: u64)
    by (bit_vector)
    ensures
        value & 1 == value % 2,
        (value >> 1) & 0xF == value / 2 % 0x10,
        (value >> 5) & 0x3 == value / 0x20 % 4,
        (value >> 7) & 0x7FF_FFFF == value / 0x80 % 0x800_0000,
        value >> 34 == value / 0x4_0000_0000,
        value / 0x4_0000_0000 < 0x4000_0000,
{
}

/// The fields of a descriptor word, shifted into place.
spec fn pack_sample_info(flag: u64, rate: u64, channels: u64, offset: u64, samples: u64) -> u64 {
    flag | rate << 1 | channels << 5 | offset << 7 | samples << 34
}

/// The shifts that pack a descriptor word agree with the place values of
/// its fields, and each field reads back as it was given.
proof fn lemma_sample_info_pack(flag: u64, rate: u64, channels: u64, offset: u64, samples: u64)
    by (bit_vector)
    requires
        flag < 2,
        rate < 0x10,
        channels < 4,
        offset < 0x800_0000,
        samples < 0x4000_0000,
    ensures
        pack_sample_info(flag, rate, channels, offset, samples) == flag + 2 * rate + 0x20
            * channels + 0x80 * offset + 0x4_0000_0000 * samples,
        pack_sample_info(flag, rate, channels, offset, samples) % 2 == flag,
        pack_sample_info(flag, rate, channels, offset, samples) / 2 % 0x10 == rate,
        pack_sample_info(flag, rate, channels, offset, samples) / 0x20 % 4 == channels,
        pack_sample_info(flag, rate, channels, offset, samples) / 0x80 % 0x800_0000 == offset,
        pack_sample_info(flag, rate, channels, offset, samples) / 0x4_0000_0000 == samples,
{
}

impl SampleInfo {
    /// Bit 0: whether a chain of flag records follows the word.
    pub open spec fn spec_has_flags(self) -> bool {
        self.value % 2 == 1
    }

    /// Bits 1 to 4: the sample rate index.
    pub open spec fn spec_sample_rate_idx(self) -> int {
        self.value as int / 2 % 0x10
    }

    /// Bits 5 and 6: the channel count index.
    pub open spec fn spec_channels_idx(self) -> int {
        self.value as int / 0x20 % 4
    }

    /// Bits 7 to 33: where the sample's data starts, in units of 32 bytes.
    pub open spec fn spec_data_offset(self) -> int {
        self.value as int / 0x80 % 0x800_0000
    }

    /// Bits 34 to 63: the number of samples.
    pub open spec fn spec_num_samples(self) -> int {
        self.value as int / 0x4_0000_0000
    }

    /// The word that holds the given fields.
    pub open spec fn spec_new(
        has_flags: bool,
        sample_rate_idx: int,
        channels_idx: int,
        data_offset: int,
        num_samples: int,
    ) -> SampleInfo {
        SampleInfo {
            value: ((if has_flags {
                1int
            } else {
                0int
            }) + 2 * sample_rate_idx + 0x20 * channels_idx + 0x80 * data_offset + 0x4_0000_0000
                * num_samples) as u64,
        }
    }

    /// Packs the given fields into a word.
    pub fn new(
        has_flags: bool,
        sample_rate_idx: u8,
        channels_idx: u8,
        data_offset: u32,
        num_samples: u32,
    ) -> (r: SampleInfo)
        requires
            sample_rate_idx < 0x10,
            channels_idx < 4,
            data_offset < 0x800_0000,
            num_samples < 0x4000_0000,
        ensures
            r == SampleInfo::spec_new(
                has_flags,
                sample_rate_idx as int,
                channels_idx as int,
                data_offset as int,
                num_samples as int,
            ),
            r.spec_has_flags() == has_flags,
            r.spec_sample_rate_idx() == sample_rate_idx,
            r.spec_channels_idx() == channels_idx,
            r.spec_data_offset() == data_offset,
            r.spec_num_samples() == num_samples,
    {
        let flag: u64 = if has_flags {
            1
        } else {
            0
        };
        let rate: u64 = sample_rate_idx as u64;
        let channels: u64 = channels_idx as u64;
        let offset: u64 = data_offset as u64;
        let samples: u64 = num_samples as u64;
        proof {
            lemma_sample_info_pack(flag, rate, channels, offset, samples);
            SampleInfo::lemma_fields_of_new(
                has_flags,
                sample_rate_idx as int,
                channels_idx as int,
                data_offset as int,
                num_samples as int,
            );
        }
        SampleInfo { value: flag | rate << 1 | channels << 5 | offset << 7 | samples << 34 }
    }

    /// Each field of a packed word reads back as it was given.
    pub proof fn lemma_fields_of_new(
        has_flags: bool,
        sample_rate_idx: int,
        channels_idx: int,
        data_offset: int,
        num_samples: int,
    )
        requires
            0 <= sample_rate_idx < 0x10,
            0 <= channels_idx < 4,
            0 <= data_offset < 0x800_0000,
            0 <= num_samples < 0x4000_0000,
        ensures
            ({
                let r = SampleInfo::spec_new(
                    has_flags,
                    sample_rate_idx,
                    channels_idx,
                    data_offset,
                    num_samples,
                );
                &&& r.spec_has_flags() == has_flags
                &&& r.spec_sample_rate_idx() == sample_rate_idx
                &&& r.spec_channels_idx() == channels_idx
                &&& r.spec_data_offset() == data_offset
                &&& r.spec_num_samples() == num_samples
            }),
    {
        lemma_sample_info_pack(
            if has_flags {
                1u64
            } else {
                0u64
            },
            sample_rate_idx as u64,
            channels_idx as u64,
            data_offset as u64,
            num_samples as u64,
        );
    }

    /// Bit 0: whether a chain of flag records follows the word.
    pub fn has_flags(&self) -> (r: bool)
        ensures
            r == self.spec_has_flags(),
    {
        proof {
            lemma_sample_info_fields(self.value);
        }
        self.value & 1 == 1
    }

    /// Bits 1 to 4: the sample rate index.
    pub fn sample_rate_idx(&self) -> (r: u8)
        ensures
            r == self.spec_sample_rate_idx(),
            r < 0x10,
    {
        proof {
            lemma_sample_info_fields(self.value);
        }
        ((self.value >> 1) & 0xF) as u8
    }

    /// Bits 5 and 6: the channel count index.
    pub fn channels_idx(&self) -> (r: u8)
        ensures
            r == self.spec_channels_idx(),
            r < 4,
    {
        proof {
            lemma_sample_info_fields(self.value);
        }
        ((self.value >> 5) & 0x3) as u8
    }

    /// Bits 7 to 33: where the sample's data starts, in units of 32 bytes.
    pub fn data_offset(&self) -> (r: u32)
        ensures
            r == self.spec_data_offset(),
            r < 0x800_0000,
    {
        proof {
            lemma_sample_info_fields(self.value);
        }
        ((self.value >> 7) & 0x7FF_FFFF) as u32
    }

    /// Bits 34 to 63: the number of samples.
    pub fn num_samples(&self) -> (r: u32)
        ensures
            r == self.spec_num_samples(),
            r < 0x4000_0000,
    {
        proof {
            lemma_sample_info_fields(self.value);
        }
        (self.value >> 34) as u32
    }
}

impl From<u64> for SampleInfo {
    fn from(value: u64) -> (r: SampleInfo) {
        SampleInfo { value }
    }
}

impl vstd::std_specs::convert::FromSpecImpl<u64> for SampleInfo {
    open spec fn obeys_from_spec() -> bool {
        true
    }

    open spec fn from_spec(value: u64) -> SampleInfo {
        SampleInfo { value }
    }
}

/// The packed word at the head of a flag record.
///
/// | bits   | width | field                               |
/// |--------|-------|-------------------------------------|
/// | 0      | 1     | whether another record follows      |
/// | 1..25  | 24    | size of the record's payload in bytes |
/// | 25..32 | 7     | type of the record                  |
#[derive(Debug, Clone, Copy, PartialEq, Eq, Structural)]
pub struct SampleFlagInfo {
    /// The word as it was read.
    pub value: u32,
}

/// The fields of a record's head, shifted into place.
spec fn pack_flag_info(more: u32, size: u32, flag_type: u32) -> u32 {
    more | size << 1 | flag_type << 25
}

/// The shifts and masks that read the head of a flag record agree with the
/// place values of its fields.
proof fn lemma_flag_info_fields(value: u32)
    by (bit_vector)
    ensures
        value & 1 == value % 2,
        (value >> 1) & 0xFF_FFFF == value / 2 % 0x100_0000,
        value >> 25 == value / 0x200_0000,
        value / 0x200_0000 < 0x80,
{
}

/// The shifts that pack the head of a flag record agree with the place
/// values of its fields, and each field reads back as it was given.
proof fn lemma_flag_info_pack(more: u32, size: u32, flag_type: u32)
    by (bit_vector)
    requires
        more < 2,
        size < 0x100_0000,
        flag_type < 0x80,
    ensures
        pack_flag_info(more, size, flag_type) == more + 2 * size + 0x200_0000 * flag_type,
        pack_flag_info(more, size, flag_type) % 2 == more,
        pack_flag_info(more, size, flag_type) / 2 % 0x100_0000 == size,
        pack_flag_info(more, size, flag_type) / 0x200_0000 == flag_type,
{
}

impl SampleFlagInfo {
    /// Bit 0: whether another record follows this one.
    pub open spec fn spec_more(self) -> bool {
        self.value % 2 == 1
    }

    /// Bits 1 to 24: the size of the payload in bytes.
    pub open spec fn spec_size(self) -> int {
        self.value as int / 2 % 0x100_0000
    }

    /// Bits 25 to 31: the type of the record.
    pub open spec fn spec_flag_type(self) -> int {
        self.value as int / 0x200_0000
    }

    /// The word that holds the given fields.
    pub open spec fn spec_new(more: bool, size: int, flag_type: int) -> SampleFlagInfo {
        SampleFlagInfo {
            value: ((if more {
                1int
            } else {
                0int
            }) + 2 * size + 0x200_0000 * flag_type) as u32,
        }
    }

    /// Packs the given fields into a word.
    pub fn new(more: bool, size: u32, flag_type: u8) -> (r: SampleFlagInfo)
        requires
            size < 0x100_0000,
            flag_type < 0x80,
        ensures
            r == SampleFlagInfo::spec_new(more, size as int, flag_type as int),
            r.spec_more() == more,
            r.spec_size() == size,
            r.spec_flag_type() == flag_type,
    {
        let bit: u32 = if more {
            1
        } else {
            0
        };
        let kind: u32 = flag_type as u32;
        proof {
            lemma_flag_info_pack(bit, size, kind);
        }
        SampleFlagInfo { value: bit | size << 1 | kind << 25 }
    }

    /// Each field of a packed word reads back as it was given.
    pub proof fn lemma_fields_of_new(more: bool, size: int, flag_type: int)
        requires
            0 <= size < 0x100_0000,
            0 <= flag_type < 0x80,
        ensures
            SampleFlagInfo::spec_new(more, size, flag_type).spec_more() == more,
            SampleFlagInfo::spec_new(more, size, flag_type).spec_size() == size,
            SampleFlagInfo::spec_new(more, size, flag_type).spec_flag_type() == flag_type,
            SampleFlagInfo::spec_new(more, size, flag_type).value == (if more {
                1int
            } else {
                0int
            }) + 2 * size + 0x200_0000 * flag_type,
    {
        lemma_flag_info_pack(
            if more {
                1u32
            } else {
                0u32
            },
            size as u32,
            flag_type as u32,
        );
    }

    /// Bit 0: whether another record follows this one.
    pub fn more(&self) -> (r: bool)
        ensures
            r == self.spec_more(),
    {
        proof {
            lemma_flag_info_fields(self.value);
        }
        self.value & 1 == 1
    }

    /// Bits 1 to 24: the size of the payload in bytes.
    pub fn size(&self) -> (r: u32)
        ensures
            r == self.spec_size(),
            r < 0x100_0000,
    {
        proof {
            lemma_flag_info_fields(self.value);
        }
        (self.value >> 1) & 0xFF_FFFF
    }

    /// Bits 25 to 31: the type of the record.
    pub fn flag_type(&self) -> (r: u8)
        ensures
            r == self.spec_flag_type(),
            r < 0x80,
    {
        proof {
            lemma_flag_info_fields(self.value);
        }
        (self.value >> 25) as u8
    }
}

impl From<u32> for SampleFlagInfo {
    fn from(value: u32) -> (r: SampleFlagInfo) {
        SampleFlagInfo { value }
    }
}

impl vstd::std_specs::convert::FromSpecImpl<u32> for SampleFlagInfo {
    open spec fn obeys_from_spec() -> bool {
        true
    }

    open spec fn from_spec(value: u32) -> SampleFlagInfo {
        SampleFlagInfo { value }
    }
}

/// What each of `items` holds, in the same order.
pub open spec fn views<T: View>(items: Seq<T>) -> Seq<T::V> {
    Seq::new(items.len(), |i: int| items[i]@)
}

/// What a sequence with one item more holds is what it held, and what the
/// new item holds.
pub proof fn lemma_views_push<T: View>(items: Seq<T>, item: T)
    ensures
        views(items.push(item)) == views(items).push(item@),
{
}

/// Type of the record that holds the channel count.
pub const FLAG_CHANNELS: u8 = 0x1;

/// Type of the record that holds the sample rate.
pub const FLAG_SAMPLE_RATE: u8 = 0x2;

/// Type of the record that holds the loop points.
pub const FLAG_LOOP: u8 = 0x3;

/// Type of the record that holds the ATRAC9 configuration.
pub const FLAG_ATRAC9_CONFIG: u8 = 0x9;

/// One record of a sample's flag chain.
#[derive(Debug, PartialEq, Eq)]
pub enum SampleFlag {
    /// The channel count.
    Channels(u8),
    /// The sample rate in Hz.
    SampleRate(u32),
    /// The loop points, in samples.
    Loop { start: u32, end: u32 },
    /// The ATRAC9 configuration: one word per stream, at times behind four
    /// bytes that are none.
    Atrac9Config(Vec<u8>),
    /// A record of a type not known here, kept as it was found.
    Unknown(Vec<u8>),
}

/// What a flag record holds.
pub enum FlagView {
    Channels(u8),
    SampleRate(u32),
    Loop { start: u32, end: u32 },
    Atrac9Config(Seq<u8>),
    Unknown(Seq<u8>),
}

impl View for SampleFlag {
    type V = FlagView;

    open spec fn view(&self) -> FlagView {
        match self {
            SampleFlag::Channels(c) => FlagView::Channels(*c),
            SampleFlag::SampleRate(r) => FlagView::SampleRate(*r),
            SampleFlag::Loop { start, end } => FlagView::Loop { start: *start, end: *end },
            SampleFlag::Atrac9Config(d) => FlagView::Atrac9Config(d@),
            SampleFlag::Unknown(d) => FlagView::Unknown(d@),
        }
    }
}

/// How many bytes the payload of a record takes.
///
/// A record of a known fixed shape has that shape whatever size its head
/// declares; a configuration record and a record of unknown type have the
/// size that their head declares.
pub open spec fn spec_payload_len(info: SampleFlagInfo) -> int {
    let kind = info.spec_flag_type();
    if kind == FLAG_CHANNELS {
        1
    } else if kind == FLAG_SAMPLE_RATE {
        4
    } else if kind == FLAG_LOOP {
        8
    } else {
        info.spec_size()
    }
}

/// What the payload of a record of type `kind` means.
pub open spec fn spec_payload(kind: int, payload: Seq<u8>) -> FlagView {
    if kind == FLAG_CHANNELS {
        FlagView::Channels(payload[0])
    } else if kind == FLAG_SAMPLE_RATE {
        FlagView::SampleRate(le_u32_at(payload, 0) as u32)
    } else if kind == FLAG_LOOP {
        FlagView::Loop { start: le_u32_at(payload, 0) as u32, end: le_u32_at(payload, 4) as u32 }
    } else if kind == FLAG_ATRAC9_CONFIG {
        FlagView::Atrac9Config(payload)
    } else {
        FlagView::Unknown(payload)
    }
}

/// The record that starts at `pos`, whether another follows it, and where
/// it ends; `None` where the input ends inside the record.
pub open spec fn spec_flag(data: Seq<u8>, pos: int) -> Option<(FlagView, bool, int)> {
    if pos < 0 || pos + 4 > data.len() {
        None
    } else {
        let info = SampleFlagInfo { value: le_u32_at(data, pos) as u32 };
        let end = pos + 4 + spec_payload_len(info);
        if end > data.len() {
            None
        } else {
            Some(
                (
                    spec_payload(info.spec_flag_type(), data.subrange(pos + 4, end)),
                    info.spec_more(),
                    end,
                ),
            )
        }
    }
}

/// `flags` in front of what a chain gave.
pub open spec fn spec_prepend(flags: Seq<FlagView>, rest: Option<(Seq<FlagView>, int)>) -> Option<
    (Seq<FlagView>, int),
> {
    match rest {
        Some((more, end)) => Some((flags + more, end)),
        None => None,
    }
}

/// The chain of records that starts at `pos`, and where it ends; `None`
/// where the input ends inside the chain.
///
/// The chain goes on as long as the head of a record says that another
/// follows.
pub open spec fn spec_flag_chain(data: Seq<u8>, pos: int) -> Option<(Seq<FlagView>, int)>
    decreases data.len() - pos,
{
    match spec_flag(data, pos) {
        None => None,
        Some((flag, more, next)) => if more {
            spec_prepend(seq![flag], spec_flag_chain(data, next))
        } else {
            Some((seq![flag], next))
        },
    }
}

/// The bytes of a record: its head, then its payload.
pub open spec fn spec_record_bytes(more: bool, flag_type: int, payload: Seq<u8>) -> Seq<u8> {
    u32_le(SampleFlagInfo::spec_new(more, payload.len() as int, flag_type).value) + payload
}

/// A record of a type not known here does not stand in the way of the
/// records behind it: a chain of such a record and a configuration record
/// is read to its end, the first record passed over by its declared size
/// and kept, the configuration recovered byte for byte.
pub proof fn lemma_unknown_then_config(flag_type: int, unknown: Seq<u8>, config: Seq<u8>)
    requires
        0 <= flag_type < 0x80,
        flag_type != FLAG_CHANNELS,
        flag_type != FLAG_SAMPLE_RATE,
        flag_type != FLAG_LOOP,
        flag_type != FLAG_ATRAC9_CONFIG,
        unknown.len() < 0x100_0000,
        config.len() < 0x100_0000,
    ensures
        spec_flag_chain(
            spec_record_bytes(true, flag_type, unknown) + spec_record_bytes(
                false,
                FLAG_ATRAC9_CONFIG as int,
                config,
            ),
            0,
        ) == Some(
            (
                seq![FlagView::Unknown(unknown), FlagView::Atrac9Config(config)],
                8 + unknown.len() as int + config.len() as int,
            ),
        ),
{
    let first = SampleFlagInfo::spec_new(true, unknown.len() as int, flag_type);
    let second = SampleFlagInfo::spec_new(false, config.len() as int, FLAG_ATRAC9_CONFIG as int);
    let data = spec_record_bytes(true, flag_type, unknown) + spec_record_bytes(
        false,
        FLAG_ATRAC9_CONFIG as int,
        config,
    );
    let next = 4 + unknown.len() as int;
    SampleFlagInfo::lemma_fields_of_new(true, unknown.len() as int, flag_type);
    SampleFlagInfo::lemma_fields_of_new(false, config.len() as int, FLAG_ATRAC9_CONFIG as int);
    lemma_u32_le_round_trip(first.value);
    lemma_u32_le_round_trip(second.value);
    assert(data.len() == 8 + unknown.len() + config.len());
    assert forall|i: int| 0 <= i < 4 implies data[i] == u32_le(first.value)[i] by {}
    assert forall|i: int| 0 <= i < 4 implies data[next + i] == u32_le(second.value)[i] by {}
    assert(le_u32_at(data, 0) == first.value);
    assert(le_u32_at(data, next) == second.value);
    assert(data.subrange(4, next) =~= unknown);
    assert(data.subrange(next + 4, next + 4 + config.len()) =~= config);
    assert(spec_flag(data, 0) == Some((FlagView::Unknown(unknown), true, next)));
    assert(spec_flag(data, next) == Some(
        (FlagView::Atrac9Config(config), false, next + 4 + config.len()),
    ));
    assert(spec_flag_chain(data, next) == Some(
        (seq![FlagView::Atrac9Config(config)], next + 4 + config.len()),
    ));
    assert(seq![FlagView::Unknown(unknown)] + seq![FlagView::Atrac9Config(config)]
        =~= seq![FlagView::Unknown(unknown), FlagView::Atrac9Config(config)]);
}

/// Reads the record that starts at `pos`.
fn parse_flag(data: &[u8], pos: usize) -> (r: Option<(SampleFlag, bool, usize)>)
    ensures
        match spec_flag(data@, pos as int) {
            Some((flag, more, next)) => r is Some && r->Some_0.0@ == flag && r->Some_0.1
                == more && r->Some_0.2 == next,
            None => r is None,
        },
        r is Some ==> pos + 4 <= r->Some_0.2 <= data@.len(),
{
    let info = match read_u32_le(data, pos) {
        Some(word) => SampleFlagInfo::from(word),
        None => { return None; },
    };
    let body: usize = pos + 4;
    let kind = info.flag_type();
    let more = info.more();
    if kind == FLAG_CHANNELS {
        match read_u8(data, body) {
            Some(channels) => Some((SampleFlag::Channels(channels), more, body + 1)),
            None => None,
        }
    } else if kind == FLAG_SAMPLE_RATE {
        match read_u32_le(data, body) {
            Some(rate) => Some((SampleFlag::SampleRate(rate), more, body + 4)),
            None => None,
        }
    } else if kind == FLAG_LOOP {
        if !has_bytes(data, body, 8) {
            return None;
        }
        match (read_u32_le(data, body), read_u32_le(data, body + 4)) {
            (Some(start), Some(end)) => Some((SampleFlag::Loop { start, end }, more, body + 8)),
            _ => None,
        }
    } else {
        let size: usize = info.size() as usize;
        if !has_bytes(data, body, size) {
            return None;
        }
        let payload = slice_to_vec(slice_subrange(data, body, body + size));
        if kind == FLAG_ATRAC9_CONFIG {
            Some((SampleFlag::Atrac9Config(payload), more, body + size))
        } else {
            Some((SampleFlag::Unknown(payload), more, body + size))
        }
    }
}

/// Reads the chain of flag records that starts at `pos`, and says where it
/// ends.
///
/// A record of a type not known here is kept as it is and passed over by
/// the size that its head declares.
pub fn flag_parser(data: &[u8], pos: usize) -> (r: Result<(Vec<SampleFlag>, usize), Error>)
    ensures
        match spec_flag_chain(data@, pos as int) {
            Some((flags, end)) => r is Ok && views(r->Ok_0.0@) == flags && r->Ok_0.1 == end,
            None => r is Err && r->Err_0 == Error::StructuralParse,
        },
        r is Ok ==> pos + 4 <= r->Ok_0.1 <= data@.len(),
{
    let mut flags: Vec<SampleFlag> = Vec::new();
    let mut cur: usize = pos;
    loop
        invariant
            pos <= cur,
            cur > pos ==> pos + 4 <= cur <= data@.len(),
            spec_flag_chain(data@, pos as int) == spec_prepend(
                views(flags@),
                spec_flag_chain(data@, cur as int),
            ),
        decreases data@.len() - cur,
    {
        let ghost before = views(flags@);
        match parse_flag(data, cur) {
            None => {
                return Err(Error::StructuralParse);
            },
            Some((flag, more, next)) => {
                proof {
                    lemma_views_push(flags@, flag);
                }
                flags.push(flag);
                if !more {
                    return Ok((flags, next));
                }
                proof {
                    let rest = spec_flag_chain(data@, next as int);
                    if rest is Some {
                        assert(before + (seq![flag@] + rest->Some_0.0) =~= views(flags@)
                            + rest->Some_0.0);
                    }
                }
                cur = next;
            },
        }
    }
}

/// The descriptor of one sample.
#[derive(Debug, PartialEq, Eq)]
pub struct Sample {
    /// The packed word at its head.
    pub info: SampleInfo,
    /// Its flag records; none where the word announces none.
    pub flags: Vec<SampleFlag>,
}

/// What a sample descriptor holds.
pub struct SampleView {
    pub info: SampleInfo,
    pub flags: Seq<FlagView>,
}

impl View for Sample {
    type V = SampleView;

    open spec fn view(&self) -> SampleView {
        SampleView { info: self.info, flags: views(self.flags@) }
    }
}

/// The descriptor that starts at `pos`, and where it ends; `None` where
/// the input ends inside it.
pub open spec fn spec_sample(data: Seq<u8>, pos: int) -> Option<(SampleView, int)> {
    if pos < 0 || pos + 8 > data.len() {
        None
    } else {
        let info = SampleInfo { value: le_u64_at(data, pos) as u64 };
        if info.spec_has_flags() {
            match spec_flag_chain(data, pos + 8) {
                Some((flags, end)) => Some((SampleView { info, flags }, end)),
                None => None,
            }
        } else {
            Some((SampleView { info, flags: Seq::empty() }, pos + 8))
        }
    }
}

/// The `count` descriptors that start at `pos`, one behind the other, and
/// where the last one ends; `None` where the input ends before that.
pub open spec fn spec_samples(data: Seq<u8>, pos: int, count: nat) -> Option<
    (Seq<SampleView>, int),
>
    decreases count,
{
    if count == 0 {
        Some((Seq::empty(), pos))
    } else {
        match spec_samples(data, pos, (count - 1) as nat) {
            None => None,
            Some((before, at)) => match spec_sample(data, at) {
                None => None,
                Some((sample, end)) => Some((before.push(sample), end)),
            },
        }
    }
}

/// Where the name that starts at `pos` ends: the place of the first zero
/// byte from `pos` on, or the end of the input where there is none.
pub open spec fn spec_name_end(data: Seq<u8>, pos: int) -> int
    decreases data.len() - pos,
{
    if pos < 0 || pos >= data.len() {
        data.len() as int
    } else if data[pos] == 0 {
        pos
    } else {
        spec_name_end(data, pos + 1)
    }
}

/// A name ends at the first zero byte: none lies before its end, and one
/// lies there unless the input ends first.
pub proof fn lemma_name_end(data: Seq<u8>, pos: int)
    requires
        0 <= pos <= data.len(),
    ensures
        pos <= spec_name_end(data, pos) <= data.len(),
        forall|i: int| pos <= i < spec_name_end(data, pos) ==> #[trigger] data[i] != 0,
        spec_name_end(data, pos) < data.len() ==> data[spec_name_end(data, pos)] == 0,
    decreases data.len() - pos,
{
    if pos < data.len() && data[pos] != 0 {
        lemma_name_end(data, pos + 1);
    }
}

/// The name that starts at `pos`, without the zero byte that ends it, and
/// the place behind that byte; `None` where no zero byte follows.
pub open spec fn spec_name(data: Seq<u8>, pos: int) -> Option<(Seq<u8>, int)> {
    let end = spec_name_end(data, pos);
    if 0 <= pos && end < data.len() {
        Some((data.subrange(pos, end), end + 1))
    } else {
        None
    }
}

/// The `count` names that start at `pos`, one behind the other, and where
/// the last one ends; `None` where the input ends before that.
pub open spec fn spec_names(data: Seq<u8>, pos: int, count: nat) -> Option<(Seq<Seq<u8>>, int)>
    decreases count,
{
    if count == 0 {
        Some((Seq::empty(), pos))
    } else {
        match spec_names(data, pos, (count - 1) as nat) {
            None => None,
            Some((before, at)) => match spec_name(data, at) {
                None => None,
                Some((name, end)) => Some((before.push(name), end)),
            },
        }
    }
}

/// Descriptors that cannot be read to one count cannot be read to a
/// greater one.
pub proof fn lemma_samples_none(data: Seq<u8>, pos: int, fewer: nat, count: nat)
    requires
        fewer <= count,
        spec_samples(data, pos, fewer) is None,
    ensures
        spec_samples(data, pos, count) is None,
    decreases count,
{
    if fewer < count {
        lemma_samples_none(data, pos, fewer, (count - 1) as nat);
    }
}

/// Names that cannot be read to one count cannot be read to a greater one.
pub proof fn lemma_names_none(data: Seq<u8>, pos: int, fewer: nat, count: nat)
    requires
        fewer <= count,
        spec_names(data, pos, fewer) is None,
    ensures
        spec_names(data, pos, count) is None,
    decreases count,
{
    if fewer < count {
        lemma_names_none(data, pos, fewer, (count - 1) as nat);
    }
}

/// Reading one descriptor more, behind those already read.
pub proof fn lemma_samples_step(
    data: Seq<u8>,
    pos: int,
    count: nat,
    before: Seq<SampleView>,
    at: int,
)
    requires
        spec_samples(data, pos, count) == Some((before, at)),
    ensures
        spec_samples(data, pos, count + 1) == match spec_sample(data, at) {
            None => None::<(Seq<SampleView>, int)>,
            Some((sample, end)) => Some((before.push(sample), end)),
        },
{
}

/// Reading one name more, behind those already read.
pub proof fn lemma_names_step(data: Seq<u8>, pos: int, count: nat, before: Seq<Seq<u8>>, at: int)
    requires
        spec_names(data, pos, count) == Some((before, at)),
    ensures
        spec_names(data, pos, count + 1) == match spec_name(data, at) {
            None => None::<(Seq<Seq<u8>>, int)>,
            Some((name, end)) => Some((before.push(name), end)),
        },
{
}

/// As many descriptors are read as were asked for.
pub proof fn lemma_samples_len(data: Seq<u8>, pos: int, count: nat)
    requires
        spec_samples(data, pos, count) is Some,
    ensures
        spec_samples(data, pos, count)->Some_0.0.len() == count,
    decreases count,
{
    if count > 0 {
        lemma_samples_len(data, pos, (count - 1) as nat);
    }
}

/// As many names are read as were asked for.
pub proof fn lemma_names_len(data: Seq<u8>, pos: int, count: nat)
    requires
        spec_names(data, pos, count) is Some,
    ensures
        spec_names(data, pos, count)->Some_0.0.len() == count,
    decreases count,
{
    if count > 0 {
        lemma_names_len(data, pos, (count - 1) as nat);
    }
}

/// Reads the descriptor that starts at `pos`.
fn parse_sample(data: &[u8], pos: usize) -> (r: Option<(Sample, usize)>)
    ensures
        match spec_sample(data@, pos as int) {
            Some((sample, end)) => r is Some && r->Some_0.0@ == sample && r->Some_0.1 == end,
            None => r is None,
        },
        r is Some ==> pos + 8 <= r->Some_0.1 <= data@.len(),
{
    let info = match read_u64_le(data, pos) {
        Some(word) => SampleInfo::from(word),
        None => { return None; },
    };
    if info.has_flags() {
        match flag_parser(data, pos + 8) {
            Ok((flags, end)) => Some((Sample { info, flags }, end)),
            Err(_) => None,
        }
    } else {
        let flags: Vec<SampleFlag> = Vec::new();
        assert(views(flags@) =~= Seq::<FlagView>::empty());
        Some((Sample { info, flags }, pos + 8))
    }
}

/// Reads the name that starts at `pos`.
fn parse_name(data: &[u8], pos: usize) -> (r: Option<(Vec<u8>, usize)>)
    ensures
        match spec_name(data@, pos as int) {
            Some((name, end)) => r is Some && r->Some_0.0@ == name && r->Some_0.1 == end,
            None => r is None,
        },
        r is Some ==> pos < r->Some_0.1 <= data@.len(),
{
    let mut name: Vec<u8> = Vec::new();
    let mut cur: usize = pos;
    while cur < data.len()
        invariant
            pos <= cur,
            cur > pos ==> cur <= data@.len(),
            spec_name_end(data@, pos as int) == spec_name_end(data@, cur as int),
            cur <= data@.len() ==> name@ == data@.subrange(pos as int, cur as int),
        decreases data@.len() - cur,
    {
        let byte = data[cur];
        if byte == 0 {
            return Some((name, cur + 1));
        }
        name.push(byte);
        cur += 1;
    }
    None
}

/// Reads the `count` descriptors that start at `pos`.
fn parse_samples(data: &[u8], pos: usize, count: u32) -> (r: Option<(Vec<Sample>, usize)>)
    requires
        pos <= data@.len(),
    ensures
        match spec_samples(data@, pos as int, count as nat) {
            Some((samples, end)) => r is Some && views(r->Some_0.0@) == samples && r->Some_0.1
                == end,
            None => r is None,
        },
        r is Some ==> r->Some_0.0@.len() == count && pos <= r->Some_0.1 <= data@.len(),
{
    let mut samples: Vec<Sample> = Vec::new();
    let mut cur: usize = pos;
    let mut i: u32 = 0;
    while i < count
        invariant
            i <= count,
            pos <= cur <= data@.len(),
            samples@.len() == i,
            spec_samples(data@, pos as int, i as nat) == Some((views(samples@), cur as int)),
        decreases count - i,
    {
        proof {
            lemma_samples_step(data@, pos as int, i as nat, views(samples@), cur as int);
        }
        match parse_sample(data, cur) {
            None => {
                proof {
                    lemma_samples_none(data@, pos as int, (i + 1) as nat, count as nat);
                }
                return None;
            },
            Some((sample, end)) => {
                proof {
                    lemma_views_push(samples@, sample);
                }
                samples.push(sample);
                cur = end;
                i += 1;
            },
        }
    }
    Some((samples, cur))
}

/// Reads the `count` names that start at `pos`.
fn parse_names(data: &[u8], pos: usize, count: u32) -> (r: Option<(Vec<Vec<u8>>, usize)>)
    requires
        pos <= data@.len(),
    ensures
        match spec_names(data@, pos as int, count as nat) {
            Some((names, end)) => r is Some && views(r->Some_0.0@) == names && r->Some_0.1 == end,
            None => r is None,
        },
        r is Some ==> r->Some_0.0@.len() == count && pos <= r->Some_0.1 <= data@.len(),
{
    let mut names: Vec<Vec<u8>> = Vec::new();
    let mut cur: usize = pos;
    let mut i: u32 = 0;
    while i < count
        invariant
            i <= count,
            pos <= cur <= data@.len(),
            names@.len() == i,
            spec_names(data@, pos as int, i as nat) == Some((views(names@), cur as int)),
        decreases count - i,
    {
        proof {
            lemma_names_step(data@, pos as int, i as nat, views(names@), cur as int);
        }
        match parse_name(data, cur) {
            None => {
                proof {
                    lemma_names_none(data@, pos as int, (i + 1) as nat, count as nat);
                }
                return None;
            },
            Some((name, end)) => {
                proof {
                    lemma_views_push(names@, name);
                }
                names.push(name);
                cur = end;
                i += 1;
            },
        }
    }
    Some((names, cur))
}

/// A bank, as its header and tables describe it.
#[derive(Debug, PartialEq, Eq)]
pub struct Fsb {
    /// Version of the format: 0 or 1.
    pub version: u32,
    /// Declared size of the sample descriptors in bytes.
    pub sample_header_size: u32,
    /// Declared size of the name table in bytes; zero where there is none.
    pub name_table_size: u32,
    /// Declared size of the sample data in bytes.
    pub sample_data_size: u32,
    /// How the samples are encoded.
    pub codec: Codec,
    /// Flags of the bank, not interpreted here.
    pub flags: [u8; 4],
    /// Identifier of the bank.
    pub guid: [u8; 16],
    /// Hash of the bank.
    pub hash: [u8; 8],
    /// The sample descriptors, in the order of the bank.
    pub samples: Vec<Sample>,
    /// The names of the samples, in the same order; empty where the bank
    /// has no name table.
    pub names: Vec<Vec<u8>>,
}

/// What a bank's header and tables hold.
pub struct FsbView {
    pub version: u32,
    pub sample_header_size: u32,
    pub name_table_size: u32,
    pub sample_data_size: u32,
    pub codec: Codec,
    pub flags: Seq<u8>,
    pub guid: Seq<u8>,
    pub hash: Seq<u8>,
    pub samples: Seq<SampleView>,
    pub names: Seq<Seq<u8>>,
}

impl View for Fsb {
    type V = FsbView;

    open spec fn view(&self) -> FsbView {
        FsbView {
            version: self.version,
            sample_header_size: self.sample_header_size,
            name_table_size: self.name_table_size,
            sample_data_size: self.sample_data_size,
            codec: self.codec,
            flags: self.flags@,
            guid: self.guid@,
            hash: self.hash@,
            samples: views(self.samples@),
            names: views(self.names@),
        }
    }
}

/// The tag `FSB5` that every bank starts with.
pub open spec fn fsb_magic() -> Seq<u8> {
    seq![0x46u8, 0x53u8, 0x42u8, 0x35u8]
}

/// Bytes of padding between the codec identifier and the flags.
pub open spec fn spec_padding(version: int) -> int {
    if version == 0 {
        8
    } else {
        4
    }
}

/// The bank that `data` starts with, and where its tables end; `None`
/// where `data` does not start with the tag, names a version other than 0
/// and 1 or a codec that is none, or ends inside the header or the tables.
pub open spec fn spec_fsb(data: Seq<u8>) -> Option<(FsbView, int)> {
    if data.len() < 28 || data.subrange(0, 4) != fsb_magic() {
        None
    } else {
        let version = le_u32_at(data, 4);
        let count = le_u32_at(data, 8);
        let name_table_size = le_u32_at(data, 16);
        let codec = Codec::spec_from_id(le_u32_at(data, 24));
        let at = 28 + spec_padding(version);
        if version > 1 || codec is None || data.len() < at + 28 {
            None
        } else {
            match spec_samples(data, at + 28, count as nat) {
                None => None,
                Some((samples, tables)) => {
                    let names = if name_table_size > 0 {
                        spec_names(data, tables + 4 * count, count as nat)
                    } else {
                        Some((Seq::empty(), tables))
                    };
                    match names {
                        None => None,
                        Some((names, end)) => Some(
                            (
                                FsbView {
                                    version: version as u32,
                                    sample_header_size: le_u32_at(data, 12) as u32,
                                    name_table_size: name_table_size as u32,
                                    sample_data_size: le_u32_at(data, 20) as u32,
                                    codec: codec->Some_0,
                                    flags: data.subrange(at, at + 4),
                                    guid: data.subrange(at + 4, at + 20),
                                    hash: data.subrange(at + 20, at + 28),
                                    samples,
                                    names,
                                },
                                end,
                            ),
                        ),
                    }
                },
            }
        }
    }
}

/// A bank that is read has as many samples as its header announces, and
/// either a name for every sample or no names at all.
pub proof fn lemma_fsb_counts(data: Seq<u8>)
    requires
        spec_fsb(data) is Some,
    ensures
        spec_fsb(data)->Some_0.0.samples.len() == le_u32_at(data, 8),
        spec_fsb(data)->Some_0.0.names.len() == 0 || spec_fsb(data)->Some_0.0.names.len()
            == spec_fsb(data)->Some_0.0.samples.len(),
        spec_fsb(data)->Some_0.0.name_table_size == 0 ==> spec_fsb(data)->Some_0.0.names.len()
            == 0,
{
    let count = le_u32_at(data, 8) as nat;
    let at = 28 + spec_padding(le_u32_at(data, 4));
    lemma_samples_len(data, at + 28, count);
    let tables = spec_samples(data, at + 28, count)->Some_0.1;
    if le_u32_at(data, 16) > 0 {
        lemma_names_len(data, tables + 4 * count, count);
    }
}

impl Fsb {
    /// A bank has either a name for every sample or no names at all.
    pub open spec fn wf(&self) -> bool {
        self.names@.len() == 0 || self.names@.len() == self.samples@.len()
    }

    /// Reads the header and the tables of the bank that `data` starts with,
    /// and says where the tables end.
    pub fn read(data: &[u8]) -> (r: Result<(Fsb, usize), Error>)
        ensures
            match spec_fsb(data@) {
                Some((fsb, end)) => r is Ok && r->Ok_0.0@ == fsb && r->Ok_0.1 == end,
                None => r is Err && r->Err_0 == Error::StructuralParse,
            },
            r is Ok ==> r->Ok_0.0.wf() && r->Ok_0.1 <= data@.len() && r->Ok_0.0.samples@.len()
                == le_u32_at(data@, 8),
    {
        if !has_bytes(data, 0, 28) {
            return Err(Error::StructuralParse);
        }
        let magic = get_array4(data, 0);
        if magic[0] != 0x46 || magic[1] != 0x53 || magic[2] != 0x42 || magic[3] != 0x35 {
            return Err(Error::StructuralParse);
        }
        assert(data@.subrange(0, 4) =~= fsb_magic());
        let version = get_u32_le(data, 4);
        let count = get_u32_le(data, 8);
        let sample_header_size = get_u32_le(data, 12);
        let name_table_size = get_u32_le(data, 16);
        let sample_data_size = get_u32_le(data, 20);
        let codec = match Codec::from_id(get_u32_le(data, 24)) {
            Some(codec) => codec,
            None => { return Err(Error::StructuralParse); },
        };
        if version > 1 {
            return Err(Error::StructuralParse);
        }
        let at: usize = if version == 0 {
            36
        } else {
            32
        };
        if !has_bytes(data, at, 28) {
            return Err(Error::StructuralParse);
        }
        let flags = get_array4(data, at);
        let guid = get_array16(data, at + 4);
        let hash = get_array8(data, at + 20);
        let (samples, tables) = match parse_samples(data, at + 28, count) {
            Some(found) => found,
            None => { return Err(Error::StructuralParse); },
        };
        let (names, end) = if name_table_size > 0 {
            if count as usize > (data.len() - tables) / 4 {
                proof {
                    let first = tables + 4 * count;
                    lemma_names_step(data@, first, 0, Seq::empty(), first);
                    lemma_names_none(data@, first, 1, count as nat);
                }
                return Err(Error::StructuralParse);
            }
            match parse_names(data, tables + 4 * (count as usize), count) {
                Some(found) => found,
                None => { return Err(Error::StructuralParse); },
            }
        } else {
            let none: Vec<Vec<u8>> = Vec::new();
            assert(views(none@) =~= Seq::<Seq<u8>>::empty());
            (none, tables)
        };
        Ok(
            (
                Fsb {
                    version,
                    sample_header_size,
                    name_table_size,
                    sample_data_size,
                    codec,
                    flags,
                    guid,
                    hash,
                    samples,
                    names,
                },
                end,
            ),
        )
    }
}

} // verus!
