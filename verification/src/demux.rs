//! Repackaging the samples of a bank.
//!
//! A sample's data lies between its own offset and the offset of the next
//! sample, or the end of the sample data for the last one. Its flag chain
//! holds one configuration word per stream. Every stream gets a header of
//! its own and its share of the sample's blocks.

use vstd::prelude::*;
use vstd::arithmetic::div_mod::{
    lemma_fundamental_div_mod, lemma_fundamental_div_mod_converse, lemma_mod_bound,
};
use vstd::slice::slice_subrange;
use vstd::string::*;
use crate::at9_config::{decode_word, lemma_decode_word_wf, word_is_valid, At9Config, SYNC_CODE};
use crate::at9_header::{Atrac9Header, HEADER_REMAINDER};
use crate::error::Error;
use crate::blocks::{
    all_dealt, block_start, dealt, distribute, lemma_block_start_none, lemma_dealt_total,
    lemma_even_split, lemma_single_stream, sizes_positive, sizes_uniform, spec_block_count,
    total_len,
};
use crate::fsb::{lemma_views_push, spec_fsb, views, Codec, FlagView, Fsb, FsbView, SampleFlag};
use crate::text::{decimal, decimal_digits, name_text, spec_name_text};
use crate::wire::{be_u32_at, push_bytes};

verus! {

/// The sample data starts at a multiple of this many bytes.
pub const DATA_ALIGNMENT: u64 = 32;

/// Sample offsets count units of this many bytes.
pub const OFFSET_UNIT: u64 = 32;

/// How many bytes lie between `pos` and the next multiple of `align_num`
/// at or behind it.
pub open spec fn spec_bytes_to_align(pos: int, align_num: int) -> int {
    if pos % align_num != 0 {
        align_num - pos % align_num
    } else {
        0
    }
}

/// How many bytes lie between `pos` and the next multiple of `align_num`
/// at or behind it.
pub fn bytes_to_align(pos: u64, align_num: u64) -> (r: u64)
    requires
        align_num > 0,
    ensures
        r == spec_bytes_to_align(pos as int, align_num as int),
        r < align_num,
        is_aligned(pos + r, align_num as int),
{
    proof {
        lemma_bytes_to_align(pos as int, align_num as int);
    }
    if pos % align_num != 0 {
        align_num - pos % align_num
    } else {
        0
    }
}

/// Whether `pos` is a multiple of `align_num`.
pub open spec fn is_aligned(pos: int, align_num: int) -> bool {
    pos % align_num == 0
}

/// What `bytes_to_align` gives brings `pos` to the first multiple of
/// `align_num` at or behind it.
pub proof fn lemma_bytes_to_align(pos: int, align_num: int)
    requires
        0 <= pos,
        0 < align_num,
    ensures
        0 <= spec_bytes_to_align(pos, align_num) < align_num,
        is_aligned(pos + spec_bytes_to_align(pos, align_num), align_num),
        forall|at: int|
            pos <= at < pos + spec_bytes_to_align(pos, align_num) ==> !#[trigger] is_aligned(
                at,
                align_num,
            ),
{
    let q = pos / align_num;
    let r = pos % align_num;
    lemma_fundamental_div_mod(pos, align_num);
    lemma_mod_bound(pos, align_num);
    if r != 0 {
        assert(pos + (align_num - r) == (q + 1) * align_num + 0) by (nonlinear_arith)
            requires
                pos == align_num * q + r,
        ;
        lemma_fundamental_div_mod_converse(pos + (align_num - r), align_num, q + 1, 0);
        assert forall|at: int| pos <= at < pos + (align_num - r) implies !#[trigger] is_aligned(
            at,
            align_num,
        ) by {
            assert(at == q * align_num + (r + at - pos)) by (nonlinear_arith)
                requires
                    pos == align_num * q + r,
            ;
            lemma_fundamental_div_mod_converse(at, align_num, q, r + at - pos);
        }
    }
}

/// The payload of the first configuration record from `from` on, if there
/// is one.
pub open spec fn spec_find_config_from(flags: Seq<FlagView>, from: int) -> Option<Seq<u8>>
    decreases flags.len() - from,
{
    if from < 0 || from >= flags.len() {
        None
    } else {
        match flags[from] {
            FlagView::Atrac9Config(blob) => Some(blob),
            _ => spec_find_config_from(flags, from + 1),
        }
    }
}

/// The payload of the first configuration record of a chain, if there is
/// one.
pub open spec fn spec_find_config(flags: Seq<FlagView>) -> Option<Seq<u8>> {
    spec_find_config_from(flags, 0)
}

/// The configuration that is found is that of the first configuration
/// record from `from` on, and none is found only where there is no such
/// record.
pub proof fn lemma_find_config_from(flags: Seq<FlagView>, from: int)
    requires
        0 <= from,
    ensures
        match spec_find_config_from(flags, from) {
            Some(blob) => exists|i: int|
                from <= i < flags.len() && #[trigger] flags[i] == FlagView::Atrac9Config(blob)
                    && forall|j: int| from <= j < i ==> !(#[trigger] flags[j] is Atrac9Config),
            None => forall|j: int| from <= j < flags.len() ==> !(#[trigger] flags[j] is Atrac9Config),
        },
    decreases flags.len() - from,
{
    if from < flags.len() {
        if flags[from] is Atrac9Config {
            assert(flags[from] == FlagView::Atrac9Config(flags[from]->Atrac9Config_0));
        } else {
            lemma_find_config_from(flags, from + 1);
            match spec_find_config_from(flags, from + 1) {
                Some(blob) => {
                    let i = choose|i: int|
                        from + 1 <= i < flags.len() && #[trigger] flags[i]
                            == FlagView::Atrac9Config(blob) && forall|j: int|
                            from + 1 <= j < i ==> !(#[trigger] flags[j] is Atrac9Config);
                    assert(from <= i < flags.len() && flags[i] == FlagView::Atrac9Config(blob)
                        && forall|j: int| from <= j < i ==> !(#[trigger] flags[j] is Atrac9Config));
                },
                None => {},
            }
        }
    }
}

/// Finds the ATRAC9 configuration among the flag records of a sample: the
/// payload of the first record of that type.
pub fn find_at9_config(flags: &Vec<SampleFlag>) -> (r: Result<&Vec<u8>, Error>)
    ensures
        match spec_find_config(views(flags@)) {
            Some(blob) => r is Ok && r->Ok_0@ == blob,
            None => r is Err && r->Err_0 == Error::MissingMetadata,
        },
{
    let mut i: usize = 0;
    while i < flags.len()
        invariant
            i <= flags@.len(),
            spec_find_config(views(flags@)) == spec_find_config_from(views(flags@), i as int),
        decreases flags@.len() - i,
    {
        match &flags[i] {
            SampleFlag::Atrac9Config(config) => {
                return Ok(config);
            },
            _ => {},
        }
        i += 1;
    }
    Err(Error::MissingMetadata)
}

/// Where a sample's data ends, by the offsets of the bank: at the offset
/// of the next sample, or at the end of the sample data for the last one.
pub open spec fn spec_sample_end(fsb: FsbView, index: int) -> int {
    if index + 1 < fsb.samples.len() {
        OFFSET_UNIT * fsb.samples[index + 1].info.spec_data_offset()
    } else {
        fsb.sample_data_size as int
    }
}

/// How many bytes of data the sample at `index` has: from its own offset
/// to the offset of the next sample, or to the end of the sample data for
/// the last one; `None` where that end lies before its start.
pub open spec fn spec_extent(fsb: FsbView, index: int) -> Option<int> {
    let start = OFFSET_UNIT * fsb.samples[index].info.spec_data_offset();
    let end = spec_sample_end(fsb, index);
    if start <= end {
        Some(end - start)
    } else {
        None
    }
}

/// How many bytes of data the sample at `index` has.
///
/// The sample is refused where the next sample, or the end of the sample
/// data, lies before its start.
pub fn sample_extent(fsb: &Fsb, index: usize) -> (r: Result<u32, Error>)
    requires
        index < fsb.samples@.len(),
    ensures
        match spec_extent(fsb@, index as int) {
            Some(extent) => r == Ok::<u32, Error>(extent as u32) && extent <= u32::MAX,
            None => r == Err::<u32, Error>(Error::StructuralParse),
        },
{
    let count = fsb.samples.len();
    let start: u64 = OFFSET_UNIT * (fsb.samples[index].info.data_offset() as u64);
    let end: u64 = if index + 1 < count {
        OFFSET_UNIT * (fsb.samples[index + 1].info.data_offset() as u64)
    } else {
        fsb.sample_data_size as u64
    };
    if start <= end {
        Ok((end - start) as u32)
    } else {
        Err(Error::StructuralParse)
    }
}

/// The configuration words of a record's payload, four bytes each.
///
/// Where the payload does not start with the sync code, its first four
/// bytes are no word and are left out. `None` where the payload is empty,
/// is shorter than what is left out, or does not end with a whole word.
pub open spec fn spec_config_words(blob: Seq<u8>) -> Option<Seq<[u8; 4]>> {
    if blob.len() == 0 {
        None
    } else {
        let skip = if blob[0] == SYNC_CODE {
            0int
        } else {
            4int
        };
        if blob.len() < skip || (blob.len() - skip) % 4 != 0 {
            None
        } else {
            Some(
                Seq::new(
                    ((blob.len() - skip) / 4) as nat,
                    |k: int|
                        [
                            blob[skip + 4 * k],
                            blob[skip + 4 * k + 1],
                            blob[skip + 4 * k + 2],
                            blob[skip + 4 * k + 3],
                        ],
                ),
            )
        }
    }
}

/// Cuts the payload of a configuration record into its words.
///
/// Where the payload does not start with the sync code, its first four
/// bytes are no word and are left out.
pub fn at9_config_words(blob: &[u8]) -> (r: Result<Vec<[u8; 4]>, Error>)
    ensures
        match spec_config_words(blob@) {
            Some(words) => r is Ok && r->Ok_0@ == words,
            None => r is Err && r->Err_0 == Error::StructuralParse,
        },
{
    if blob.len() == 0 {
        return Err(Error::StructuralParse);
    }
    let skip: usize = if blob[0] == SYNC_CODE {
        0
    } else {
        4
    };
    if blob.len() < skip || (blob.len() - skip) % 4 != 0 {
        return Err(Error::StructuralParse);
    }
    let count: usize = (blob.len() - skip) / 4;
    let mut words: Vec<[u8; 4]> = Vec::new();
    let mut k: usize = 0;
    while k < count
        invariant
            k <= count,
            count == (blob@.len() - skip) / 4,
            (blob@.len() - skip) % 4 == 0,
            skip <= blob@.len() <= usize::MAX,
            words@.len() == k,
            forall|i: int|
                0 <= i < k ==> words@[i] == spec_config_words(blob@)->Some_0[i],
            spec_config_words(blob@) is Some,
            spec_config_words(blob@)->Some_0.len() == count,
        decreases count - k,
    {
        let at: usize = skip + 4 * k;
        words.push([blob[at], blob[at + 1], blob[at + 2], blob[at + 3]]);
        k += 1;
    }
    Ok(words)
}

/// The name of the sample at `index`: the text of its name in the bank's
/// name table, or, where the bank has none for it, its number, counted
/// from one.
pub open spec fn spec_sample_name(fsb: FsbView, index: int) -> Seq<char> {
    if index < fsb.names.len() {
        spec_name_text(fsb.names[index])
    } else {
        decimal_digits((index + 1) as nat)
    }
}

/// The name of the sample at `index`: the text of its name in the bank's
/// name table, or, where the bank has none for it, its number, counted
/// from one.
pub fn sample_name(fsb: &Fsb, index: usize) -> (r: String)
    requires
        index < fsb.samples@.len(),
    ensures
        r@ == spec_sample_name(fsb@, index as int),
{
    if index < fsb.names.len() {
        name_text(fsb.names[index].as_slice())
    } else {
        assert(fsb.samples@.len() == fsb.samples.len());
        decimal(index + 1)
    }
}

/// The ending `.at9` of every stream's path.
pub open spec fn path_suffix() -> Seq<char> {
    seq!['.', 'a', 't', '9']
}

/// Where a stream goes: a sample with one stream is named after the
/// sample; the streams of a sample with several are numbered from one, in
/// a directory named after the sample.
pub open spec fn spec_stream_path(name: Seq<char>, is_multichannel: bool, i: int) -> Seq<char> {
    if is_multichannel {
        name + seq!['/'] + decimal_digits((i + 1) as nat) + path_suffix()
    } else {
        name + path_suffix()
    }
}

/// One stream of a sample, ready to be written.
#[derive(Debug, PartialEq, Eq)]
pub struct OutputStream {
    /// Where the stream goes, relative to where the bank is unpacked.
    pub path: String,
    /// Size of the blocks that the stream is dealt in: one superframe.
    pub superframe_bytes: u16,
    /// The playback parameters of the stream.
    pub config: At9Config,
    /// The header that goes in front of the stream.
    pub header: Atrac9Header,
    /// The stream itself.
    pub payload: Vec<u8>,
}

/// What a stream holds.
pub struct StreamView {
    pub path: Seq<char>,
    pub superframe_bytes: u16,
    pub config: At9Config,
    pub header: Atrac9Header,
    pub payload: Seq<u8>,
}

impl View for OutputStream {
    type V = StreamView;

    open spec fn view(&self) -> StreamView {
        StreamView {
            path: self.path@,
            superframe_bytes: self.superframe_bytes,
            config: self.config,
            header: self.header,
            payload: self.payload@,
        }
    }
}

impl OutputStream {
    /// What the file of the stream holds: the header, then the stream.
    pub fn contents(&self) -> (r: Vec<u8>)
        ensures
            r@ == self.header.spec_bytes() + self.payload@,
    {
        let mut bytes = self.header.to_bytes();
        push_bytes(&mut bytes, self.payload.as_slice());
        bytes
    }
}

/// The stream of `size` bytes that the word `at9_config` describes, with
/// `payload` for its data.
pub open spec fn spec_stream(
    name: Seq<char>,
    size: u32,
    num_samples: u32,
    is_multichannel: bool,
    i: int,
    at9_config: [u8; 4],
    payload: Seq<u8>,
) -> StreamView {
    let config = decode_word(be_u32_at(at9_config@, 0));
    StreamView {
        path: spec_stream_path(name, is_multichannel, i),
        superframe_bytes: config.spec_superframe_bytes() as u16,
        config,
        header: Atrac9Header::spec_new(config, num_samples, size, at9_config),
        payload,
    }
}

/// Sets up stream number `i` of the sample called `name`: its path, its
/// playback parameters and its header, with no data yet.
///
/// `size` is the size of the stream in bytes, `num_samples` the number of
/// samples in it, and `at9_config` its configuration word; the stream is
/// refused where the word is.
pub fn create_out_file(
    name: &str,
    size: u32,
    num_samples: u32,
    is_multichannel: bool,
    i: usize,
    at9_config: [u8; 4],
) -> (r: Result<OutputStream, Error>)
    requires
        size + HEADER_REMAINDER <= u32::MAX,
        i < usize::MAX,
    ensures
        word_is_valid(be_u32_at(at9_config@, 0)) ==> r is Ok && r->Ok_0@ == spec_stream(
            name@,
            size,
            num_samples,
            is_multichannel,
            i as int,
            at9_config,
            Seq::empty(),
        ),
        !word_is_valid(be_u32_at(at9_config@, 0)) ==> r is Err && r->Err_0
            == Error::StructuralParse,
        r is Ok ==> r->Ok_0.config.wf() && r->Ok_0.superframe_bytes > 0,
{
    proof {
        reveal_strlit("/");
        reveal_strlit(".at9");
    }
    let mut path = String::from_str(name);
    if is_multichannel {
        path.append("/");
        let number = decimal(i + 1);
        path.append(number.as_str());
    }
    path.append(".at9");
    assert(path@ =~= spec_stream_path(name@, is_multichannel, i as int));

    let config = match At9Config::parse(at9_config) {
        Ok(config) => config,
        Err(e) => { return Err(e); },
    };
    let superframe_bytes = config.superframe_bytes();
    let header = Atrac9Header::new(&config, num_samples, size, at9_config);
    Ok(OutputStream { path, superframe_bytes, config, header, payload: Vec::new() })
}

/// The streams of one sample.
#[derive(Debug, PartialEq, Eq)]
pub struct SampleOutput {
    /// The name of the sample. Where the sample has several streams, they
    /// go into a directory of this name.
    pub name: String,
    /// How many bytes of sample data the sample has.
    pub extent: u32,
    /// The streams, in the order of their configuration words.
    pub streams: Vec<OutputStream>,
}

/// What the streams of one sample hold.
pub struct SampleOutputView {
    pub name: Seq<char>,
    pub extent: u32,
    pub streams: Seq<StreamView>,
}

impl View for SampleOutput {
    type V = SampleOutputView;

    open spec fn view(&self) -> SampleOutputView {
        SampleOutputView { name: self.name@, extent: self.extent, streams: views(self.streams@) }
    }
}

/// Every one of `words` is an accepted configuration word.
pub open spec fn words_valid(words: Seq<[u8; 4]>) -> bool {
    forall|k: int| 0 <= k < words.len() ==> word_is_valid(be_u32_at(#[trigger] words[k]@, 0))
}

/// The block size of each stream: the superframe that its word describes.
pub open spec fn spec_block_sizes(words: Seq<[u8; 4]>) -> Seq<u16> {
    Seq::new(
        words.len(),
        |k: int| decode_word(be_u32_at(words[k]@, 0)).spec_superframe_bytes() as u16,
    )
}

/// The streams of the sample at `index`, where `rest` is the sample data
/// from the start of this sample on.
///
/// The sample has as many streams as its configuration record has words.
/// Each stream is announced with an equal share of the sample's data, and
/// gets the blocks of its turn. The sample is refused: as malformed, where
/// its data would end before it starts, its configuration cannot be cut
/// into accepted words, or a stream would be too large for its header; as
/// lacking its configuration, where it has no such record; as cut short,
/// where the data ends before the sample does or the sample ends inside a
/// block.
#[verifier::opaque]
pub open spec fn spec_demux_sample(fsb: FsbView, index: int, rest: Seq<u8>) -> Result<
    SampleOutputView,
    Error,
> {
    let sample = fsb.samples[index];
    match spec_extent(fsb, index) {
        None => Err(Error::StructuralParse),
        Some(extent) => match spec_find_config(sample.flags) {
            None => Err(Error::MissingMetadata),
            Some(blob) => match spec_config_words(blob) {
                None => Err(Error::StructuralParse),
                Some(words) => {
                    let count = words.len() as int;
                    let size = if count == 0 {
                        0
                    } else {
                        extent / count
                    };
                    if !words_valid(words) || size + HEADER_REMAINDER > u32::MAX {
                        Err(Error::StructuralParse)
                    } else if extent > rest.len() {
                        Err(Error::ShortRead)
                    } else {
                        let region = rest.subrange(0, extent);
                        let sizes = spec_block_sizes(words);
                        let name = spec_sample_name(fsb, index);
                        match spec_block_count(sizes, extent) {
                            None => Err(Error::ShortRead),
                            Some(blocks) => Ok(
                                SampleOutputView {
                                    name,
                                    extent: extent as u32,
                                    streams: Seq::new(
                                        count as nat,
                                        |k: int|
                                            spec_stream(
                                                name,
                                                size as u32,
                                                sample.info.spec_num_samples() as u32,
                                                count > 1,
                                                k,
                                                words[k],
                                                dealt(region, sizes, k, blocks),
                                            ),
                                    ),
                                },
                            ),
                        }
                    }
                },
            },
        },
    }
}

/// The data of each of `streams`.
pub open spec fn payloads_of(streams: Seq<StreamView>) -> Seq<Seq<u8>> {
    Seq::new(streams.len(), |k: int| streams[k].payload)
}

/// No byte of a sample is dropped and none is written twice: the streams
/// of a sample that is repackaged hold, all together, as many bytes as lie
/// between the sample's offset and the next.
pub proof fn lemma_sample_bytes_conserved(fsb: FsbView, index: int, rest: Seq<u8>)
    requires
        0 <= index < fsb.samples.len(),
        spec_demux_sample(fsb, index, rest) is Ok,
    ensures
        spec_extent(fsb, index) == Some(
            total_len(payloads_of(spec_demux_sample(fsb, index, rest)->Ok_0.streams)),
        ),
        spec_demux_sample(fsb, index, rest)->Ok_0.extent == total_len(
            payloads_of(spec_demux_sample(fsb, index, rest)->Ok_0.streams),
        ),
{
    reveal(spec_demux_sample);
    let output = spec_demux_sample(fsb, index, rest)->Ok_0;
    let extent = spec_extent(fsb, index)->Some_0;
    let words = spec_config_words(spec_find_config(fsb.samples[index].flags)->Some_0)->Some_0;
    let sizes = spec_block_sizes(words);
    let region = rest.subrange(0, extent);
    let blocks = spec_block_count(sizes, extent)->Some_0;
    assert(block_start(sizes, blocks) == extent);
    if words.len() == 0 {
        lemma_block_start_none(sizes, blocks);
        assert(payloads_of(output.streams) =~= Seq::<Seq<u8>>::empty());
    } else {
        assert forall|k: int| 0 <= k < sizes.len() implies #[trigger] sizes[k] > 0 by {
            lemma_decode_word_wf(be_u32_at(words[k]@, 0));
        }
        lemma_dealt_total(region, sizes, blocks);
        assert(payloads_of(output.streams) =~= all_dealt(region, sizes, blocks));
    }
}

/// A sample with a single stream is repackaged unchanged: the stream is
/// the sample's data, byte for byte.
pub proof fn lemma_single_stream_unchanged(fsb: FsbView, index: int, rest: Seq<u8>)
    requires
        0 <= index < fsb.samples.len(),
        spec_demux_sample(fsb, index, rest) is Ok,
        spec_demux_sample(fsb, index, rest)->Ok_0.streams.len() == 1,
    ensures
        spec_demux_sample(fsb, index, rest)->Ok_0.streams[0].payload == rest.subrange(
            0,
            spec_demux_sample(fsb, index, rest)->Ok_0.extent as int,
        ),
{
    reveal(spec_demux_sample);
    let extent = spec_extent(fsb, index)->Some_0;
    let words = spec_config_words(spec_find_config(fsb.samples[index].flags)->Some_0)->Some_0;
    let sizes = spec_block_sizes(words);
    let region = rest.subrange(0, extent);
    let blocks = spec_block_count(sizes, extent)->Some_0;
    lemma_decode_word_wf(be_u32_at(words[0]@, 0));
    assert forall|k: int| 0 <= k < sizes.len() implies #[trigger] sizes[k] > 0 by {}
    lemma_single_stream(region, sizes, blocks);
    assert(region.subrange(0, extent) =~= region);
}

/// A sample whose streams all have blocks of `size` bytes is repackaged
/// whole where its data can be shared out evenly among the streams and
/// each share is a whole number of blocks: every stream then holds its
/// share, as its header announces it.
pub proof fn lemma_sample_even_split(fsb: FsbView, index: int, rest: Seq<u8>, size: u16)
    requires
        0 <= index < fsb.samples.len(),
        spec_extent(fsb, index) is Some,
        spec_extent(fsb, index)->Some_0 <= rest.len(),
        spec_find_config(fsb.samples[index].flags) is Some,
        spec_config_words(spec_find_config(fsb.samples[index].flags)->Some_0) is Some,
        ({
            let extent = spec_extent(fsb, index)->Some_0;
            let words = spec_config_words(
                spec_find_config(fsb.samples[index].flags)->Some_0,
            )->Some_0;
            &&& words.len() > 0
            &&& words_valid(words)
            &&& sizes_uniform(spec_block_sizes(words), size)
            &&& extent % (words.len() as int) == 0
            &&& (extent / (words.len() as int)) % (size as int) == 0
            &&& extent / (words.len() as int) + HEADER_REMAINDER <= u32::MAX
        }),
    ensures
        spec_demux_sample(fsb, index, rest) is Ok,
        forall|k: int|
            0 <= k < spec_demux_sample(fsb, index, rest)->Ok_0.streams.len() ==> {
                let stream = #[trigger] spec_demux_sample(fsb, index, rest)->Ok_0.streams[k];
                stream.payload.len() == stream.header.data.len
            },
{
    reveal(spec_demux_sample);
    let extent = spec_extent(fsb, index)->Some_0;
    let words = spec_config_words(spec_find_config(fsb.samples[index].flags)->Some_0)->Some_0;
    let sizes = spec_block_sizes(words);
    let region = rest.subrange(0, extent);
    lemma_decode_word_wf(be_u32_at(words[0]@, 0));
    assert(sizes[0] == size);
    lemma_even_split(region, sizes, size, 0);
    assert forall|k: int|
        0 <= k < spec_demux_sample(fsb, index, rest)->Ok_0.streams.len() implies {
        let stream = #[trigger] spec_demux_sample(fsb, index, rest)->Ok_0.streams[k];
        stream.payload.len() == stream.header.data.len
    } by {
        lemma_even_split(region, sizes, size, k);
    }
}

/// Sets up the streams of a sample, one per configuration word, each of
/// `size` bytes, with no data yet; and lists their block sizes.
fn create_out_files(name: &str, size: u32, num_samples: u32, words: &Vec<[u8; 4]>) -> (r: Result<
    (Vec<OutputStream>, Vec<u16>),
    Error,
>)
    requires
        size + HEADER_REMAINDER <= u32::MAX,
    ensures
        words_valid(words@) ==> r is Ok && r->Ok_0.0@.len() == words@.len() && r->Ok_0.1@
            == spec_block_sizes(words@) && sizes_positive(r->Ok_0.1@) && forall|k: int|
            0 <= k < words@.len() ==> (#[trigger] r->Ok_0.0@[k])@ == spec_stream(
                name@,
                size,
                num_samples,
                words@.len() > 1,
                k,
                words@[k],
                Seq::empty(),
            ),
        !words_valid(words@) ==> r is Err && r->Err_0 == Error::StructuralParse,
{
    let count = words.len();
    let is_multichannel = count > 1;
    let mut streams: Vec<OutputStream> = Vec::new();
    let mut sizes: Vec<u16> = Vec::new();
    let mut k: usize = 0;
    while k < count
        invariant
            k <= count,
            count == words@.len(),
            is_multichannel == (count > 1),
            size + HEADER_REMAINDER <= u32::MAX,
            streams@.len() == k,
            sizes@.len() == k,
            forall|i: int| 0 <= i < k ==> word_is_valid(be_u32_at(#[trigger] words@[i]@, 0)),
            forall|i: int| 0 <= i < k ==> #[trigger] sizes@[i] == spec_block_sizes(words@)[i],
            forall|i: int| 0 <= i < k ==> #[trigger] sizes@[i] > 0,
            forall|i: int|
                0 <= i < k ==> (#[trigger] streams@[i])@ == spec_stream(
                    name@,
                    size,
                    num_samples,
                    is_multichannel,
                    i,
                    words@[i],
                    Seq::empty(),
                ),
        decreases count - k,
    {
        let stream = match create_out_file(
            name,
            size,
            num_samples,
            is_multichannel,
            k,
            words[k],
        ) {
            Ok(stream) => stream,
            Err(e) => {
                return Err(e);
            },
        };
        sizes.push(stream.superframe_bytes);
        streams.push(stream);
        k += 1;
    }
    Ok((streams, sizes))
}

/// Repackages the sample at `index`, where `rest` is the sample data from
/// the start of this sample on.
pub fn demux_sample(fsb: &Fsb, index: usize, rest: &[u8]) -> (r: Result<SampleOutput, Error>)
    requires
        index < fsb.samples@.len(),
    ensures
        match spec_demux_sample(fsb@, index as int, rest@) {
            Ok(output) => r is Ok && r->Ok_0@ == output,
            Err(e) => r is Err && r->Err_0 == e,
        },
        r is Ok ==> r->Ok_0.extent <= rest@.len(),
{
    reveal(spec_demux_sample);
    let extent = match sample_extent(fsb, index) {
        Ok(extent) => extent,
        Err(e) => { return Err(e); },
    };
    let sample = &fsb.samples[index];
    let blob = match find_at9_config(&sample.flags) {
        Ok(blob) => blob,
        Err(e) => { return Err(e); },
    };
    let words = match at9_config_words(blob.as_slice()) {
        Ok(words) => words,
        Err(e) => { return Err(e); },
    };
    let count = words.len();
    let size: u32 = if count == 0 {
        0
    } else {
        (extent as u64 / count as u64) as u32
    };
    if size > u32::MAX - HEADER_REMAINDER {
        return Err(Error::StructuralParse);
    }
    let name = sample_name(fsb, index);
    let num_samples = sample.info.num_samples();
    let (mut streams, sizes) = match create_out_files(name.as_str(), size, num_samples, &words) {
        Ok(made) => made,
        Err(e) => { return Err(e); },
    };
    if extent as usize > rest.len() {
        return Err(Error::ShortRead);
    }
    let region = slice_subrange(rest, 0, extent as usize);
    let mut payloads = match distribute(region, &sizes) {
        Ok(payloads) => payloads,
        Err(e) => { return Err(e); },
    };
    let ghost dealt_out = payloads@;
    let mut k: usize = 0;
    while k < count
        invariant
            k <= count,
            count == words@.len(),
            streams@.len() == count,
            payloads@.len() == count,
            dealt_out.len() == count,
            forall|i: int| k <= i < count ==> payloads@[i] == #[trigger] dealt_out[i],
            forall|i: int|
                k <= i < count ==> (#[trigger] streams@[i])@ == spec_stream(
                    name@,
                    size,
                    num_samples,
                    count > 1,
                    i,
                    words@[i],
                    Seq::empty(),
                ),
            forall|i: int|
                0 <= i < k ==> (#[trigger] streams@[i])@ == spec_stream(
                    name@,
                    size,
                    num_samples,
                    count > 1,
                    i,
                    words@[i],
                    dealt_out[i]@,
                ),
        decreases count - k,
    {
        core::mem::swap(&mut streams[k].payload, &mut payloads[k]);
        k += 1;
    }
    let output = SampleOutput { name, extent, streams };
    proof {
        let want = spec_demux_sample(fsb@, index as int, rest@);
        assert(output@.streams =~= want->Ok_0.streams);
    }
    Ok(output)
}

/// The sample data of a bank whose tables end at `tables_end`: what lies
/// from the next multiple of 32 bytes on.
pub open spec fn spec_sample_data(data: Seq<u8>, tables_end: int) -> Seq<u8> {
    let start = tables_end + spec_bytes_to_align(tables_end, DATA_ALIGNMENT as int);
    if start <= data.len() {
        data.subrange(start, data.len() as int)
    } else {
        Seq::empty()
    }
}

/// The streams of the first `count` samples, and how much of the sample
/// data `rest` they take up; or why the first sample that is refused is
/// refused.
///
/// The data of each sample starts where that of the sample before it ends.
pub open spec fn spec_demux_upto(fsb: FsbView, rest: Seq<u8>, count: nat) -> Result<
    (Seq<SampleOutputView>, int),
    Error,
>
    decreases count,
{
    if count == 0 {
        Ok((Seq::empty(), 0))
    } else {
        match spec_demux_upto(fsb, rest, (count - 1) as nat) {
            Err(e) => Err(e),
            Ok((outputs, used)) => match spec_demux_sample(
                fsb,
                count - 1,
                rest.subrange(used, rest.len() as int),
            ) {
                Err(e) => Err(e),
                Ok(output) => Ok((outputs.push(output), used + output.extent)),
            },
        }
    }
}

/// Repackaging one sample more, behind those already done.
pub proof fn lemma_demux_upto_step(
    fsb: FsbView,
    rest: Seq<u8>,
    count: nat,
    outputs: Seq<SampleOutputView>,
    used: int,
)
    requires
        spec_demux_upto(fsb, rest, count) == Ok::<(Seq<SampleOutputView>, int), Error>(
            (outputs, used),
        ),
    ensures
        spec_demux_upto(fsb, rest, count + 1) == match spec_demux_sample(
            fsb,
            count as int,
            rest.subrange(used, rest.len() as int),
        ) {
            Err(e) => Err::<(Seq<SampleOutputView>, int), Error>(e),
            Ok(output) => Ok((outputs.push(output), used + output.extent)),
        },
{
}

/// Samples that cannot be repackaged to one count cannot be repackaged to
/// a greater one, for the same reason.
pub proof fn lemma_demux_upto_err(fsb: FsbView, rest: Seq<u8>, fewer: nat, count: nat)
    requires
        fewer <= count,
        spec_demux_upto(fsb, rest, fewer) is Err,
    ensures
        spec_demux_upto(fsb, rest, count) == spec_demux_upto(fsb, rest, fewer),
    decreases count,
{
    if fewer < count {
        lemma_demux_upto_err(fsb, rest, fewer, (count - 1) as nat);
    }
}

/// No byte of any sample is dropped and none is written twice: where the
/// first `count` samples are repackaged, the streams of each hold, all
/// together, as many bytes as lie between its offset and the next; and
/// what the samples take up lies within the sample data.
pub proof fn lemma_run_bytes_conserved(fsb: FsbView, rest: Seq<u8>, count: nat)
    requires
        count <= fsb.samples.len(),
        spec_demux_upto(fsb, rest, count) is Ok,
    ensures
        spec_demux_upto(fsb, rest, count)->Ok_0.0.len() == count,
        forall|i: int|
            0 <= i < count ==> spec_extent(fsb, i) == Some(
                total_len(payloads_of(#[trigger] spec_demux_upto(fsb, rest, count)->Ok_0.0[i].streams)),
            ),
        0 <= spec_demux_upto(fsb, rest, count)->Ok_0.1 <= rest.len(),
    decreases count,
{
    if count > 0 {
        let fewer = (count - 1) as nat;
        lemma_run_bytes_conserved(fsb, rest, fewer);
        let used = spec_demux_upto(fsb, rest, fewer)->Ok_0.1;
        let tail = rest.subrange(used, rest.len() as int);
        lemma_sample_bytes_conserved(fsb, fewer as int, tail);
        lemma_sample_fits(fsb, fewer as int, tail);
    }
}

/// The data of every sample is read from where its offset says, counted
/// from the offset of the first sample: where the first `count` samples
/// are repackaged, they take up the sample data as far as the last of them
/// ends.
pub proof fn lemma_samples_lie_at_their_offsets(fsb: FsbView, rest: Seq<u8>, count: nat)
    requires
        0 < count <= fsb.samples.len(),
        spec_demux_upto(fsb, rest, count) is Ok,
    ensures
        spec_demux_upto(fsb, rest, count)->Ok_0.1 == spec_sample_end(fsb, count - 1) - OFFSET_UNIT
            * fsb.samples[0].info.spec_data_offset(),
    decreases count,
{
    let fewer = (count - 1) as nat;
    let used = spec_demux_upto(fsb, rest, fewer)->Ok_0.1;
    let tail = rest.subrange(used, rest.len() as int);
    lemma_sample_bytes_conserved(fsb, fewer as int, tail);
    if fewer > 0 {
        lemma_samples_lie_at_their_offsets(fsb, rest, fewer);
    }
}

/// A sample that is repackaged lies within the data that it is read from.
pub proof fn lemma_sample_fits(fsb: FsbView, index: int, rest: Seq<u8>)
    requires
        spec_demux_sample(fsb, index, rest) is Ok,
    ensures
        spec_demux_sample(fsb, index, rest)->Ok_0.extent <= rest.len(),
{
    reveal(spec_demux_sample);
}

/// The streams of all samples of a bank whose tables end at `tables_end`
/// in `data`; none where the bank holds no ATRAC9.
pub open spec fn spec_extract_samples(fsb: FsbView, data: Seq<u8>, tables_end: int) -> Result<
    Seq<SampleOutputView>,
    Error,
> {
    if fsb.codec != Codec::At9 {
        Ok(Seq::empty())
    } else {
        match spec_demux_upto(fsb, spec_sample_data(data, tables_end), fsb.samples.len()) {
            Err(e) => Err(e),
            Ok((outputs, used)) => Ok(outputs),
        }
    }
}

/// The streams of all samples of the bank that `data` holds.
pub open spec fn spec_extract(data: Seq<u8>) -> Result<Seq<SampleOutputView>, Error> {
    match spec_fsb(data) {
        None => Err(Error::StructuralParse),
        Some((fsb, tables_end)) => spec_extract_samples(fsb, data, tables_end),
    }
}

/// Repackages every sample of a bank whose tables end at `tables_end` in
/// `data`, in the order of the bank.
///
/// A bank that holds no ATRAC9 gives no streams, and no error. The first
/// sample that is refused ends the work with its error.
pub fn extract_samples(fsb: &Fsb, data: &[u8], tables_end: usize) -> (r: Result<
    Vec<SampleOutput>,
    Error,
>)
    ensures
        match spec_extract_samples(fsb@, data@, tables_end as int) {
            Ok(outputs) => r is Ok && views(r->Ok_0@) == outputs,
            Err(e) => r is Err && r->Err_0 == e,
        },
        fsb.codec != Codec::At9 ==> r is Ok && r->Ok_0@.len() == 0,
        r is Ok && fsb.codec == Codec::At9 ==> r->Ok_0@.len() == fsb.samples@.len(),
{
    let mut outputs: Vec<SampleOutput> = Vec::new();
    assert(views(outputs@) =~= Seq::<SampleOutputView>::empty());
    match fsb.codec {
        Codec::At9 => {},
        _ => {
            return Ok(outputs);
        },
    }
    let pad = bytes_to_align(tables_end as u64, DATA_ALIGNMENT) as usize;
    let rest: &[u8] = if tables_end <= data.len() && pad <= data.len() - tables_end {
        slice_subrange(data, tables_end + pad, data.len())
    } else {
        slice_subrange(data, 0, 0)
    };
    let count = fsb.samples.len();
    let mut used: usize = 0;
    let mut index: usize = 0;
    while index < count
        invariant
            index <= count,
            count == fsb.samples@.len(),
            used <= rest@.len(),
            fsb.codec == Codec::At9,
            rest@ == spec_sample_data(data@, tables_end as int),
            outputs@.len() == index,
            spec_demux_upto(fsb@, rest@, index as nat) == Ok::<
                (Seq<SampleOutputView>, int),
                Error,
            >((views(outputs@), used as int)),
        decreases count - index,
    {
        proof {
            lemma_demux_upto_step(fsb@, rest@, index as nat, views(outputs@), used as int);
        }
        let output = match demux_sample(fsb, index, slice_subrange(rest, used, rest.len())) {
            Ok(output) => output,
            Err(e) => {
                proof {
                    lemma_demux_upto_err(fsb@, rest@, (index + 1) as nat, count as nat);
                }
                return Err(e);
            },
        };
        used = used + output.extent as usize;
        proof {
            lemma_views_push(outputs@, output);
        }
        outputs.push(output);
        index += 1;
    }
    Ok(outputs)
}

/// Repackages every sample of the bank that `data` holds.
///
/// A bank that holds no ATRAC9 gives no streams, and no error.
pub fn extract(data: &[u8]) -> (r: Result<Vec<SampleOutput>, Error>)
    ensures
        match spec_extract(data@) {
            Ok(outputs) => r is Ok && views(r->Ok_0@) == outputs,
            Err(e) => r is Err && r->Err_0 == e,
        },
        spec_fsb(data@) is Some && spec_fsb(data@)->Some_0.0.codec != Codec::At9 ==> r is Ok
            && r->Ok_0@.len() == 0,
{
    match Fsb::read(data) {
        Ok((fsb, tables_end)) => extract_samples(&fsb, data, tables_end),
        Err(e) => Err(e),
    }
}

} // verus!
