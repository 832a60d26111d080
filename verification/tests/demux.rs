use fsb5_at9::at9_config::At9Config;
use fsb5_at9::at9_header::Atrac9Header;
use fsb5_at9::demux::{
    at9_config_words, bytes_to_align, create_out_file, demux_sample, extract, extract_samples,
    find_at9_config, sample_extent, sample_name, OutputStream, SampleOutput, DATA_ALIGNMENT,
    OFFSET_UNIT,
};
use fsb5_at9::error::Error;
use fsb5_at9::fsb::{Codec, Fsb, Sample, SampleFlag, SampleInfo};

/// 44100 Hz, two channels, frames of 256 samples and 16 bytes, one frame
/// per superframe.
const STEREO: [u8; 4] = [0xFE, 0x64, 0x01, 0xE0];

/// 48000 Hz, one channel, frames of 256 samples and 8 bytes, two frames per
/// superframe.
const MONO: [u8; 4] = [0xFE, 0x70, 0x00, 0xE8];

fn record(more: bool, flag_type: u8, payload: &[u8]) -> Vec<u8> {
    let head = (more as u32) | (payload.len() as u32) << 1 | (flag_type as u32) << 25;
    let mut bytes = head.to_le_bytes().to_vec();
    bytes.extend_from_slice(payload);
    bytes
}

fn info_word(has_flags: bool, offset: u64, samples: u64) -> [u8; 8] {
    ((has_flags as u64) | offset << 7 | samples << 34).to_le_bytes()
}

/// A version 1 bank: each sample is its offset, its number of samples and
/// its configuration record, if it has one.
fn bank(codec: u32, samples: &[(u64, u64, Option<&[u8]>)], names: Option<&[&[u8]]>, data: &[u8]) -> Vec<u8> {
    let mut bytes = b"FSB5".to_vec();
    bytes.extend_from_slice(&1u32.to_le_bytes());
    bytes.extend_from_slice(&(samples.len() as u32).to_le_bytes());
    bytes.extend_from_slice(&0u32.to_le_bytes());
    bytes.extend_from_slice(&(names.is_some() as u32).to_le_bytes());
    bytes.extend_from_slice(&(data.len() as u32).to_le_bytes());
    bytes.extend_from_slice(&codec.to_le_bytes());
    bytes.extend_from_slice(&[0; 4 + 4 + 16 + 8]);
    for (offset, count, config) in samples {
        bytes.extend_from_slice(&info_word(config.is_some(), *offset, *count));
        if let Some(config) = config {
            bytes.extend_from_slice(&record(false, 9, config));
        }
    }
    if let Some(names) = names {
        bytes.extend(std::iter::repeat(0xFF).take(4 * samples.len()));
        for name in names {
            bytes.extend_from_slice(name);
            bytes.push(0);
        }
    }
    while bytes.len() % 32 != 0 {
        bytes.push(0xEE);
    }
    bytes.extend_from_slice(data);
    bytes
}

fn in_memory(samples: Vec<Sample>, names: Vec<Vec<u8>>, sample_data_size: u32) -> Fsb {
    Fsb {
        version: 1,
        sample_header_size: 0,
        name_table_size: 0,
        sample_data_size,
        codec: Codec::At9,
        flags: [0; 4],
        guid: [0; 16],
        hash: [0; 8],
        samples,
        names,
    }
}

fn sample(offset: u32, flags: Vec<SampleFlag>) -> Sample {
    Sample { info: SampleInfo::new(!flags.is_empty(), 0, 0, offset, 100), flags }
}

#[test]
fn bytes_to_align_reaches_the_next_multiple() {
    assert_eq!(bytes_to_align(0, 32), 0);
    assert_eq!(bytes_to_align(1, 32), 31);
    assert_eq!(bytes_to_align(31, 32), 1);
    assert_eq!(bytes_to_align(32, 32), 0);
    assert_eq!(bytes_to_align(33, 32), 31);
    assert_eq!(bytes_to_align(76, 32), 20);
    assert_eq!(bytes_to_align(100, 7), 5);
    assert_eq!(bytes_to_align(12345, 1), 0);
    assert_eq!(bytes_to_align(u64::MAX, 32), 1);
    assert_eq!(bytes_to_align(5, u64::MAX), u64::MAX - 5);
    for pos in 0..200u64 {
        for align in 1..40u64 {
            let pad = bytes_to_align(pos, align);
            assert!(pad < align);
            assert_eq!((pos + pad) % align, 0);
        }
    }
    assert_eq!(DATA_ALIGNMENT, 32);
    assert_eq!(OFFSET_UNIT, 32);
}

#[test]
fn the_first_config_record_is_found() {
    let flags = vec![
        SampleFlag::Channels(2),
        SampleFlag::Unknown(vec![9, 9]),
        SampleFlag::Atrac9Config(vec![1, 2, 3]),
        SampleFlag::Atrac9Config(vec![4, 5, 6]),
    ];
    assert_eq!(find_at9_config(&flags), Ok(&vec![1, 2, 3]));
    assert_eq!(find_at9_config(&vec![SampleFlag::Atrac9Config(vec![])]), Ok(&vec![]));
}

#[test]
fn a_chain_without_config_record_lacks_metadata() {
    assert_eq!(find_at9_config(&vec![]), Err(Error::MissingMetadata));
    let flags = vec![
        SampleFlag::Channels(2),
        SampleFlag::SampleRate(48000),
        SampleFlag::Loop { start: 0, end: 1 },
        SampleFlag::Unknown(vec![0xFE, 0, 0, 0]),
    ];
    assert_eq!(find_at9_config(&flags), Err(Error::MissingMetadata));
}

#[test]
fn extents_are_differences_of_offsets() {
    let fsb = in_memory(vec![sample(0, vec![]), sample(3, vec![]), sample(3, vec![]), sample(10, vec![])], vec![], 1000);
    assert_eq!(sample_extent(&fsb, 0), Ok(96));
    assert_eq!(sample_extent(&fsb, 1), Ok(0));
    assert_eq!(sample_extent(&fsb, 2), Ok(224));
    assert_eq!(sample_extent(&fsb, 3), Ok(1000 - 320));
}

#[test]
fn the_last_extent_reaches_to_the_end_of_the_sample_data() {
    let fsb = in_memory(vec![sample(2, vec![])], vec![], 64);
    assert_eq!(sample_extent(&fsb, 0), Ok(0));
    let fsb = in_memory(vec![sample(2, vec![])], vec![], 65);
    assert_eq!(sample_extent(&fsb, 0), Ok(1));
    let fsb = in_memory(vec![sample(0, vec![])], vec![], u32::MAX);
    assert_eq!(sample_extent(&fsb, 0), Ok(u32::MAX));
}

#[test]
fn the_largest_extent_between_two_offsets() {
    let fsb = in_memory(vec![sample(0, vec![]), sample(0x7FF_FFFF, vec![])], vec![], u32::MAX);
    assert_eq!(sample_extent(&fsb, 0), Ok(0xFFFF_FFE0));
    assert_eq!(sample_extent(&fsb, 1), Ok(31));
}

#[test]
fn offsets_that_run_backwards_are_refused() {
    let fsb = in_memory(vec![sample(5, vec![]), sample(4, vec![])], vec![], 1000);
    assert_eq!(sample_extent(&fsb, 0), Err(Error::StructuralParse));
    assert_eq!(sample_extent(&fsb, 1), Ok(1000 - 128));
    let fsb = in_memory(vec![sample(2, vec![])], vec![], 63);
    assert_eq!(sample_extent(&fsb, 0), Err(Error::StructuralParse));
}

#[test]
fn a_config_is_cut_into_words() {
    assert_eq!(at9_config_words(&STEREO), Ok(vec![STEREO]));
    let mut blob = STEREO.to_vec();
    blob.extend_from_slice(&MONO);
    blob.extend_from_slice(&[0xFE, 1, 2, 3]);
    assert_eq!(at9_config_words(&blob), Ok(vec![STEREO, MONO, [0xFE, 1, 2, 3]]));
    // only the first word is looked at for the sync code
    assert_eq!(at9_config_words(&[0xFE, 0, 0, 0, 0x11, 0x22, 0x33, 0x44]), Ok(vec![[0xFE, 0, 0, 0], [0x11, 0x22, 0x33, 0x44]]));
}

#[test]
fn four_bytes_in_front_that_are_no_word_are_left_out() {
    let mut blob = vec![0x02, 0x00, 0x00, 0x00];
    blob.extend_from_slice(&STEREO);
    blob.extend_from_slice(&MONO);
    assert_eq!(at9_config_words(&blob), Ok(vec![STEREO, MONO]));
    // what follows them is not looked at
    assert_eq!(at9_config_words(&[1, 2, 3, 4, 5, 6, 7, 8]), Ok(vec![[5, 6, 7, 8]]));
    // nothing may follow them
    assert_eq!(at9_config_words(&[1, 2, 3, 4]), Ok(vec![]));
}

#[test]
fn a_config_that_cannot_be_cut_into_words_is_refused() {
    assert_eq!(at9_config_words(&[]), Err(Error::StructuralParse));
    assert_eq!(at9_config_words(&[0xFE]), Err(Error::StructuralParse));
    assert_eq!(at9_config_words(&[0xFE, 1, 2]), Err(Error::StructuralParse));
    assert_eq!(at9_config_words(&[0xFE, 1, 2, 3, 4]), Err(Error::StructuralParse));
    assert_eq!(at9_config_words(&[0x00]), Err(Error::StructuralParse));
    assert_eq!(at9_config_words(&[0x00, 1, 2]), Err(Error::StructuralParse));
    assert_eq!(at9_config_words(&[0x00, 1, 2, 3, 0xFE]), Err(Error::StructuralParse));
    assert_eq!(at9_config_words(&[0x00, 1, 2, 3, 0xFE, 5, 6, 7, 8, 9]), Err(Error::StructuralParse));
}

#[test]
fn a_sample_is_called_by_its_name_or_its_number() {
    let named = in_memory(vec![sample(0, vec![]), sample(0, vec![])], vec![b"intro".to_vec(), b"loop".to_vec()], 0);
    assert_eq!(sample_name(&named, 0), "intro");
    assert_eq!(sample_name(&named, 1), "loop");
    let unnamed = in_memory((0..12).map(|_| sample(0, vec![])).collect(), vec![], 0);
    assert_eq!(sample_name(&unnamed, 0), "1");
    assert_eq!(sample_name(&unnamed, 8), "9");
    assert_eq!(sample_name(&unnamed, 9), "10");
    assert_eq!(sample_name(&unnamed, 11), "12");
}

#[test]
fn a_name_that_is_no_text_shows_replacement_characters() {
    let names = vec![
        vec![0xFF],
        vec![b'a', 0x80, b'b'],
        "caf\u{e9}".as_bytes().to_vec(),
        vec![0xE2, 0x82],
        vec![],
    ];
    let fsb = in_memory((0..5).map(|_| sample(0, vec![])).collect(), names, 0);
    assert_eq!(sample_name(&fsb, 0), "\u{FFFD}");
    assert_eq!(sample_name(&fsb, 1), "a\u{FFFD}b");
    assert_eq!(sample_name(&fsb, 2), "caf\u{e9}");
    assert_eq!(sample_name(&fsb, 3), "\u{FFFD}");
    assert_eq!(sample_name(&fsb, 4), "");
}

#[test]
fn a_single_stream_is_named_after_its_sample() {
    let stream = create_out_file("intro", 64, 1000, false, 0, STEREO).unwrap();
    assert_eq!(
        stream,
        OutputStream {
            path: "intro.at9".to_string(),
            superframe_bytes: 16,
            config: At9Config::parse(STEREO).unwrap(),
            header: Atrac9Header::new(&At9Config::parse(STEREO).unwrap(), 1000, 64, STEREO),
            payload: vec![],
        }
    );
    assert_eq!(stream.header.size_remaining, 64 + 0x5C);
    assert_eq!(stream.header.data.len, 64);
    assert_eq!(stream.header.fact.num_samples, 1000);
    assert_eq!(stream.header.fmt.at9_config, STEREO);
}

#[test]
fn several_streams_are_numbered_from_one_in_a_directory() {
    assert_eq!(create_out_file("intro", 0, 0, true, 0, STEREO).unwrap().path, "intro/1.at9");
    assert_eq!(create_out_file("intro", 0, 0, true, 1, MONO).unwrap().path, "intro/2.at9");
    assert_eq!(create_out_file("7", 0, 0, true, 9, MONO).unwrap().path, "7/10.at9");
    assert_eq!(create_out_file("", 0, 0, true, 122, MONO).unwrap().path, "/123.at9");
    assert_eq!(create_out_file("", 0, 0, false, 122, MONO).unwrap().path, ".at9");
    assert_eq!(create_out_file("\u{FFFD}\u{e9}", 0, 0, true, 0, MONO).unwrap().path, "\u{FFFD}\u{e9}/1.at9");
}

#[test]
fn a_stream_with_a_refused_word_is_refused() {
    assert_eq!(create_out_file("x", 64, 1, false, 0, [0xFD, 0x64, 0x01, 0xE0]), Err(Error::StructuralParse));
    assert_eq!(create_out_file("x", 64, 1, true, 3, [0xFE, 0x65, 0x01, 0xE0]), Err(Error::StructuralParse));
    assert_eq!(create_out_file("x", 64, 1, true, 3, [0xFE, 0x6C, 0x01, 0xE0]), Err(Error::StructuralParse));
}

#[test]
fn a_mono_stream_has_its_own_block_size() {
    let stream = create_out_file("x", 32, 5, false, 0, MONO).unwrap();
    assert_eq!(stream.superframe_bytes, 16);
    assert_eq!(stream.config.frame_bytes, 8);
    assert_eq!(stream.config.frames_per_superframe, 2);
    assert_eq!(stream.config.sample_rate, 48000);
    assert_eq!(stream.header.fmt.channel_count, 1);
    assert_eq!(stream.header.fmt.channel_mask, 4);
    assert_eq!(stream.header.fmt.samples_per_block, 512);
    // 16 bytes * 48000 / 512 samples
    assert_eq!(stream.header.fmt.bytes_per_second, 1500);
}

#[test]
fn a_minimal_bank_end_to_end() {
    let payload: Vec<u8> = (0..64u8).map(|i| i.wrapping_mul(7).wrapping_add(3)).collect();
    let data = bank(0xd, &[(0, 1000, Some(&STEREO))], None, &payload);
    // 60 bytes of header, 16 of descriptor, 20 of padding
    assert_eq!(data.len(), 96 + 64);

    let outputs = extract(&data).unwrap();
    assert_eq!(outputs.len(), 1);
    assert_eq!(outputs[0].name, "1");
    assert_eq!(outputs[0].extent, 64);
    assert_eq!(outputs[0].streams.len(), 1);
    let stream = &outputs[0].streams[0];
    assert_eq!(stream.path, "1.at9");
    assert_eq!(stream.payload, payload);

    let header = stream.header.to_bytes();
    assert_eq!(header.len(), 100);
    // size_remaining: 64 + 92
    assert_eq!(&header[4..8], &[0x9C, 0x00, 0x00, 0x00]);
    // block_align: 16
    assert_eq!(&header[32..34], &[0x10, 0x00]);
    // channel_mask: front left and front right
    assert_eq!(&header[40..44], &[0x03, 0x00, 0x00, 0x00]);
    // the word itself, the sample count and the size of the data
    assert_eq!(&header[64..68], &STEREO);
    assert_eq!(&header[80..84], &1000u32.to_le_bytes());
    assert_eq!(&header[96..100], &64u32.to_le_bytes());
    assert_eq!(header, Atrac9Header::new(&At9Config::parse(STEREO).unwrap(), 1000, 64, STEREO).to_bytes());

    // the file: the header, then the payload
    let file = stream.contents();
    assert_eq!(file.len(), 164);
    assert_eq!(&file[..100], &header[..]);
    assert_eq!(&file[100..], &payload[..]);
}

#[test]
fn a_bank_of_another_codec_gives_nothing_and_no_error() {
    let payload = [0x11u8; 64];
    for codec in (1..=0x11u32).filter(|c| *c != 0xd) {
        let data = bank(codec, &[(0, 1000, Some(&STEREO))], None, &payload);
        assert_eq!(extract(&data), Ok(vec![]));
        // not even a sample that would be refused is looked at
        let data = bank(codec, &[(5, 1000, None), (0, 0, None)], None, &[]);
        assert_eq!(extract(&data), Ok(vec![]));
        let (fsb, end) = Fsb::read(&data).unwrap();
        assert_eq!(extract_samples(&fsb, &data, end), Ok(vec![]));
    }
}

#[test]
fn every_byte_of_every_sample_is_written_once() {
    // three samples of 64, 0 and 96 bytes; the last one has two streams
    let payload: Vec<u8> = (0..160u8).collect();
    let mut two = STEREO.to_vec();
    two.extend_from_slice(&MONO);
    let data = bank(
        0xd,
        &[(0, 10, Some(&STEREO)), (2, 20, Some(&MONO)), (2, 30, Some(&two))],
        Some(&[b"a", b"b", b"c"]),
        &payload,
    );
    let outputs = extract(&data).unwrap();
    let extents = [64u32, 0, 96];
    assert_eq!(outputs.len(), 3);
    for (output, extent) in outputs.iter().zip(extents) {
        assert_eq!(output.extent, extent);
        let written: usize = output.streams.iter().map(|s| s.payload.len()).sum();
        assert_eq!(written, extent as usize);
    }
    assert_eq!(outputs[0].streams[0].payload, payload[..64].to_vec());
    assert_eq!(outputs[1].streams[0].payload, Vec::<u8>::new());
    let mut first = payload[64..80].to_vec();
    first.extend_from_slice(&payload[96..112]);
    first.extend_from_slice(&payload[128..144]);
    let mut second = payload[80..96].to_vec();
    second.extend_from_slice(&payload[112..128]);
    second.extend_from_slice(&payload[144..160]);
    assert_eq!(outputs[2].streams[0].payload, first);
    assert_eq!(outputs[2].streams[1].payload, second);
}

#[test]
fn the_streams_of_a_sample_share_its_size_and_its_sample_count() {
    let payload: Vec<u8> = (0..96u8).collect();
    let mut two = STEREO.to_vec();
    two.extend_from_slice(&MONO);
    let data = bank(0xd, &[(0, 777, Some(&two))], Some(&[b"music"]), &payload);
    let outputs = extract(&data).unwrap();
    assert_eq!(outputs[0].name, "music");
    let streams = &outputs[0].streams;
    assert_eq!(streams.len(), 2);
    assert_eq!(streams[0].path, "music/1.at9");
    assert_eq!(streams[1].path, "music/2.at9");
    for stream in streams {
        assert_eq!(stream.header.data.len, 48);
        assert_eq!(stream.header.size_remaining, 48 + 0x5C);
        assert_eq!(stream.header.fact.num_samples, 777);
        assert_eq!(stream.payload.len(), 48);
    }
    assert_eq!(streams[0].config, At9Config::parse(STEREO).unwrap());
    assert_eq!(streams[1].config, At9Config::parse(MONO).unwrap());
    assert_eq!(streams[0].header.fmt.at9_config, STEREO);
    assert_eq!(streams[1].header.fmt.at9_config, MONO);
}

#[test]
fn a_config_behind_four_other_bytes_is_found() {
    let payload = [0x42u8; 32];
    let mut blob = vec![0x01, 0x00, 0x00, 0x00];
    blob.extend_from_slice(&STEREO);
    let data = bank(0xd, &[(0, 1, Some(&blob))], None, &payload);
    let outputs = extract(&data).unwrap();
    assert_eq!(outputs[0].streams.len(), 1);
    assert_eq!(outputs[0].streams[0].path, "1.at9");
    assert_eq!(outputs[0].streams[0].header.fmt.at9_config, STEREO);
    assert_eq!(outputs[0].streams[0].payload, payload.to_vec());
}

#[test]
fn a_sample_without_config_record_lacks_metadata() {
    let data = bank(0xd, &[(0, 1, None)], None, &[0; 32]);
    assert_eq!(extract(&data), Err(Error::MissingMetadata));
    // the first sample that is refused decides
    let data = bank(0xd, &[(0, 1, Some(&STEREO)), (1, 1, None), (2, 1, Some(&[0xFF; 4]))], None, &[0; 64]);
    assert_eq!(extract(&data), Err(Error::MissingMetadata));
}

#[test]
fn a_sample_with_a_refused_word_is_malformed() {
    let data = bank(0xd, &[(0, 1, Some(&[0xFE, 0x65, 0x01, 0xE0]))], None, &[0; 32]);
    assert_eq!(extract(&data), Err(Error::StructuralParse));
    let mut two = STEREO.to_vec();
    two.extend_from_slice(&[0xFF, 0x64, 0x01, 0xE0]);
    let data = bank(0xd, &[(0, 1, Some(&two))], None, &[0; 32]);
    assert_eq!(extract(&data), Err(Error::StructuralParse));
    let data = bank(0xd, &[(0, 1, Some(&[]))], None, &[0; 32]);
    assert_eq!(extract(&data), Err(Error::StructuralParse));
}

#[test]
fn offsets_that_run_backwards_come_before_a_lacking_config() {
    let data = bank(0xd, &[(1, 1, None), (0, 1, None)], None, &[0; 32]);
    assert_eq!(extract(&data), Err(Error::StructuralParse));
}

#[test]
fn sample_data_that_is_cut_short_is_a_short_read() {
    let data = bank(0xd, &[(0, 1, Some(&STEREO))], None, &[0x33; 64]);
    assert!(extract(&data).is_ok());
    for missing in 1..=64 {
        assert_eq!(extract(&data[..data.len() - missing]), Err(Error::ShortRead));
    }
    // cut inside the padding in front of the sample data
    assert_eq!(extract(&data[..80]), Err(Error::ShortRead));
}

#[test]
fn a_sample_that_ends_inside_a_block_is_a_short_read() {
    // 40 bytes in blocks of 16
    let mut data = bank(0xd, &[(0, 1, Some(&STEREO))], None, &[0x33; 40]);
    assert_eq!(extract(&data), Err(Error::ShortRead));
    // more data behind the sample does not help
    data.extend_from_slice(&[0; 100]);
    assert_eq!(extract(&data), Err(Error::ShortRead));
}

#[test]
fn a_sample_without_words_has_no_streams() {
    let data = bank(0xd, &[(0, 1, Some(&[1, 2, 3, 4]))], None, &[]);
    let outputs = extract(&data).unwrap();
    assert_eq!(outputs, vec![SampleOutput { name: "1".to_string(), extent: 0, streams: vec![] }]);
    // but its data cannot go anywhere
    let data = bank(0xd, &[(0, 1, Some(&[1, 2, 3, 4]))], None, &[0; 32]);
    assert_eq!(extract(&data), Err(Error::ShortRead));
}

#[test]
fn an_empty_sample_needs_no_sample_data() {
    let mut data = bank(0xd, &[(0, 1, Some(&STEREO))], None, &[]);
    // not even the padding in front of it
    data.truncate(76);
    let outputs = extract(&data).unwrap();
    assert_eq!(outputs[0].extent, 0);
    assert_eq!(outputs[0].streams[0].payload, Vec::<u8>::new());
    assert_eq!(outputs[0].streams[0].header.size_remaining, 0x5C);
}

#[test]
fn one_sample_at_a_time() {
    let fsb = in_memory(
        vec![
            sample(0, vec![SampleFlag::Atrac9Config(STEREO.to_vec())]),
            sample(1, vec![SampleFlag::Channels(1), SampleFlag::Atrac9Config(MONO.to_vec())]),
        ],
        vec![],
        96,
    );
    let data: Vec<u8> = (0..96u8).collect();
    let first = demux_sample(&fsb, 0, &data).unwrap();
    assert_eq!(first.extent, 32);
    assert_eq!(first.streams[0].payload, data[..32].to_vec());
    let second = demux_sample(&fsb, 1, &data[32..]).unwrap();
    assert_eq!(second.name, "2");
    assert_eq!(second.extent, 64);
    assert_eq!(second.streams[0].payload, data[32..].to_vec());
    assert_eq!(second.streams[0].path, "2.at9");
    assert_eq!(demux_sample(&fsb, 1, &data[33..]), Err(Error::ShortRead));
}

#[test]
fn a_stream_too_large_for_its_header_is_refused() {
    let fsb = in_memory(vec![sample(0, vec![SampleFlag::Atrac9Config(STEREO.to_vec())])], vec![], u32::MAX - 0x5B);
    assert_eq!(demux_sample(&fsb, 0, &[]), Err(Error::StructuralParse));
    // the largest that fits has no data here to be read from
    let fsb = in_memory(vec![sample(0, vec![SampleFlag::Atrac9Config(STEREO.to_vec())])], vec![], u32::MAX - 0x5C);
    assert_eq!(demux_sample(&fsb, 0, &[]), Err(Error::ShortRead));
}

#[test]
fn names_of_the_bank_become_the_names_of_the_files() {
    let mut two = STEREO.to_vec();
    two.extend_from_slice(&STEREO);
    let data = bank(
        0xd,
        &[(0, 1, Some(&STEREO)), (1, 1, Some(&two))],
        Some(&[b"mus_\xC3\xA9t\xC3\xA9", b"amb\xFFient"]),
        &[0; 64],
    );
    let outputs = extract(&data).unwrap();
    assert_eq!(outputs[0].name, "mus_\u{e9}t\u{e9}");
    assert_eq!(outputs[0].streams[0].path, "mus_\u{e9}t\u{e9}.at9");
    assert_eq!(outputs[1].name, "amb\u{FFFD}ient");
    assert_eq!(outputs[1].streams[0].path, "amb\u{FFFD}ient/1.at9");
    assert_eq!(outputs[1].streams[1].path, "amb\u{FFFD}ient/2.at9");
}
