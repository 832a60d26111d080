use fsb5_at9::at9_config::{
    At9Config, CHANNEL_MAP, CHANNEL_MASK_MAP, FRAME_SAMPLE_POWER_MAP, SAMPLE_RATE_MAP, SYNC_CODE,
};
use fsb5_at9::error::Error;

fn word(sync: u8, rate: u32, channels: u32, reserved: u32, frame: u32, power: u32, low: u32) -> [u8; 4] {
    let value = (sync as u32) << 24
        | rate << 20
        | channels << 17
        | reserved << 16
        | frame << 5
        | power << 3
        | low;
    value.to_be_bytes()
}

#[test]
fn parse_reads_every_field() {
    // sync 0xFE, rate index 1, channel index 1, reserved 0,
    // frame bytes field 0x1A2, superframe power 3
    let config = At9Config::parse([0xFE, 0x12, 0x34, 0x58]).unwrap();
    assert_eq!(
        config,
        At9Config {
            sample_rate: 12000,
            frame_samples: 64,
            num_channels: 2,
            channel_mask: 0b0000_0100,
            frame_bytes: 419,
            frames_per_superframe: 8,
        }
    );
}

#[test]
fn every_sample_rate_index_gives_its_table_entry() {
    let rates: [u32; 16] = [
        11025, 12000, 16000, 22050, 24000, 32000, 44100, 48000, 44100, 48000, 64000, 88200, 96000,
        128000, 176400, 192000,
    ];
    let frames: [u16; 16] = [64, 64, 128, 128, 128, 256, 256, 256, 64, 64, 128, 128, 128, 256, 256, 256];
    for index in 0..16u32 {
        let config = At9Config::parse(word(0xFE, index, 0, 0, 99, 1, 0)).unwrap();
        assert_eq!(config.sample_rate, rates[index as usize]);
        assert_eq!(config.sample_rate, SAMPLE_RATE_MAP[index as usize]);
        assert_eq!(config.frame_samples, frames[index as usize]);
        assert_eq!(config.frame_samples, 1 << FRAME_SAMPLE_POWER_MAP[index as usize]);
        assert_eq!(config.frame_bytes, 100);
        assert_eq!(config.frames_per_superframe, 2);
    }
}

#[test]
fn every_channel_config_index_gives_its_table_entries() {
    let counts: [u8; 6] = [1, 2, 2, 6, 8, 4];
    let masks: [u8; 6] = [0b0000_0100, 0b0000_0100, 0b0000_0011, 0b1100_1111, 0b1111_1111, 0b0011_0011];
    for index in 0..6u32 {
        let config = At9Config::parse(word(0xFE, 7, index, 0, 0, 0, 0)).unwrap();
        assert_eq!(config.num_channels, counts[index as usize]);
        assert_eq!(config.num_channels, CHANNEL_MAP[index as usize]);
        assert_eq!(config.channel_mask, masks[index as usize]);
        assert_eq!(config.channel_mask, CHANNEL_MASK_MAP[index as usize]);
        assert_eq!(config.sample_rate, 48000);
    }
}

#[test]
fn frame_bytes_is_the_field_plus_one() {
    assert_eq!(At9Config::parse(word(0xFE, 0, 0, 0, 0, 0, 0)).unwrap().frame_bytes, 1);
    assert_eq!(At9Config::parse(word(0xFE, 0, 0, 0, 0x7FF, 0, 0)).unwrap().frame_bytes, 2048);
}

#[test]
fn frames_per_superframe_is_a_power_of_two() {
    let expected: [u16; 4] = [1, 2, 4, 8];
    for power in 0..4u32 {
        let config = At9Config::parse(word(0xFE, 0, 0, 0, 10, power, 0)).unwrap();
        assert_eq!(config.frames_per_superframe, expected[power as usize]);
    }
}

#[test]
fn the_three_lowest_bits_do_not_matter() {
    let plain = At9Config::parse(word(0xFE, 3, 2, 0, 200, 1, 0)).unwrap();
    for low in 1..8u32 {
        assert_eq!(At9Config::parse(word(0xFE, 3, 2, 0, 200, 1, low)), Ok(plain));
    }
}

#[test]
fn parse_refuses_every_wrong_sync_code() {
    assert_eq!(SYNC_CODE, 0xFE);
    for sync in 0..=255u8 {
        if sync == 0xFE {
            continue;
        }
        for rate in [0u32, 5, 15] {
            for channels in [0u32, 3, 5] {
                assert_eq!(
                    At9Config::parse(word(sync, rate, channels, 0, 123, 2, 0)),
                    Err(Error::StructuralParse)
                );
            }
        }
    }
}

#[test]
fn parse_refuses_a_set_reserved_bit() {
    for rate in 0..16u32 {
        for channels in 0..6u32 {
            for power in 0..4u32 {
                assert_eq!(
                    At9Config::parse(word(0xFE, rate, channels, 1, 0x155, power, 0)),
                    Err(Error::StructuralParse)
                );
            }
        }
    }
}

#[test]
fn parse_refuses_the_two_unused_channel_config_indices() {
    assert_eq!(At9Config::parse(word(0xFE, 0, 6, 0, 10, 0, 0)), Err(Error::StructuralParse));
    assert_eq!(At9Config::parse(word(0xFE, 0, 7, 0, 10, 0, 0)), Err(Error::StructuralParse));
}

#[test]
fn parse_is_deterministic() {
    let data = [0xFE, 0x64, 0x01, 0xE0];
    assert_eq!(At9Config::parse(data), At9Config::parse(data));
}

#[test]
fn superframe_sizes_and_bytes_per_second() {
    // rate index 6: 44100 Hz, frames of 256 samples; 16 bytes per frame, one
    // frame per superframe
    let config = At9Config::parse([0xFE, 0x64, 0x01, 0xE0]).unwrap();
    assert_eq!(config.superframe_bytes(), 16);
    assert_eq!(config.superframe_samples(), 256);
    assert_eq!(config.bytes_per_second(), 2756);

    let config = At9Config::parse([0xFE, 0x12, 0x34, 0x58]).unwrap();
    assert_eq!(config.superframe_bytes(), 3352);
    assert_eq!(config.superframe_samples(), 512);
    assert_eq!(config.bytes_per_second(), 78562);
}

#[test]
fn the_largest_superframe_at_the_highest_rate_does_not_overflow() {
    // rate index 15: 192000 Hz, frames of 256 samples; 2048 bytes per frame,
    // eight frames per superframe
    let config = At9Config::parse(word(0xFE, 15, 0, 0, 0x7FF, 3, 0)).unwrap();
    assert_eq!(config.superframe_bytes(), 16384);
    assert_eq!(config.superframe_samples(), 2048);
    assert_eq!(config.bytes_per_second(), 1_536_000);
}
