//! DSD rates, files, DoP packing and the stream detectors.

use audio_engine_core::diretta::DirettaSinkInfo;
use audio_engine_core::dsd::dff::{read_dff_info, DffError, DffReader};
use audio_engine_core::dsd::dop_pack::DopStreamPacker;
use audio_engine_core::dsd::dop_wav::{convert_dsd_to_dop_ram, write_wav_header, DopError};
use audio_engine_core::dsd::dsf::{read_dsf_info, DsfError, DsfReader};
use audio_engine_core::dsd::{decimator_rate, is_dsd_path, reverse_byte, DsdPlaybackStrategy, DsdRate};
use audio_engine_core::dts::DtsDetector;
use audio_engine_core::hdcd::HdcdProcessor;
use audio_engine_core::midi::is_midi_path;
use audio_engine_core::mqa::MqaDetector;

#[test]
fn packs_stereo_frames_with_0x05_marker_in_first_phase() {
    let dsd = [
        0xA1, 0xB1, 0xA2, 0xB2, 0xA3, 0xB3, 0xA4, 0xB4, 0xA5, 0xB5, 0xA6, 0xB6,
    ];
    let mut packer = DopStreamPacker::new();
    let mut out = [0i32; 6];
    let frames = packer.pack_interleaved(&dsd, 2, &mut out);
    assert_eq!(frames, 3);
    assert_eq!(out[0], (0x05 << 24) | (0xA1 << 16) | (0xB1 << 8));
    assert_eq!(out[1], (0x05 << 24) | (0xA2 << 16) | (0xB2 << 8));
    assert_eq!(out[2], (0x05 << 24) | (0xA3 << 16) | (0xB3 << 8));
    assert_eq!(out[3], (0x05 << 24) | (0xA4 << 16) | (0xB4 << 8));
    assert_eq!(out[4], (0x05 << 24) | (0xA5 << 16) | (0xB5 << 8));
    assert_eq!(out[5], (0x05 << 24) | (0xA6 << 16) | (0xB6 << 8));
}

#[test]
fn marker_alternates_every_16_frames_across_buffers() {
    let mut packer = DopStreamPacker::new();
    let mut dsd = Vec::new();
    for i in 0..40usize {
        dsd.push((i & 0xFF) as u8);
        dsd.push(0x55);
        dsd.push((!(i as u8)) & 0xFF);
        dsd.push(0x55);
    }
    let mut out = [0i32; 80];
    let frames = packer.pack_interleaved(&dsd, 2, &mut out);
    assert_eq!(frames, 40);

    let marker_of = |frame: usize| (out[frame * 2] >> 24) as u8 & 0xFF;
    assert_eq!(marker_of(0), 0x05);
    assert_eq!(marker_of(15), 0x05);
    assert_eq!(marker_of(16), 0xFA);
    assert_eq!(marker_of(31), 0xFA);
    assert_eq!(marker_of(32), 0x05);
    assert_eq!(marker_of(39), 0x05);

    let eight = vec![0u8; 32];
    let frames_extra = packer.pack_interleaved(&eight, 2, &mut [0i32; 16]);
    assert_eq!(frames_extra, 16 - 8);
    let mut out2 = [0i32; 2];
    let frames2 = packer.pack_interleaved(&[0x77, 0x88, 0x99, 0xAA], 2, &mut out2);
    assert_eq!(frames2, 1);
    assert_eq!((out2[0] >> 24) as u8, 0xFA);
}

#[test]
fn silence_preserves_marker_discriminability() {
    let mut packer = DopStreamPacker::new();
    let dsd = vec![0u8; 64];
    let mut out = [0i32; 32];
    packer.pack_interleaved(&dsd, 2, &mut out);
    for frame in out.iter() {
        assert_eq!((frame >> 24) as u8, 0x05);
        assert_eq!(frame & 0x00FF_FFFF, 0);
    }
}

#[test]
fn partial_frames_are_not_consumed() {
    let mut packer = DopStreamPacker::new();
    let mut out = [0i32; 4];
    assert_eq!(packer.pack_interleaved(&[0x11, 0x22, 0x33], 2, &mut out), 0);
    assert_eq!(packer.pack_interleaved(&[], 2, &mut out), 0);
}

#[test]
fn packing_in_pieces_is_packing_at_once() {
    let dsd: Vec<u8> = (0..160).collect();
    let mut whole = DopStreamPacker::new();
    let mut at_once = [0i32; 80];
    assert_eq!(whole.pack_interleaved(&dsd, 2, &mut at_once), 40);

    let mut pieces = DopStreamPacker::new();
    let mut first = [0i32; 36];
    let mut second = [0i32; 44];
    assert_eq!(pieces.pack_interleaved(&dsd[..72], 2, &mut first), 18);
    assert_eq!(pieces.pack_interleaved(&dsd[72..], 2, &mut second), 22);
    assert_eq!([&first[..], &second[..]].concat(), at_once);
    assert_eq!(pieces.marker(), whole.marker());
    pieces.reset();
    assert_eq!(pieces.marker(), 0x05);
}

fn dsf(channels: u32, format_id: u32, block_size: u32, bits: u64, raw: &[u8]) -> Vec<u8> {
    let mut file = Vec::new();
    file.extend_from_slice(b"DSD ");
    file.extend_from_slice(&28_u64.to_le_bytes());
    file.extend_from_slice(&(92 + raw.len() as u64).to_le_bytes());
    file.extend_from_slice(&0_u64.to_le_bytes());
    file.extend_from_slice(b"fmt ");
    file.extend_from_slice(&52_u64.to_le_bytes());
    file.extend_from_slice(&1_u32.to_le_bytes());
    file.extend_from_slice(&format_id.to_le_bytes());
    file.extend_from_slice(&2_u32.to_le_bytes());
    file.extend_from_slice(&channels.to_le_bytes());
    file.extend_from_slice(&2_822_400_u32.to_le_bytes());
    file.extend_from_slice(&1_u32.to_le_bytes());
    file.extend_from_slice(&bits.to_le_bytes());
    file.extend_from_slice(&block_size.to_le_bytes());
    file.extend_from_slice(&0_u32.to_le_bytes());
    file.extend_from_slice(b"data");
    file.extend_from_slice(&(12 + raw.len() as u64).to_le_bytes());
    file.extend_from_slice(raw);
    file
}

fn stereo_raw() -> Vec<u8> {
    vec![
        0x01, 0x23, 0x45, 0x67, 0x89, 0xab, 0xcd, 0xef, 0xfe, 0xdc, 0xba, 0x98, 0x76, 0x54, 0x32,
        0x10,
    ]
}

fn chunk(id: &[u8; 4], payload: &[u8]) -> Vec<u8> {
    let mut out = id.to_vec();
    out.extend_from_slice(&(payload.len() as u64).to_be_bytes());
    out.extend_from_slice(payload);
    out
}

fn dff(raw: &[u8]) -> Vec<u8> {
    let mut prop = b"SND ".to_vec();
    prop.extend(chunk(b"FS  ", &2_822_400_u32.to_be_bytes()));
    prop.extend(chunk(b"CHNL", &[0, 2, b'S', b'L', b'F', b'T', b'S', b'R', b'G', b'T']));
    prop.extend(chunk(b"CMPR", b"DSD "));
    let mut body = chunk(b"PROP", &prop);
    body.extend(chunk(b"DSD ", raw));
    let mut file = b"FRM8".to_vec();
    file.extend_from_slice(&(body.len() as u64 + 4).to_be_bytes());
    file.extend_from_slice(b"DSD ");
    file.extend(body);
    file
}

#[test]
fn a_dsf_file_is_read_in_groups_of_four_bytes() {
    let bytes = dsf(2, 0, 8, 64, &stereo_raw());
    let info = read_dsf_info(&bytes).unwrap();
    assert_eq!(info.sample_rate, 2_822_400);
    assert_eq!(info.channels, 2);
    assert_eq!(info.block_size, 8);
    assert_eq!(info.sample_count, 64);

    let mut reader = DsfReader::open(bytes).unwrap();
    assert_eq!(reader.dsd_rate(), DsdRate::Dsd64);
    let mut out = [0u8; 16];
    assert_eq!(reader.read_interleaved_dsd(&mut out), 16);
    let expected: Vec<u8> = [
        0x01u8, 0x23, 0x45, 0x67, 0xfe, 0xdc, 0xba, 0x98, 0x89, 0xab, 0xcd, 0xef, 0x76, 0x54, 0x32,
        0x10,
    ]
    .iter()
    .map(|b| b.reverse_bits())
    .collect();
    assert_eq!(out.to_vec(), expected);
    assert_eq!(reader.read_interleaved_dsd(&mut out), 0);
    reader.seek_to_data(0);
    assert_eq!(reader.current_data_pos(), 0);
    let mut half = [0u8; 8];
    assert_eq!(reader.read_interleaved_dsd(&mut half), 8);
    assert_eq!(half.to_vec(), expected[..8].to_vec());
}

#[test]
fn a_dsf_position_counts_what_was_taken_from_the_file() {
    let mut raw = stereo_raw();
    raw.extend(stereo_raw());
    raw.extend_from_slice(&[1, 2, 3, 4, 5]);
    let mut reader = DsfReader::open(dsf(2, 0, 8, 160, &raw)).unwrap();
    let mut out = [0u8; 10];
    assert_eq!(reader.read_interleaved_dsd(&mut out), 10);
    assert_eq!(reader.current_data_pos(), 16);
    assert_eq!(reader.read_interleaved_dsd(&mut out[..6]), 6);
    assert_eq!(reader.current_data_pos(), 16);
    assert_eq!(reader.read_interleaved_dsd(&mut out), 10);
    assert_eq!(reader.current_data_pos(), 32);
    // What is left of a pair of blocks is passed over.
    assert_eq!(reader.read_interleaved_dsd(&mut out), 6);
    assert_eq!(reader.current_data_pos(), 37);
    reader.seek_to_data(20);
    assert_eq!(reader.current_data_pos(), 16);
    assert_eq!(reader.dsd_rate(), DsdRate::Dsd64);
}

#[test]
fn broken_dsf_files_are_refused() {
    let good = dsf(2, 0, 8, 64, &stereo_raw());
    assert_eq!(read_dsf_info(&good[..10]), Err(DsfError::HeaderTruncated));
    let mut other = good.clone();
    other[0] = b'X';
    assert_eq!(read_dsf_info(&other), Err(DsfError::Magic));
    assert_eq!(read_dsf_info(&good[..50]), Err(DsfError::FmtTruncated));
    assert_eq!(
        read_dsf_info(&dsf(2, 7, 8, 64, &stereo_raw())),
        Err(DsfError::FormatId(7))
    );
    assert_eq!(
        read_dsf_info(&dsf(1, 0, 8, 64, &stereo_raw())),
        Err(DsfError::Channels(1))
    );
    assert_eq!(
        read_dsf_info(&dsf(2, 0, 6, 64, &stereo_raw())),
        Err(DsfError::BlockSize(6))
    );
    assert!(read_dsf_info(&good[..80]).is_err());
}

#[test]
fn a_dff_file_is_read_as_it_is() {
    let raw = stereo_raw();
    let bytes = dff(&raw);
    let info = read_dff_info(&bytes).unwrap();
    assert_eq!(info.sample_rate, 2_822_400);
    assert_eq!(info.channels, 2);
    assert_eq!(info.data_size, 16);
    let mut reader = DffReader::open(bytes).unwrap();
    let mut out = [0u8; 10];
    assert_eq!(reader.read_interleaved_dsd(&mut out), 10);
    assert_eq!(out.to_vec(), raw[..10].to_vec());
    assert_eq!(reader.current_data_pos(), 10);
    assert_eq!(reader.read_interleaved_dsd(&mut out), 6);
    assert_eq!(&out[..6], &raw[10..]);
    assert_eq!(reader.dsd_rate(), DsdRate::Dsd64);
}

#[test]
fn broken_dff_files_are_refused() {
    let good = dff(&stereo_raw());
    assert_eq!(read_dff_info(&good[..15]), Err(DffError::HeaderTruncated));
    let mut other = good.clone();
    other[0] = b'X';
    assert_eq!(read_dff_info(&other), Err(DffError::Magic));
    assert_eq!(read_dff_info(&good[..16]), Err(DffError::DataMissing));
    assert_eq!(read_dff_info(&good[..30]), Err(DffError::PropertyTruncated));
}

#[test]
fn odd_dff_chunks_are_padded() {
    let mut file = b"FRM8".to_vec();
    file.extend_from_slice(&0_u64.to_be_bytes());
    file.extend_from_slice(b"DSD ");
    file.extend(chunk(b"FVER", &[1, 5, 0]));
    file.push(0);
    let mut prop = b"SND ".to_vec();
    prop.extend(chunk(b"CMPR", b"DSD \x00"));
    prop.push(0);
    prop.extend(chunk(b"FS  ", &5_644_800_u32.to_be_bytes()));
    file.extend(chunk(b"PROP", &prop));
    file.extend(chunk(b"DSD ", &stereo_raw()));
    let mut reader = DffReader::open(file).unwrap();
    assert_eq!(reader.dsd_rate(), DsdRate::Dsd128);
    assert_eq!(reader.info().channels, 2);
    reader.seek_to_data(9);
    assert_eq!(reader.current_data_pos(), 8);
    assert_eq!(reader.dsd_rate(), DsdRate::Dsd128);
    let mut out = [0u8; 16];
    assert_eq!(reader.read_interleaved_dsd(&mut out), 8);
    assert_eq!(&out[..8], &stereo_raw()[8..]);
}

#[test]
fn a_dop_file_carries_the_stream_with_markers() {
    let wav = convert_dsd_to_dop_ram(dff(&stereo_raw()), usize::MAX).unwrap();
    assert_eq!(&wav[..4], b"RIFF");
    assert_eq!(&wav[8..16], b"WAVEfmt ");
    assert_eq!(wav.len(), 44 + 32);
    assert_eq!(&wav[24..28], &176_400_u32.to_le_bytes());
    assert_eq!(&wav[40..44], &32_u32.to_le_bytes());
    // Two bytes of one channel under the marker, the highest byte last.
    assert_eq!(&wav[44..48], &[0x00, 0x45, 0x01, 0x05]);
    assert_eq!(&wav[48..52], &[0x00, 0x67, 0x23, 0x05]);
}

#[test]
fn dop_conversion_states_why_it_fails() {
    assert!(matches!(
        convert_dsd_to_dop_ram(Vec::new(), 1 << 20),
        Err(DopError::Source(_))
    ));
    assert_eq!(
        convert_dsd_to_dop_ram(dff(&stereo_raw()), 16).unwrap_err(),
        DopError::TooLarge(32)
    );
    let mut header = Vec::new();
    write_wav_header(&mut header, 44_100, 2, 8);
    assert_eq!(header.len(), 44);
    assert_eq!(&header[4..8], &44_u32.to_le_bytes());
}

#[test]
fn rates_have_names() {
    assert_eq!(DsdRate::from_sample_rate(11_289_600), DsdRate::Dsd256);
    assert_eq!(DsdRate::from_sample_rate(3_072_000), DsdRate::Other(3_072_000));
    assert_eq!(DsdRate::Dsd512.to_hz(), 22_579_200);
    assert_eq!(DsdRate::Dsd64.display_name(), "DSD64 (2.82 MHz)");
    assert_eq!(reverse_byte(0x01), 0x80);
    assert!(is_dsd_path("/a/B.DSF"));
    assert!(!is_dsd_path("/a/b.flac"));
    assert!(is_midi_path("song.MID"));
    assert!(!is_midi_path("song.mp3"));
}

#[test]
fn strategies_follow_what_a_target_takes() {
    let caps = DirettaSinkInfo {
        supports_pcm: true,
        pcm_max_bits: 24,
        pcm_max_sample_rate: 96_000,
        supports_dsd: true,
        supports_dsd_lsb: true,
        supports_dsd_msb: false,
        dsd_min_sample_rate: 0,
        dsd_max_sample_rate: 5_644_800,
    };
    assert_eq!(
        DsdPlaybackStrategy::resolve_diretta_strategy(Some(&caps), DsdRate::Dsd128),
        DsdPlaybackStrategy::NativeDsd { sample_rate: 5_644_800, is_dsd_lsb: true }
    );
    assert_eq!(
        DsdPlaybackStrategy::resolve_diretta_strategy(Some(&caps), DsdRate::Dsd256),
        DsdPlaybackStrategy::DsdToPcm { pcm_sample_rate: 88_200, bit_depth: 24 }
    );
    assert_eq!(
        DsdPlaybackStrategy::resolve_diretta_strategy(None, DsdRate::Dsd64),
        DsdPlaybackStrategy::DsdToPcm { pcm_sample_rate: 176_400, bit_depth: 32 }
    );
}

#[test]
fn two_dts_sync_words_are_taken_for_dts() {
    let mut bytes = vec![0u8; 3];
    bytes.extend_from_slice(&[0x7f, 0xfe, 0x80, 0x01, 0, 0, 0x7f, 0xfe, 0x80, 0x01]);
    let mut detector = DtsDetector::new();
    assert!(detector.feed_bytes(&bytes));
    assert!(detector.is_dts());
    detector.reset();
    assert!(!detector.is_dts());

    let samples = [0x7ffe_u16 as i16, 0x8001_u16 as i16, 0, 0x7ffe_u16 as i16, 0x8001_u16 as i16];
    let mut whole = DtsDetector::new();
    assert!(whole.feed_samples_s16(&samples));
    let mut split = DtsDetector::new();
    assert!(!split.feed_samples_s16(&samples[..1]));
    assert!(split.feed_samples_s16(&samples[1..]));
}

#[test]
fn mqa_is_found_by_its_mark_at_any_split() {
    let magic: u64 = 0xbe0498c88;
    let mut samples: Vec<i32> = Vec::new();
    for k in (0..36).rev() {
        let bit = ((magic >> k) & 1) as i32;
        samples.push(bit);
        samples.push(0);
    }
    let mut whole = MqaDetector::new();
    assert!(whole.feed_interleaved_s24(&samples));
    assert!(whole.is_mqa());
    let mut split = MqaDetector::new();
    assert!(!split.feed_interleaved_s24(&samples[..20]));
    assert!(split.feed_interleaved_s24(&samples[20..]));
    split.reset();
    assert!(!split.is_mqa());
    let narrow: Vec<i16> = samples.iter().map(|s| *s as i16).collect();
    assert!(MqaDetector::new().feed_interleaved_s16(&narrow));
    let wide: Vec<i32> = samples.iter().map(|s| *s << 8).collect();
    assert!(MqaDetector::new().feed_interleaved_s32(&wide));
}

#[test]
fn hdcd_is_found_beyond_its_threshold() {
    let mut processor = HdcdProcessor::new();
    processor.scan_samples_s16(&[2; 4096]);
    assert!(!processor.is_hdcd_detected());
    for _ in 0..64 {
        processor.scan_samples_s16(&[1; 4096]);
    }
    assert!(processor.is_hdcd_detected());
}

#[test]
fn a_decimator_makes_one_sample_of_sixteen_bits() {
    assert_eq!(decimator_rate(2_822_400), 176_400);
    assert_eq!(decimator_rate(5_644_800), 352_800);
}
