//! Native DSD: reading files, the ring, and sources that follow each other.

use audio_engine_core::direct_dsd::producer::{
    prepare_staged_dsd_source, DirectDsdSource, ProducerStep, StagePrepareOutcome,
};
use audio_engine_core::direct_dsd::reader::{check_native_path, DirectDsdReader};
use audio_engine_core::direct_dsd::repack::adapt_dsd_bit_order;
use audio_engine_core::direct_dsd::ring::{
    direct_dsd_next_block, direct_dsd_release_block, ring_depth_for, DirectDsdRing,
    DIRECT_DSD_RING_DEPTH_MAX, DSD_SILENCE_BYTE,
};
use audio_engine_core::direct_dsd::{
    DirectDsdBitOrder, DirectDsdContainer, DirectDsdError, DirectDsdFormat,
};

fn dsf_fixture(sample_count: u64) -> (Vec<u8>, Vec<u8>) {
    let left = [0x01, 0x23, 0x45, 0x67, 0x89, 0xab, 0xcd, 0xef];
    let right = [0xfe, 0xdc, 0xba, 0x98, 0x76, 0x54, 0x32, 0x10];
    let mut raw = Vec::new();
    raw.extend_from_slice(&left);
    raw.extend_from_slice(&right);

    let mut file = Vec::new();
    file.extend_from_slice(b"DSD ");
    file.extend_from_slice(&28_u64.to_le_bytes());
    file.extend_from_slice(&0_u64.to_le_bytes());
    file.extend_from_slice(&0_u64.to_le_bytes());
    file.extend_from_slice(b"fmt ");
    file.extend_from_slice(&52_u64.to_le_bytes());
    file.extend_from_slice(&1_u32.to_le_bytes());
    file.extend_from_slice(&0_u32.to_le_bytes());
    file.extend_from_slice(&2_u32.to_le_bytes());
    file.extend_from_slice(&2_u32.to_le_bytes());
    file.extend_from_slice(&2_822_400_u32.to_le_bytes());
    file.extend_from_slice(&1_u32.to_le_bytes());
    file.extend_from_slice(&sample_count.to_le_bytes());
    file.extend_from_slice(&8_u32.to_le_bytes());
    file.extend_from_slice(&0_u32.to_le_bytes());
    file.extend_from_slice(b"data");
    file.extend_from_slice(&(12_u64 + raw.len() as u64).to_le_bytes());
    file.extend_from_slice(&raw);
    let file_len = file.len() as u64;
    file[12..20].copy_from_slice(&file_len.to_le_bytes());

    let expected = vec![
        0x01, 0x23, 0x45, 0x67, 0xfe, 0xdc, 0xba, 0x98, 0x89, 0xab, 0xcd, 0xef, 0x76, 0x54, 0x32,
        0x10,
    ];
    (file, expected)
}

fn append_dff_chunk(dst: &mut Vec<u8>, id: &[u8; 4], payload: &[u8]) {
    dst.extend_from_slice(id);
    dst.extend_from_slice(&(payload.len() as u64).to_be_bytes());
    dst.extend_from_slice(payload);
    if payload.len() % 2 != 0 {
        dst.push(0);
    }
}

fn logical_dsd_bits(bytes: &[u8], bit_order: DirectDsdBitOrder) -> Vec<u8> {
    let mut bits = Vec::with_capacity(bytes.len() * 8);
    for byte in bytes {
        for index in 0..8 {
            let shift = match bit_order {
                DirectDsdBitOrder::LsbFirst => index,
                DirectDsdBitOrder::MsbFirst => 7 - index,
            };
            bits.push((byte >> shift) & 1);
        }
    }
    bits
}

fn dff_fixture() -> (Vec<u8>, Vec<u8>) {
    let left = [0x01, 0x23, 0x45, 0x67, 0x89, 0xab, 0xcd, 0xef];
    let right = [0xfe, 0xdc, 0xba, 0x98, 0x76, 0x54, 0x32, 0x10];
    let mut raw = Vec::new();
    for index in 0..left.len() {
        raw.push(left[index]);
        raw.push(right[index]);
    }

    let mut prop = Vec::new();
    prop.extend_from_slice(b"SND ");
    append_dff_chunk(&mut prop, b"FS  ", &2_822_400_u32.to_be_bytes());
    let mut chnl = Vec::new();
    chnl.extend_from_slice(&2_u16.to_be_bytes());
    chnl.extend_from_slice(b"SLFTSRGT");
    append_dff_chunk(&mut prop, b"CHNL", &chnl);
    append_dff_chunk(&mut prop, b"CMPR", b"DSD ");

    let mut body = Vec::new();
    append_dff_chunk(&mut body, b"PROP", &prop);
    append_dff_chunk(&mut body, b"DSD ", &raw);

    let mut file = Vec::new();
    file.extend_from_slice(b"FRM8");
    file.extend_from_slice(&(4_u64 + body.len() as u64).to_be_bytes());
    file.extend_from_slice(b"DSD ");
    file.extend_from_slice(&body);

    let expected = vec![
        0x01, 0x23, 0x45, 0x67, 0xfe, 0xdc, 0xba, 0x98, 0x89, 0xab, 0xcd, 0xef, 0x76, 0x54, 0x32,
        0x10,
    ];
    (file, expected)
}

fn reader(bytes: &[u8]) -> DirectDsdReader {
    DirectDsdReader::open_local(bytes.to_vec()).unwrap()
}

fn source(bytes: &[u8]) -> DirectDsdSource {
    DirectDsdSource::open_local(reader(bytes), 0).unwrap()
}

fn pull(source: &mut DirectDsdSource) -> Option<Vec<u8>> {
    let ring = &mut source.monitor.ring;
    direct_dsd_next_block(ring).map(|block| ring.block_bytes(block).to_vec())
}

fn release(source: &mut DirectDsdSource) {
    direct_dsd_release_block(&mut source.monitor.ring);
}

/// Fills the ring as far as it goes.
fn produce_all(source: &mut DirectDsdSource) {
    loop {
        match source.produce() {
            ProducerStep::Filled | ProducerStep::Installed => {}
            ProducerStep::AtEnd => {
                source.end_of_source();
            }
            _ => break,
        }
    }
}

fn test_dsd64_format() -> DirectDsdFormat {
    DirectDsdFormat {
        bit_rate: 2_822_400,
        channels: 2,
        bit_order: DirectDsdBitOrder::LsbFirst,
        container: DirectDsdContainer::Dsf,
    }
}

#[test]
fn native_dsd_duration_uses_one_bit_rate_semantics() {
    let (dsf, _) = dsf_fixture(64);
    let dsf_reader = reader(&dsf);
    assert_eq!(dsf_reader.format().bit_rate, 2_822_400);
    let secs = dsf_reader.duration_bits() as f64 / 2_822_400.0;
    assert!((secs - 64.0 / 2_822_400.0).abs() < f64::EPSILON);

    let (dff, _) = dff_fixture();
    let dff_reader = reader(&dff);
    assert_eq!(dff_reader.format().bit_rate, 2_822_400);
    let secs = dff_reader.duration_bits() as f64 / 2_822_400.0;
    assert!((secs - 64.0 / 2_822_400.0).abs() < f64::EPSILON);
}

#[test]
fn dsf_lsb_payload_keeps_every_native_bit_and_only_repacks_l4r4() {
    let (bytes, expected) = dsf_fixture(64);
    let mut reader = reader(&bytes);
    assert_eq!(
        reader.format(),
        DirectDsdFormat {
            bit_rate: 2_822_400,
            channels: 2,
            bit_order: DirectDsdBitOrder::LsbFirst,
            container: DirectDsdContainer::Dsf,
        }
    );
    let mut output = vec![0_u8; reader.max_output_len()];
    let len = reader.read_block(&mut output).unwrap().unwrap();
    assert_eq!(&output[..len], expected);
    assert!(reader.read_block(&mut output).unwrap().is_none());
}

#[test]
fn dsf_lsb_adapts_to_msb_wire_without_changing_the_logical_dsd_sequence() {
    let (bytes, source_expected) = dsf_fixture(64);
    let mut source = source(&bytes);
    source
        .set_wire_bit_order_while_paused(DirectDsdBitOrder::MsbFirst, 0, 0)
        .unwrap();

    let actual = pull(&mut source).unwrap();
    let wire_expected: Vec<u8> = source_expected
        .iter()
        .map(|byte: &u8| byte.reverse_bits())
        .collect();
    assert_eq!(actual, wire_expected);
    assert_eq!(
        logical_dsd_bits(&source_expected, DirectDsdBitOrder::LsbFirst),
        logical_dsd_bits(&actual, DirectDsdBitOrder::MsbFirst)
    );
    release(&mut source);
}

#[test]
fn dff_msb_payload_keeps_every_native_bit_and_only_repacks_l4r4() {
    let (bytes, expected) = dff_fixture();
    let mut reader = reader(&bytes);
    assert_eq!(
        reader.format(),
        DirectDsdFormat {
            bit_rate: 2_822_400,
            channels: 2,
            bit_order: DirectDsdBitOrder::MsbFirst,
            container: DirectDsdContainer::Dff,
        }
    );
    let mut output = vec![0_u8; reader.max_output_len()];
    let len = reader.read_block(&mut output).unwrap().unwrap();
    assert_eq!(&output[..len], expected);
    assert!(reader.read_block(&mut output).unwrap().is_none());
}

#[test]
fn dsd_callback_borrows_the_same_preallocated_repack_buffer() {
    let (bytes, expected) = dsf_fixture(64);
    let mut source = source(&bytes);
    assert_eq!(source.format().bit_order, DirectDsdBitOrder::LsbFirst);
    assert!(!source.failed());
    assert!(!source.finished());
    let expected_ptr = source.monitor.ring.slots[0].buffer.as_ptr();

    let block = direct_dsd_next_block(&mut source.monitor.ring).unwrap();
    let data = source.monitor.ring.block_bytes(block);
    assert_eq!(data.as_ptr(), expected_ptr);
    assert_eq!(data, expected);
    release(&mut source);
}

#[test]
fn native_dsd_seek_keeps_exact_bits_for_dsf_and_dff() {
    let target_bits = 32;
    let expected_tail = [0x89, 0xab, 0xcd, 0xef, 0x76, 0x54, 0x32, 0x10];

    let (dsf, _) = dsf_fixture(64);
    let (dff, _) = dff_fixture();
    for bytes in [dsf, dff] {
        let mut reader = reader(&bytes);
        assert_eq!(reader.seek_bits(target_bits), target_bits);
        let mut output = vec![0_u8; reader.max_output_len()];
        let len = reader.read_block(&mut output).unwrap().unwrap();
        assert_eq!(&output[..len], expected_tail);
        assert!(reader.read_block(&mut output).unwrap().is_none());
    }
}

#[test]
fn dsd_source_position_advances_only_when_sdk_releases_in_flight_block() {
    let (bytes, _) = dsf_fixture(64);
    let (mut source, actual) = DirectDsdSource::open_local_at(reader(&bytes), 0, 0).unwrap();
    assert_eq!(actual, 0);
    assert!(pull(&mut source).is_some());
    assert_eq!(source.monitor.consumed_bits(), 0);
    release(&mut source);
    let position = source.monitor.consumed_bits() as f64 / source.monitor.bit_rate as f64;
    assert_eq!(position, 64.0 / 2_822_400.0);
}

#[test]
fn dsd_source_seek_reuses_the_same_callback_context_and_ring() {
    let (bytes, _) = dsf_fixture(64);
    let mut source = source(&bytes);
    let slots_before = source.monitor.ring.slots.as_ptr();
    let target_bits = 32;
    let expected_tail = [0x89, 0xab, 0xcd, 0xef, 0x76, 0x54, 0x32, 0x10];

    assert_eq!(source.seek_while_paused(target_bits, 0).unwrap(), target_bits);
    assert_eq!(source.monitor.ring.slots.as_ptr(), slots_before);
    assert_eq!(pull(&mut source).unwrap(), expected_tail);
    release(&mut source);
}

#[test]
fn same_wire_format_dsd_handoff_keeps_callback_context_and_native_bits() {
    let (first_bytes, _) = dsf_fixture(64);
    let (mut second_bytes, _) = dsf_fixture(64);
    let second_raw = [
        0xaa, 0xbb, 0xcc, 0xdd, 0x11, 0x22, 0x33, 0x44, 0x55, 0x66, 0x77, 0x88, 0x99, 0xab, 0xcd,
        0xef,
    ];
    let raw_start = second_bytes.len() - second_raw.len();
    second_bytes[raw_start..].copy_from_slice(&second_raw);
    let expected = [
        0xaa, 0xbb, 0xcc, 0xdd, 0x55, 0x66, 0x77, 0x88, 0x11, 0x22, 0x33, 0x44, 0x99, 0xab, 0xcd,
        0xef,
    ];
    let mut source = source(&first_bytes);
    let slots = source.monitor.ring.slots.as_ptr();

    let second = reader(&second_bytes);
    let duration_micros = second.duration_bits() * 1_000_000 / 2_822_400;
    let format = source.replace_drained_local(second, 0, duration_micros, 0).unwrap();
    assert_eq!(source.monitor.ring.slots.as_ptr(), slots);
    assert_eq!(format.bit_rate, 2_822_400);
    assert_eq!(format.channels, 2);
    assert_eq!(format.bit_order, DirectDsdBitOrder::LsbFirst);

    assert_eq!(pull(&mut source).unwrap(), expected);
    release(&mut source);

    let monitor = &source.monitor;
    assert_eq!(monitor.transition_count(), 1);
    assert_eq!(monitor.boundary_generation(), 1);
    let duration = monitor.duration_micros() as f64 / 1_000_000.0;
    assert!((duration - 64.0 / 2_822_400.0).abs() < 0.000_001);
}

#[test]
fn same_rate_dsf_to_dff_handoff_adapts_to_the_existing_wire_bit_order() {
    let (dsf_bytes, _) = dsf_fixture(64);
    let (dff_bytes, dff_expected) = dff_fixture();
    let mut source = source(&dsf_bytes);
    let slots = source.monitor.ring.slots.as_ptr();

    let format = source.replace_drained_local(reader(&dff_bytes), 0, 0, 0).unwrap();
    assert_eq!(source.monitor.ring.slots.as_ptr(), slots);
    assert_eq!(format.bit_order, DirectDsdBitOrder::MsbFirst);
    assert!(!source.failed());

    let actual = pull(&mut source).unwrap();
    let wire_expected: Vec<u8> = dff_expected
        .iter()
        .map(|byte: &u8| byte.reverse_bits())
        .collect();
    assert_eq!(actual, wire_expected);
    assert_eq!(
        logical_dsd_bits(&dff_expected, DirectDsdBitOrder::MsbFirst),
        logical_dsd_bits(&actual, DirectDsdBitOrder::LsbFirst)
    );
    release(&mut source);

    assert_eq!(source.monitor.transition_count(), 1);
    assert_eq!(source.monitor.boundary_generation(), 1);
}

#[test]
fn dsf_unaligned_tail_fails_instead_of_padding_or_dropping_bits() {
    let (bytes, _) = dsf_fixture(31);
    let error = match DirectDsdReader::open_local(bytes) {
        Ok(_) => panic!("未对齐 DSF 不应通过 Source Direct parser"),
        Err(error) => error,
    };
    assert!(error.message().contains("DSD_SIZ_32"));
}

#[test]
fn staged_dsd_handoff_is_bit_contiguous_and_marks_the_exact_boundary() {
    let (first_bytes, first_expected) = dsf_fixture(64);
    let (mut second_bytes, first_pattern) = dsf_fixture(64);
    let payload_start = second_bytes.len() - 16;
    for byte in &mut second_bytes[payload_start..] {
        *byte ^= 0xff;
    }
    let second_expected: Vec<u8> = first_pattern.into_iter().map(|byte: u8| byte ^ 0xff).collect();
    let mut source = source(&first_bytes);
    let second = reader(&second_bytes);
    let own_micros = second.duration_bits() * 1_000_000 / 2_822_400;

    let epoch = source.begin_stage();
    assert!(source.monitor.staging());
    let staged =
        prepare_staged_dsd_source(second, 0, source.format(), 0, own_micros, 9).unwrap();
    source.collect_stage_outcome(StagePrepareOutcome::Ready(epoch, staged));

    let mut collected = Vec::new();
    let target_len = first_expected.len() + second_expected.len();
    for _ in 0..8 {
        produce_all(&mut source);
        if collected.len() < target_len {
            if let Some(block) = pull(&mut source) {
                collected.extend_from_slice(&block);
            }
        }
    }
    release(&mut source);

    let mut expected = first_expected;
    expected.extend_from_slice(&second_expected);
    assert_eq!(collected, expected);
    assert_eq!(source.monitor.transition_count(), 1);
    assert_eq!(source.monitor.boundary_generation(), 9);
    let duration = source.monitor.duration_micros() as f64 / 1_000_000.0;
    assert!((duration - 64.0 / 2_822_400.0).abs() < 0.000_001);
    assert!(!source.monitor.staging());
}

#[test]
fn staged_dsd_source_locates_to_the_requested_start_offset() {
    let (first_bytes, first_expected) = dsf_fixture(64);
    let (second_bytes, second_expected) = dsf_fixture(64);
    let mut source = source(&first_bytes);
    let start_bits = 32;

    let epoch = source.begin_stage();
    let staged =
        prepare_staged_dsd_source(reader(&second_bytes), start_bits, source.format(), 0, 0, 9)
            .unwrap();
    source.collect_stage_outcome(StagePrepareOutcome::Ready(epoch, staged));

    let mut collected = Vec::new();
    let target_len = first_expected.len() + second_expected[8..].len();
    for _ in 0..8 {
        produce_all(&mut source);
        if collected.len() < target_len {
            if let Some(block) = pull(&mut source) {
                collected.extend_from_slice(&block);
                release(&mut source);
            }
        }
    }

    let mut expected = first_expected;
    expected.extend_from_slice(&second_expected[8..]);
    assert_eq!(collected, expected);
    assert_eq!(source.monitor.transition_count(), 1);
    assert_eq!(source.monitor.boundary_generation(), 9);
}

#[test]
fn ring_depth_covers_target_buffered_duration() {
    let format = test_dsd64_format();
    let target_ms = 400.0;
    let depth = ring_depth_for(format, 8192);
    let buffered_ms = depth as f64 * 4096.0 * 8.0 * 1000.0 / 2_822_400.0;
    assert!(buffered_ms >= target_ms);

    let dff_depth = ring_depth_for(format, 32768);
    let dff_buffered_ms = dff_depth as f64 * 16384.0 * 8.0 * 1000.0 / 2_822_400.0;
    assert!(dff_buffered_ms >= target_ms);

    let dsd512 = DirectDsdFormat {
        bit_rate: 22_579_200,
        ..format
    };
    assert_eq!(ring_depth_for(dsd512, 8192), DIRECT_DSD_RING_DEPTH_MAX);
}

#[test]
fn strict_dsd_ring_underrun_returns_no_block_instead_of_inserting_data() {
    let mut ring = DirectDsdRing::new(64, test_dsd64_format());
    assert!(ring.next_block().is_none());
}

#[test]
fn dsd_pre_mute_window_delivers_0x69_silence_over_the_gap() {
    let mut ring = DirectDsdRing::new(64, test_dsd64_format());
    assert!(ring.next_block().is_none());

    ring.last_delivered_len = 1024;
    ring.trigger_pre_mute(0);
    let block = ring.next_block().expect("pre-mute 窗口内应交付 0x69 静音块");
    assert_eq!(block.len, 1024);
    assert!(ring.block_bytes(block).iter().all(|&b| b == DSD_SILENCE_BYTE));

    ring.pre_mute_until_ms = 0;
    let block = ring.next_block().expect("欠载空窗应交付静音块而非 None");
    assert_eq!(block.len, 1024);
    assert!(ring.block_bytes(block).iter().all(|&b| b == DSD_SILENCE_BYTE));
}

#[test]
fn drain_replaces_blocks_by_silence_until_it_is_cleared() {
    let (bytes, expected) = dsf_fixture(64);
    let mut source = source(&bytes);
    source.begin_drain();
    assert!(!source.wait_soft_pause());
    let block = pull(&mut source).unwrap();
    assert_eq!(block.len(), expected.len());
    assert!(block.iter().all(|&b| b == DSD_SILENCE_BYTE));
    assert!(source.wait_soft_pause());
    source.clear_drain();
    assert!(!source.wait_soft_pause());
    source.seek_while_paused(0, 0).unwrap();
    assert_eq!(pull(&mut source).unwrap(), expected);
}

#[test]
fn drained_silence_is_counted_as_long_as_it_plays() {
    let mut ring = DirectDsdRing::new(8192, test_dsd64_format());
    ring.last_delivered_len = 8192;
    let block = ring.next_block().unwrap();
    ring.apply_drain(block);
    assert_eq!((ring.silence_blocks, ring.silence_micros), (0, 0));
    ring.begin_drain();
    ring.apply_drain(block);
    assert_eq!((ring.silence_blocks, ring.silence_micros), (1, 11_609));
    assert!(ring.block_bytes(block).iter().all(|&b| b == DSD_SILENCE_BYTE));
}

#[test]
fn silence_that_is_held_ready_follows_the_device() {
    let (bytes, expected) = dsf_fixture(64);
    let mut source = source(&bytes);
    assert_eq!(pull(&mut source).unwrap(), expected);
    let silence = pull(&mut source).unwrap();
    assert!(silence.iter().all(|&b| b == DSD_SILENCE_BYTE));
    source.monitor.set_mute_byte(0x96);
    assert!(pull(&mut source).unwrap().iter().all(|&b| b == 0x96));
    source.monitor.set_mute_byte(0);
    assert!(pull(&mut source).unwrap().iter().all(|&b| b == DSD_SILENCE_BYTE));
}

#[test]
fn all_reads_give_the_whole_stream_and_then_nothing() {
    for (bytes, expected) in [dsf_fixture(64), dff_fixture()] {
        let mut reader = reader(&bytes);
        for start in [0_u64, 32, 64] {
            reader.seek_bits(start);
            let mut output = vec![0; reader.max_output_len()];
            let mut all = Vec::new();
            while let Some(len) = reader.read_block(&mut output).unwrap() {
                assert!(len > 0);
                all.extend_from_slice(&output[..len]);
            }
            assert_eq!(all, expected[start as usize / 4..]);
            assert_eq!(reader.read_block(&mut output), Ok(None));
        }
    }
}

#[test]
fn a_source_hands_out_its_stream_in_order() {
    let (bytes, expected) = dsf_fixture(64);
    let mut source = source(&bytes);
    let mut all = Vec::new();
    while !source.finished() {
        if source.produce() == ProducerStep::AtEnd {
            source.end_of_source();
        }
        if all.len() < expected.len() {
            all.extend(pull(&mut source).unwrap());
        }
        direct_dsd_release_block(&mut source.monitor.ring);
    }
    assert_eq!(all, expected);
    assert_eq!(source.monitor.consumed_bits(), 64);
}

#[test]
fn a_disc_image_plays_only_by_its_tracks() {
    assert_eq!(check_native_path("/m/disc.ISO"), Err(DirectDsdError::BareDiscImage));
    assert_eq!(check_native_path("/m/disc.iso"), Err(DirectDsdError::BareDiscImage));
    assert_eq!(check_native_path("/m/a.dsf"), Ok(()));
    assert_eq!(check_native_path("/m/disc.iso|2"), Ok(()));
    assert!(DirectDsdError::BareDiscImage.message().contains("SACD ISO"));
}

#[test]
fn a_device_may_name_its_own_silence() {
    let mut ring = DirectDsdRing::new(64, test_dsd64_format());
    assert_eq!(ring.silence_byte(), DSD_SILENCE_BYTE);
    ring.mute_byte = 0x96;
    assert_eq!(ring.silence_byte(), 0x96);
}

#[test]
fn a_failed_ring_hands_out_nothing() {
    let (bytes, _) = dsf_fixture(64);
    let mut source = source(&bytes);
    source.monitor.ring.failed = true;
    assert!(pull(&mut source).is_none());
    assert!(source.failed());
    assert_eq!(source.produce(), ProducerStep::WaitFailed);
}

#[test]
fn a_cancelled_preparation_is_dropped() {
    let (bytes, _) = dsf_fixture(64);
    let mut source = source(&bytes);
    let epoch = source.begin_stage();
    let staged =
        prepare_staged_dsd_source(reader(&bytes), 0, source.format(), 5, 7, 1).unwrap();
    assert_eq!(staged.duration_micros, 5);
    source.cancel_staged();
    source.collect_stage_outcome(StagePrepareOutcome::Ready(epoch, staged));
    assert!(source.staged.is_none());
    assert!(!source.monitor.staging());
}

#[test]
fn a_source_of_another_rate_is_refused() {
    let (bytes, expected) = dsf_fixture(64);
    let (mut other, _) = dsf_fixture(64);
    other[56..60].copy_from_slice(&5_644_800_u32.to_le_bytes());
    let mut source = source(&bytes);
    assert_eq!(
        source.replace_drained_local(reader(&other), 0, 0, 0),
        Err(DirectDsdError::TransportMismatch)
    );
    assert!(matches!(
        prepare_staged_dsd_source(reader(&other), 0, source.format(), 0, 0, 1),
        Err(DirectDsdError::TransportMismatch)
    ));
    assert_eq!(pull(&mut source).unwrap(), expected);
}

#[test]
fn broken_files_are_refused() {
    assert!(DirectDsdReader::open_local(Vec::new()).is_err());
    assert!(DirectDsdReader::open_local(b"RIFF0000WAVE".to_vec()).is_err());
    let (bytes, _) = dsf_fixture(64);
    assert!(DirectDsdReader::open_local(bytes[..60].to_vec()).is_err());
    assert!(DirectDsdReader::open_local(bytes[..bytes.len() - 4].to_vec()).is_err());
    let (dff, _) = dff_fixture();
    assert!(DirectDsdReader::open_local(dff[..20].to_vec()).is_err());
}

#[test]
fn adapting_twice_gives_the_bytes_back() {
    let mut payload = vec![0x01, 0x80, 0x69, 0xff];
    adapt_dsd_bit_order(
        &mut payload,
        3,
        DirectDsdBitOrder::LsbFirst,
        DirectDsdBitOrder::MsbFirst,
    );
    assert_eq!(payload, vec![0x80, 0x01, 0x96, 0xff]);
    adapt_dsd_bit_order(
        &mut payload,
        3,
        DirectDsdBitOrder::MsbFirst,
        DirectDsdBitOrder::LsbFirst,
    );
    assert_eq!(payload, vec![0x01, 0x80, 0x69, 0xff]);
}

#[test]
fn a_source_at_its_end_is_finished_once_it_is_played() {
    let (bytes, _) = dsf_fixture(64);
    let mut source = source(&bytes);
    produce_all(&mut source);
    assert!(!source.finished());
    assert_eq!(source.monitor.pending_blocks(), 1);
    assert!(pull(&mut source).is_some());
    release(&mut source);
    assert!(source.finished());
    assert!(source.monitor.wait_first_consumed());
    assert_eq!(source.monitor.pending_blocks(), 0);
}
