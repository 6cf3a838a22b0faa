//! PCM: frames, the ring, fades, sources that follow each other, and decoders.

use audio_engine_core::direct_pcm::decoder::{
    avio_read_packet, avio_seek, ffmpeg_result, frame_timestamp, is_http_source, open_step,
    seek_step, seek_timestamp, timeline_origin, valid_bits_hint, AvioRead, AvioSeek, CodecResult,
    DecoderSession, OpenStage, OpenStep, PacketResult, ReadAction, SeekStep, AVSEEK_SIZE,
};
use audio_engine_core::direct_pcm::fade::{
    store_scaled, DirectPcmFadeState, FadeAction, FadeRamp,
};
use audio_engine_core::direct_pcm::frame::{
    accept_decoded_frame, downmix_extra_targets, downmix_float_planar_share, downmix_share,
    interleave_planar, repack_planar, repack_samples, trim_start_samples, DecodedFrame,
    DecodedSampleFormat, DirectPcmRepackBuffer, DownmixShare, RepackKind,
};
use audio_engine_core::direct_pcm::producer::{DirectPcmSource, PcmStep};
use audio_engine_core::direct_pcm::ring::{
    direct_pcm_next_block, direct_pcm_release_block, DirectPcmRing, PcmFrame,
};
use audio_engine_core::direct_pcm::{
    same_pcm_transport, DirectPcmError, DirectPcmFormat, DirectPcmMemoryPath,
    DirectPcmSampleFormat,
};

fn s16_format(sample_rate: u32) -> DirectPcmFormat {
    DirectPcmFormat {
        sample_rate,
        channels: 2,
        valid_bits: 16,
        storage_bits: 16,
        sample_format: DirectPcmSampleFormat::Signed16,
        memory_path: DirectPcmMemoryPath::ZeroCopyPacked,
    }
}

fn s16_frame(sample_rate: u32, samples: &[i16]) -> PcmFrame {
    PcmFrame {
        format: s16_format(sample_rate),
        payload: bytes_of(samples),
        frames: samples.len() / 2,
    }
}

fn bytes_of(samples: &[i16]) -> Vec<u8> {
    samples.iter().flat_map(|sample| sample.to_le_bytes()).collect()
}

fn open(sample_rate: u32, samples: &[i16]) -> DirectPcmSource {
    DirectPcmSource::open_with_decoder(Ok(Some(s16_frame(sample_rate, samples))), false).unwrap()
}

fn pull(source: &mut DirectPcmSource) -> Option<(Vec<u8>, FadeAction)> {
    let ring = &mut source.monitor.ring;
    direct_pcm_next_block(ring, 0).map(|(block, action)| (ring.block_bytes(block).to_vec(), action))
}

fn release(source: &mut DirectPcmSource) {
    direct_pcm_release_block(&mut source.monitor.ring);
}

/// Runs production with a decoder that gives these frames and then ends.
fn produce_all(source: &mut DirectPcmSource, mut frames: Vec<PcmFrame>) {
    frames.reverse();
    for _ in 0..64 {
        match source.produce() {
            PcmStep::Decode => {
                source.decoded(Ok(frames.pop()));
            }
            PcmStep::Filled | PcmStep::Silenced | PcmStep::Installed | PcmStep::Ended => {}
            _ => return,
        }
    }
}

#[test]
fn incompatible_pcm_handoff_fails_before_replacing_the_current_ring() {
    let initial = [0_i16; 128];
    let mut source = open(44_100, &initial);
    let slots = source.monitor.ring.slots.as_ptr();
    let format = source.format();

    let error = source
        .replace_drained_local(Ok(Some(s16_frame(48_000, &initial))), 0)
        .unwrap_err();
    assert!(error.message().contains("wire format"));
    assert_eq!(source.monitor.ring.slots.as_ptr(), slots);
    assert_eq!(source.format(), format);
    assert!(!source.failed());
}

#[test]
fn staged_pcm_handoff_is_sample_contiguous_and_marks_the_exact_boundary() {
    let first_samples = [-300_i16, 300, -200, 200, -100, 100, -1, 1];
    let second_samples = [11_i16, -11, 22, -22, 33, -33, 44, -44];
    let mut source = open(44_100, &first_samples);
    source.set_duration(1_000_000);
    source
        .stage_local(Ok(Some(s16_frame(44_100, &second_samples))), 2_000_000, 7)
        .unwrap();

    let first_pcm = bytes_of(&first_samples);
    let second_pcm = bytes_of(&second_samples);
    let mut collected = Vec::new();
    for _ in 0..8 {
        produce_all(&mut source, Vec::new());
        if collected.len() < first_pcm.len() + second_pcm.len() {
            if let Some((block, _)) = pull(&mut source) {
                collected.extend_from_slice(&block);
            }
        }
    }
    release(&mut source);

    let mut expected = first_pcm;
    expected.extend_from_slice(&second_pcm);
    assert_eq!(collected, expected);
    assert_eq!(source.monitor.transition_count(), 1);
    assert_eq!(source.monitor.boundary_generation(), 7);
    assert_eq!(source.monitor.duration_micros(), 2_000_000);
}

#[test]
fn strict_ring_underrun_returns_no_block_instead_of_inserting_silence() {
    let mut ring = DirectPcmRing::new();
    assert!(ring.next_block(0).is_none());
}

#[test]
fn pre_mute_window_delivers_silence_over_the_underrun_gap() {
    let mut ring = DirectPcmRing::new();
    assert!(ring.next_block(0).is_none());

    ring.last_block_bytes = 480;
    ring.last_block_frames = 120;
    ring.trigger_pre_mute(0);
    let block = ring.next_block(0).expect("pre-mute 窗口内应交付静音块");
    assert_eq!(block.len, 480);
    assert!(ring.block_bytes(block).iter().all(|&b| b == 0));

    ring.pre_mute_until_ms = 0;
    assert!(ring.next_block(0).is_none());
}

#[test]
fn silence_blocks_use_per_slot_storage() {
    let mut ring = DirectPcmRing::new();

    ring.slots[0].fill_silence(1024, 256);
    let ptr_a = ring.slots[0].silence.as_ptr();
    assert_eq!(ring.slots[0].payload_len, 1024);

    ring.slots[1].fill_silence(4096, 1024);
    let ptr_b = ring.slots[1].silence.as_ptr();
    assert_ne!(ptr_a, ptr_b, "两个 slot 的静音块不得共享同一分配");

    ring.slots[1].fill_silence(8192, 2048);
    assert_eq!(ring.slots[0].silence.as_ptr(), ptr_a);
    assert_eq!(ring.slots[1].payload_len, 8192);

    let silence = &ring.slots[1].silence;
    assert_eq!(silence.len(), 8192);
    assert!(silence.iter().all(|&b| b == 0));
}

fn weight(share: DownmixShare) -> f32 {
    match share {
        DownmixShare::Zero => 0.0,
        DownmixShare::Full => 1.0,
        DownmixShare::InvSqrt2 => 0.707_106_77,
        DownmixShare::Half => 0.5,
    }
}

/// The two channels of a frame whose channel `n` holds `(n + 1) * 1000`.
fn mixed(channels: usize) -> (i16, i16) {
    let mut l = 0.0_f32;
    let mut r = 0.0_f32;
    for channel in 0..channels {
        let sample = ((channel + 1) * 1000) as f32;
        let (to_left, to_right) = downmix_share(channels, channel);
        l += weight(to_left) * sample;
        r += weight(to_right) * sample;
    }
    (l.round() as i16, r.round() as i16)
}

#[test]
fn multichannel_downmix_planar_5_1_and_6_1_to_stereo() {
    assert_eq!(mixed(6), (6657, 8364));
    assert_eq!(mixed(7), (9864, 11571));
}

#[test]
fn quad_downmix_routes_bl_to_left_and_br_to_right() {
    assert_eq!(mixed(4), (2500, 4000));
}

#[test]
fn five_channel_downmix_routes_surround_pair_by_side() {
    assert_eq!(mixed(5), (5121, 6621));
}

#[test]
fn surround_channels_go_to_their_side() {
    assert_eq!(downmix_share(8, 4), (DownmixShare::Half, DownmixShare::Zero));
    assert_eq!(downmix_share(8, 5), (DownmixShare::Zero, DownmixShare::Half));
    assert_eq!(downmix_share(6, 3), (DownmixShare::Zero, DownmixShare::Zero));
    assert_eq!(&downmix_extra_targets(4)[..1], b"R");
    let (l, r) = downmix_float_planar_share(6, 0);
    assert_eq!((l, r), (DownmixShare::Full, DownmixShare::Zero));
}

fn decoded(sample_format: DecodedSampleFormat) -> DecodedFrame {
    DecodedFrame {
        sample_format,
        sample_rate: 44_100,
        channels: 2,
        samples: 32,
        line_size: 256,
        has_data: true,
        has_planes: true,
    }
}

#[test]
fn strict_direct_rejects_unsupported_pcm() {
    let error = accept_decoded_frame(&decoded(DecodedSampleFormat::Other(4)), 32).unwrap_err();
    assert!(error.message().contains("不支持 FFmpeg sample format"));
}

#[test]
fn accepted_frames_tell_their_wire_format() {
    let packed = accept_decoded_frame(&decoded(DecodedSampleFormat::S32), 24).unwrap();
    assert_eq!(packed.payload_len, 32 * 2 * 4);
    assert_eq!(packed.samples_per_channel, 32);
    assert_eq!(packed.format.valid_bits, 24);
    assert_eq!(packed.format.storage_bits, 32);
    assert_eq!(packed.format.memory_path, DirectPcmMemoryPath::ZeroCopyPacked);

    let planar = accept_decoded_frame(&decoded(DecodedSampleFormat::S16Planar), 0).unwrap();
    assert_eq!(planar.payload_len, 32 * 2 * 2);
    assert_eq!(planar.format.memory_path, DirectPcmMemoryPath::BitPerfectRepack);

    let mut surround = decoded(DecodedSampleFormat::FloatPlanar);
    surround.channels = 6;
    let mixed = accept_decoded_frame(&surround, 0).unwrap();
    assert_eq!(mixed.format.channels, 2);
    assert_eq!(mixed.format.storage_bits, 32);
}

#[test]
fn frames_that_cannot_be_played_are_refused() {
    let good = decoded(DecodedSampleFormat::S16);
    let refused = |frame: DecodedFrame| accept_decoded_frame(&frame, 16).unwrap_err();
    assert_eq!(refused(DecodedFrame { sample_rate: 0, ..good }), DirectPcmError::SampleRate);
    assert_eq!(refused(DecodedFrame { channels: 0, ..good }), DirectPcmError::Channels);
    assert_eq!(refused(DecodedFrame { samples: 0, ..good }), DirectPcmError::NoSamples);
    assert_eq!(refused(DecodedFrame { has_data: false, ..good }), DirectPcmError::DataMissing);
    assert_eq!(
        refused(DecodedFrame { line_size: 4, ..good }),
        DirectPcmError::FrameBufferTooSmall
    );
}

#[test]
fn repacking_is_planned_by_format_and_channels() {
    let frame = decoded(DecodedSampleFormat::S16Planar);
    let plan = repack_planar(&frame, DirectPcmSampleFormat::Signed16, 8).unwrap();
    assert_eq!(plan.kind, RepackKind::InterleaveS16);
    assert_eq!(plan.samples, 24);
    assert_eq!(plan.output_samples, 48);
    assert_eq!(
        repack_planar(&frame, DirectPcmSampleFormat::Signed16, 32),
        Err(DirectPcmError::SeekOffset)
    );

    let mut buffer = DirectPcmRepackBuffer::Empty;
    buffer.preallocate_repack(DirectPcmSampleFormat::Signed16, 48).unwrap();
    assert!(matches!(&buffer, DirectPcmRepackBuffer::Signed16(v) if v.len() >= 48));
    assert_eq!(
        buffer.preallocate_repack(DirectPcmSampleFormat::Signed32, 48),
        Err(DirectPcmError::RepackFormatChanged)
    );
    assert_eq!(repack_samples(0, 100, 2), Ok(200));
    assert_eq!(repack_samples(4096, 100, 2), Ok(8192));
}

#[test]
fn planes_are_interleaved_sample_by_sample() {
    let planes = vec![vec![1_i16, 2, 3, 4], vec![-1_i16, -2, -3, -4]];
    let mut output = vec![0_i16; 6];
    interleave_planar(&planes, 1, 3, &mut output).unwrap();
    assert_eq!(output, vec![2, -2, 3, -3, 4, -4]);
    let mut small = vec![0_i16; 2];
    assert_eq!(
        interleave_planar(&planes, 1, 3, &mut small),
        Err(DirectPcmError::RepackBufferTooSmall)
    );
}

#[test]
fn trimming_keeps_whole_samples() {
    assert_eq!(trim_start_samples(32, 8, s16_format(44_100)), Ok(24 * 4));
    assert_eq!(trim_start_samples(32, 32, s16_format(44_100)), Err(DirectPcmError::SeekOffset));
}

#[test]
fn same_pcm_transport_accepts_identical_format() {
    let f1 = DirectPcmFormat {
        sample_rate: 44_100,
        channels: 2,
        valid_bits: 16,
        storage_bits: 16,
        sample_format: DirectPcmSampleFormat::Signed16,
        memory_path: DirectPcmMemoryPath::ZeroCopyPacked,
    };
    let f2 = DirectPcmFormat {
        sample_rate: 44_100,
        channels: 2,
        valid_bits: 16,
        storage_bits: 16,
        sample_format: DirectPcmSampleFormat::Signed16,
        memory_path: DirectPcmMemoryPath::BitPerfectRepack,
    };
    assert!(same_pcm_transport(f1, f2));
}

#[test]
fn same_pcm_transport_rejects_different_sample_rate() {
    let f1 = DirectPcmFormat {
        sample_rate: 44_100,
        channels: 2,
        valid_bits: 16,
        storage_bits: 16,
        sample_format: DirectPcmSampleFormat::Signed16,
        memory_path: DirectPcmMemoryPath::ZeroCopyPacked,
    };
    let f2 = DirectPcmFormat {
        sample_rate: 48_000,
        channels: 2,
        valid_bits: 16,
        storage_bits: 16,
        sample_format: DirectPcmSampleFormat::Signed16,
        memory_path: DirectPcmMemoryPath::ZeroCopyPacked,
    };
    assert!(!same_pcm_transport(f1, f2));
}

#[test]
fn same_pcm_transport_rejects_different_channels() {
    let f1 = DirectPcmFormat {
        sample_rate: 44_100,
        channels: 2,
        valid_bits: 16,
        storage_bits: 16,
        sample_format: DirectPcmSampleFormat::Signed16,
        memory_path: DirectPcmMemoryPath::ZeroCopyPacked,
    };
    let f2 = DirectPcmFormat {
        sample_rate: 44_100,
        channels: 1,
        valid_bits: 16,
        storage_bits: 16,
        sample_format: DirectPcmSampleFormat::Signed16,
        memory_path: DirectPcmMemoryPath::ZeroCopyPacked,
    };
    assert!(!same_pcm_transport(f1, f2));
}

#[test]
fn replace_local_clears_silence_blocks_and_increments_transition_count() {
    let samples_a: Vec<i16> = (0..8192).collect();
    let samples_b: Vec<i16> = (8192..16384).collect();
    let mut source = open(44_100, &samples_a[..2048]);
    let frames = samples_a[2048..]
        .chunks(2048)
        .map(|chunk| s16_frame(44_100, chunk))
        .collect();
    produce_all(&mut source, frames);

    for _ in 0..10 {
        if pull(&mut source).is_some() {
            release(&mut source);
        }
    }
    let tx_before = source.monitor.transition_count();

    source.set_duration(2_000_000);
    let new_format = source
        .replace_drained_local(Ok(Some(s16_frame(44_100, &samples_b))), 0)
        .unwrap();
    assert_eq!(new_format.sample_rate, 44_100);
    assert_eq!(new_format.channels, 2);
    assert_eq!(new_format.storage_bits, 16);

    let readable = pull(&mut source);
    assert!(readable.is_some(), "handoff 后 ring 应立即可读，否则切歌有卡顿");
    assert_eq!(readable.unwrap().0, bytes_of(&samples_b));
    release(&mut source);

    assert_eq!(source.monitor.transition_count(), tx_before + 1);
    let silence_after = source.monitor.silence_blocks();
    assert!(
        silence_after <= 8,
        "handoff 后 silence_blocks 不应大量累积，实际={silence_after}（这会导致切歌拖尾）"
    );
}

#[test]
fn replace_local_rejects_different_format_gracefully() {
    let samples_a: Vec<i16> = (0..4096).collect();
    let samples_b: Vec<i16> = (4096..8192).collect();
    let mut source = open(44_100, &samples_a);

    let result = source.replace_drained_local(Ok(Some(s16_frame(48_000, &samples_b))), 0);
    assert!(
        result.is_err(),
        "不同 sample_rate 应该返回错误，而不是静默替换导致音频损坏"
    );

    let still_playing = pull(&mut source);
    assert!(still_playing.is_some(), "格式不兼容错误不应破坏原始 source");
    release(&mut source);
}

#[test]
fn a_fade_ramps_one_block_and_then_stays_silent() {
    let samples: Vec<i16> = (1..=2048).collect();
    let mut source = open(44_100, &samples);
    produce_all(
        &mut source,
        vec![s16_frame(44_100, &samples), s16_frame(44_100, &samples)],
    );
    let (first, action) = pull(&mut source).unwrap();
    assert_eq!(action, FadeAction::Keep);
    assert_eq!(first, bytes_of(&samples));
    release(&mut source);

    source.begin_fade_out();
    assert!(!source.is_faded_out());
    let (second, action) = pull(&mut source).unwrap();
    assert_eq!(second.len(), first.len());
    match action {
        FadeAction::Ramp(ramp) => {
            assert_eq!(ramp.sample_bits, 16);
            assert_eq!(ramp.total_samples, 2048);
            assert_eq!(ramp.start_micro, 1_000_000);
            assert_eq!(ramp.end_micro, 0);
            assert!(ramp.window <= 2048);
        }
        other => panic!("unexpected {other:?}"),
    }
    assert!(source.is_faded_out());
    release(&mut source);

    let (third, action) = pull(&mut source).unwrap();
    assert_eq!(action, FadeAction::Silence);
    assert!(third.iter().all(|&b| b == 0));
    assert_eq!(source.silence_blocks_handed(), 1);
    assert!(source.wait_fade_drained(1));
    assert!(!source.wait_fade_drained(2));
}

/// The bytes of a block of 16-bit samples after a ramp.
fn ramped(bytes: &[u8], ramp: FadeRamp) -> Vec<u8> {
    let start = f64::from(ramp.start_micro) / 1_000_000.0;
    let end = f64::from(ramp.end_micro) / 1_000_000.0;
    let scaled: Vec<i64> = bytes
        .chunks_exact(2)
        .enumerate()
        .map(|(i, pair)| {
            let gain = if i >= ramp.window {
                end
            } else {
                start + (end - start) * (i as f64) / (ramp.window as f64)
            };
            (f64::from(i16::from_le_bytes([pair[0], pair[1]])) * gain).round() as i64
        })
        .collect();
    store_scaled(ramp, &scaled)
        .iter()
        .flat_map(|sample| (*sample as i16).to_le_bytes())
        .collect()
}

#[test]
fn fade_out_ramps_block_head_bit_exact_then_silence() {
    let samples: Vec<i16> = (0..16_384_i32)
        .flat_map(|i| {
            let sample = ((i * 37) % 20000 - 10000) as i16;
            [sample, sample]
        })
        .collect();
    let sources = || {
        let mut source = open(44_100, &samples[..4096]);
        let frames = samples[4096..]
            .chunks(4096)
            .map(|chunk| s16_frame(44_100, chunk))
            .collect();
        produce_all(&mut source, frames);
        source
    };
    let mut reference = sources();
    let mut fading = sources();

    let (ref1, _) = pull(&mut reference).unwrap();
    release(&mut reference);
    let (first, action) = pull(&mut fading).unwrap();
    assert_eq!(action, FadeAction::Keep);
    assert_eq!(first, ref1);
    release(&mut fading);

    fading.begin_fade_out();
    assert!(!fading.is_faded_out());
    let (ref2, _) = pull(&mut reference).unwrap();
    release(&mut reference);
    let (second, action) = pull(&mut fading).unwrap();
    let faded = match action {
        FadeAction::Ramp(ramp) => ramped(&second, ramp),
        other => panic!("unexpected {other:?}"),
    };
    let len = faded.len();
    assert_eq!(&faded[..2], &ref2[..2], "块首样本增益 1.0 应保持位精确");
    let last = i16::from_le_bytes([faded[len - 2], faded[len - 1]]);
    assert_eq!(last, 0, "淡出窗尾应落到零电平");
    assert!(faded.len() == ref2.len());
    release(&mut fading);
    assert!(fading.is_faded_out());

    let (silent, _) = pull(&mut fading).unwrap();
    assert!(silent.iter().all(|byte| *byte == 0));
    release(&mut fading);
    assert_eq!(fading.silence_blocks_handed(), 1);
}

#[test]
fn scaled_samples_keep_their_padding_zero() {
    let ramp = FadeRamp {
        sample_bits: 32,
        total_samples: 3,
        window: 3,
        start_micro: 1_000_000,
        end_micro: 0,
        shift: 8,
    };
    assert_eq!(
        store_scaled(ramp, &[0x1234_5600, 0x1234_56ff, -1]),
        vec![0x1234_5600, 0x1234_5600, -256]
    );
}

#[test]
fn a_steady_fade_state_keeps_every_block() {
    let mut fade = DirectPcmFadeState::new();
    assert_eq!(fade.step(4096), FadeAction::Keep);
    fade.begin_fade_out(16, 16, 44_100);
    assert!(matches!(fade.step(4096), FadeAction::Ramp(_)));
    assert!(fade.silent());
    fade.reset();
    assert!(!fade.silent());
    assert_eq!(fade.step(4096), FadeAction::Keep);
}

#[test]
fn a_second_fade_ramps_from_full_gain_again() {
    let mut fade = DirectPcmFadeState::new();
    fade.begin_fade_out(16, 16, 44_100);
    let first = fade.step(4096);
    assert_eq!(fade.step(4096), FadeAction::Silence);
    fade.reset();
    fade.begin_fade_out(16, 16, 44_100);
    assert!(!fade.silent());
    let second = fade.step(4096);
    assert_eq!(first, second);
    match second {
        FadeAction::Ramp(ramp) => {
            assert_eq!((ramp.start_micro, ramp.end_micro), (1_000_000, 0));
            assert_eq!(ramp.window, 882);
        }
        _ => panic!("no ramp"),
    }
    assert!(fade.silent());
}

#[test]
fn a_fade_that_is_asked_for_twice_still_starts_at_full_gain() {
    let mut fade = DirectPcmFadeState::new();
    fade.begin_fade_out(32, 24, 48_000);
    fade.begin_fade_out(32, 24, 48_000);
    assert!(matches!(
        fade.step(4096),
        FadeAction::Ramp(ramp) if ramp.start_micro == 1_000_000 && ramp.end_micro == 0
    ));
}

#[test]
fn the_position_moves_when_a_block_is_given_back() {
    let mut source = open(44_100, &[1, 2, 3, 4]);
    assert!(pull(&mut source).is_some());
    assert_eq!(source.monitor.consumed_frames(), 0);
    release(&mut source);
    assert_eq!(source.monitor.consumed_frames(), 2);
    assert!(source.monitor.wait_first_consumed());
}

#[test]
fn a_source_hands_out_its_frames_in_order() {
    let frames: Vec<Vec<i16>> = (1..=12).map(|n| vec![n, -n, n, -n]).collect();
    let follower = [100_i16, -100];
    let mut source = open(44_100, &frames[0]);
    source
        .stage_local(Ok(Some(s16_frame(44_100, &follower))), 2_000_000, 7)
        .unwrap();
    let mut rest: Vec<PcmFrame> = frames[1..].iter().map(|f| s16_frame(44_100, f)).collect();
    rest.reverse();
    let mut blocks = Vec::new();
    let mut positions = Vec::new();
    while !source.finished() {
        if source.produce() == PcmStep::Decode {
            source.decoded(Ok(rest.pop()));
        }
        if let Some((block, _)) = pull(&mut source) {
            blocks.push(block);
            release(&mut source);
            positions.push(source.monitor.consumed_frames());
        }
    }
    let mut expected: Vec<Vec<u8>> = frames.iter().map(|f| bytes_of(f)).collect();
    expected.push(bytes_of(&follower));
    assert_eq!(blocks, expected);
    let mut counted: Vec<u64> = (1..=12).map(|n| 2 * n).collect();
    counted.push(1);
    assert_eq!(positions, counted);
}

#[test]
fn a_frame_of_another_format_stops_production() {
    let mut source = open(44_100, &[1, 2, 3, 4]);
    assert_eq!(source.produce(), PcmStep::Decode);
    assert_eq!(source.decoded(Ok(Some(s16_frame(48_000, &[1, 2])))), PcmStep::Stopped);
    assert!(source.failed());
}

#[test]
fn a_staged_source_is_taken_by_its_generation() {
    let mut source = open(44_100, &[1, -1]);
    source.stage_local(Ok(Some(s16_frame(44_100, &[2, -2]))), 0, 7).unwrap();
    assert!(source.take_staged(6).is_none());
    let frame = source.take_staged(7).unwrap();
    assert_eq!(frame.payload, bytes_of(&[2, -2]));
    assert!(source.take_staged(7).is_none());
    source.replace_drained_local(Ok(Some(frame)), 0).unwrap();
    assert_eq!(pull(&mut source).unwrap().0, bytes_of(&[2, -2]));
}

#[test]
fn sources_without_a_frame_are_refused() {
    assert!(matches!(
        DirectPcmSource::open_with_decoder(Ok(None), false),
        Err(DirectPcmError::NoFrame)
    ));
    assert!(matches!(
        DirectPcmSource::open_with_decoder(Ok(None), true),
        Err(DirectPcmError::EmptyFrame)
    ));
    assert!(matches!(
        DirectPcmSource::open_with_decoder(Err(DirectPcmError::Decoder(-5)), false),
        Err(DirectPcmError::Decoder(-5))
    ));
}

#[test]
fn seeking_while_paused_starts_with_the_new_frame() {
    let mut source = open(44_100, &[1, 2, 3, 4]);
    source.begin_seek(0);
    source.seek_while_paused(Ok(Some(s16_frame(44_100, &[9, 8])))).unwrap();
    assert_eq!(pull(&mut source).unwrap().0, bytes_of(&[9, 8]));
}

#[test]
fn opening_releases_what_exists_when_it_fails() {
    assert_eq!(
        open_step(OpenStage::ReadStreamInfo, true),
        OpenStep::Go(OpenStage::FindAudioStream)
    );
    assert_eq!(
        open_step(OpenStage::FindAudioStream, false),
        OpenStep::Abandon { free_codec: false, close_input: true }
    );
    assert_eq!(
        open_step(OpenStage::OpenCodec, false),
        OpenStep::Abandon { free_codec: true, close_input: true }
    );
    assert_eq!(
        open_step(OpenStage::AllocatePacket, true),
        OpenStep::Go(OpenStage::Opened)
    );
}

#[test]
fn a_session_reads_flushes_and_ends() {
    let mut session = DecoderSession::new();
    assert_eq!(session.begin_read(), ReadAction::Receive);
    assert_eq!(session.received(CodecResult::Again(-11)), ReadAction::ReadPacket);
    assert_eq!(session.packet_read(PacketResult::OtherStream), ReadAction::ReadPacket);
    assert_eq!(session.packet_read(PacketResult::Audio), ReadAction::SendPacket);
    assert_eq!(session.packet_sent(CodecResult::Done), ReadAction::Receive);
    assert_eq!(session.received(CodecResult::Done), ReadAction::Accept);
    assert_eq!(session.packet_read(PacketResult::EndOfInput), ReadAction::Flush);
    assert_eq!(session.flushed(CodecResult::Done), ReadAction::Receive);
    assert_eq!(
        session.received(CodecResult::Again(-11)),
        ReadAction::Fail(DirectPcmError::FlushedDecoderStarved)
    );
    assert_eq!(session.received(CodecResult::EndOfStream(-1)), ReadAction::End);
    assert_eq!(session.begin_read(), ReadAction::End);
    assert_eq!(
        session.packet_read(PacketResult::Failed(-5)),
        ReadAction::Fail(DirectPcmError::Decoder(-5))
    );
}

#[test]
fn accurate_seeks_cut_frames_at_the_target() {
    assert_eq!(seek_step(2_000_000, 0, 1_000, 8_000), Ok(SeekStep::Skip));
    assert_eq!(
        seek_step(100_000, 50_000, 1_000, 8_000),
        Ok(SeekStep::Take { offset: 400, actual_us: 100_000 })
    );
    assert_eq!(seek_step(0, 0, -1, 8_000), Err(DirectPcmError::NoSamples));
    assert_eq!(seek_step(0, 0, 1, 0), Err(DirectPcmError::SampleRate));
    assert_eq!(seek_timestamp(100, 5), 105);
    assert_eq!(seek_timestamp(i64::MAX, 5), i64::MAX);
    assert_eq!(frame_timestamp(None, Some(7)), Ok(7));
    assert_eq!(frame_timestamp(None, None), Err(DirectPcmError::TimestampMissing));
    assert_eq!(timeline_origin(Some(-3)), 0);
    assert_eq!(valid_bits_hint(0, 16), 16);
    assert_eq!(valid_bits_hint(24, 16), 24);
    assert_eq!(ffmpeg_result(0), Ok(()));
    assert_eq!(ffmpeg_result(-22), Err(DirectPcmError::Decoder(-22)));
}

#[test]
fn custom_input_answers_reads_and_seeks() {
    assert_eq!(avio_read_packet(0, None), AvioRead::EndOfInput);
    assert_eq!(avio_read_packet(16, Some(0)), AvioRead::EndOfInput);
    assert_eq!(avio_read_packet(16, Some(9)), AvioRead::Bytes(9));
    assert_eq!(avio_read_packet(16, None), AvioRead::IoError);
    assert_eq!(avio_seek(5, AVSEEK_SIZE), AvioSeek::Size);
    assert_eq!(avio_seek(5, 0), AvioSeek::Start(5));
    assert_eq!(avio_seek(-5, 1), AvioSeek::Current(-5));
    assert_eq!(avio_seek(-5, 2 | 0x2_0000), AvioSeek::End(-5));
    assert_eq!(avio_seek(0, 9), AvioSeek::Invalid);
}

#[test]
fn sources_on_the_network_are_told_by_their_scheme() {
    assert!(is_http_source("http://127.0.0.1:59999/"));
    assert!(is_http_source("https://example.org/a.flac"));
    assert!(!is_http_source("/music/http.flac"));
}
