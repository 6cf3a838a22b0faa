//! Diretta targets, the outputs, direct playback and the spectrum's samples.

use audio_engine_core::alsa_mmap_sink::{
    check_rate, choose_format, choose_wire, list_hw_devices, needs_bit_reversal, rate_to_request,
    start_threshold, to_s16_container, to_s24_value, watermark_from, xrun_total, AlsaFormat,
    DeviceHint, DeviceState, DsdStaging, DsdWireFmt, LoopStep, RateError, RefillEnd, StopDrain,
    WireProbe, WriteLoop, XrunCounter, DSD_ERROR_SILENCE,
};
use audio_engine_core::audio_output::{
    device_to_open, find_device, first_output, list_output_devices, next_output, route_output,
    virtual_sleep, OutputError, OutputFailure, OutputLoop, OutputRoute, OutputStage, OutputStep,
};
use audio_engine_core::direct_dsd::reader::DirectDsdReader;
use audio_engine_core::direct_dsd::DirectDsdBitOrder;
use audio_engine_core::direct_runtime::{
    direct_soft_pause_enabled, drain_timeout_ms, is_native_dsd_source, open_local, plan_source,
    stage_local, start_outcome, tiny_lms_switch_enabled, trigger_tinylms_pre_mute, DirectError,
    DirectFormat, DirectPlayback, DirectTransport, FakeDirectState, LoadSuperseded, PreMutePlan,
    SourceTimes, StartStep, TransportKind,
};
use audio_engine_core::diretta::state::{
    clear_capability_cache, runtime_state, runtime_state_begin, runtime_state_record_failure,
    runtime_state_reset, runtime_state_set_connection, CapabilityCache, DirettaRuntimeState,
};
use audio_engine_core::diretta::stream::{
    cache_key, connect_step, pack_samples, parse_target, probe_request, query_mtu, sink_request,
    stream_mtu, target_from_scan, ConnectStage, DirettaStream, DirettaStreamError, SinkRequest, StreamStep,
};
use audio_engine_core::diretta::{
    available, devices_from_scan, failure_text, open_target, query_target, scan_devices,
    scan_outcome, selector_for, selector_target, DirettaOpenError, DirettaSinkInfo, ScannedDevice,
};
use audio_engine_core::diretta_output::{
    acquire_diretta_output, chunk_samples, connection_rate, pace, parse_interface_index,
    reports_failure, short_target, AcquireStep, KeptConnection, Pace, PushCommand, PushLoop, PushStep, Watchdog,
};
use audio_engine_core::fft::{StereoSampleBuffer, FFT_SIZE, MAX_BUFFER_SIZE};
use audio_engine_core::playback::{PlaybackBackend, PlaybackControl};

#[test]
fn builds_without_sdk_and_reports_no_discoverable_targets() {
    assert!(!available());
    assert!(scan_devices().unwrap().is_empty());
}

#[test]
fn selectors_keep_diretta_targets_in_the_existing_device_id_space() {
    let selector = selector_for("fe80::1234%2");
    assert_eq!(selector, "diretta:fe80::1234%2");
    assert_eq!(selector_target(&selector).as_deref(), Some("fe80::1234%2"));
    assert_eq!(selector_target("default_output"), None);
    assert_eq!(selector_target("diretta:"), None);
}

#[test]
fn selectors_that_stand_for_none_name_no_target() {
    assert_eq!(selector_target("diretta:undefined"), None);
    assert_eq!(selector_target("diretta:null"), None);
    assert_eq!(open_target("hw:0"), Err(DirettaOpenError::InvalidSelector));
    assert_eq!(open_target("diretta:a\0b"), Err(DirettaOpenError::InvalidTarget));
    assert_eq!(open_target("diretta:fe80::1").unwrap(), "fe80::1");
    assert_eq!(query_target("fe80::1").as_deref(), Ok("fe80::1"));
    assert_eq!(query_target("diretta:fe80::1").as_deref(), Ok("fe80::1"));
    assert_eq!(query_target("diretta:a\0b"), Err(DirettaOpenError::InvalidTarget));
    assert_eq!(query_target("a\0b"), Err(DirettaOpenError::InvalidTarget));
    assert_eq!(failure_text(Some(""), "fallback"), "fallback");
    assert_eq!(failure_text(Some("busy"), "fallback"), "busy");
    assert_eq!(
        DirettaOpenError::InvalidSelector.message(),
        "invalid Diretta output selector"
    );
}

fn scanned(id: &str, name: &str, mtu: u32) -> ScannedDevice {
    ScannedDevice {
        id: id.to_string(),
        name: name.to_string(),
        ipv6_addr: String::new(),
        full_addr: "full".to_string(),
        if_idx: 2,
        target_name: "t".to_string(),
        output_name: "o".to_string(),
        model_name: "m".to_string(),
        mtu,
    }
}

#[test]
fn scans_keep_the_devices_with_an_identifier() {
    let raw = vec![scanned("a", "", 0), scanned("", "nameless", 9000), scanned("b", "B", 9000)];
    let devices = devices_from_scan(&raw, 9);
    assert_eq!(devices.len(), 2);
    assert_eq!(devices[0].id, "diretta:a");
    assert_eq!(devices[0].name, "Diretta Target");
    assert_eq!(devices[0].ipv6_addr, "a");
    assert_eq!(devices[0].full_addr, "full");
    assert_eq!(devices[0].mtu, 1500);
    assert_eq!(devices[1].mtu, 9000);
    assert_eq!(devices_from_scan(&raw, 1).len(), 1);
    assert_eq!(scan_outcome(&raw, 1, Some("busy")).map(|found| found.len()), Ok(1));
    assert_eq!(scan_outcome(&raw, 0, Some("busy")), Err("busy".to_string()));
    assert_eq!(scan_outcome(&raw, 0, Some("")), Ok(Vec::new()));
    assert_eq!(scan_outcome(&raw, 0, None), Ok(Vec::new()));
    assert_eq!(
        probe_request(),
        SinkRequest::Pcm { sample_rate: 48_000, channels: 2, bits: 32 }
    );
}

#[test]
fn dsd_rate_multiplier_accepts_standard_rates() {
    assert_eq!(DirettaStream::dsd_rate_multiplier(2_822_400), Some(64));
    assert_eq!(DirettaStream::dsd_rate_multiplier(5_644_800), Some(128));
    assert_eq!(DirettaStream::dsd_rate_multiplier(11_289_600), Some(256));
    assert_eq!(DirettaStream::dsd_rate_multiplier(22_579_200), Some(512));
}

#[test]
fn dsd_rate_multiplier_rejects_non_dsd_rates() {
    assert_eq!(DirettaStream::dsd_rate_multiplier(44_100), None);
    assert_eq!(DirettaStream::dsd_rate_multiplier(3_000_000), None);
}

#[test]
fn dsd_rates_of_the_other_family_are_accepted_too() {
    assert_eq!(DirettaStream::dsd_rate_multiplier(3_072_000), Some(64));
    assert_eq!(
        sink_request(true, 44_100, 2, 0),
        Err(DirettaStreamError::DsdRate(44_100))
    );
    assert_eq!(
        sink_request(true, 5_644_800, 2, 1),
        Ok(SinkRequest::Dsd { multiplier: 128, byte_order: 1, channels: 2 })
    );
    assert_eq!(
        sink_request(false, 44_100, 2, 0),
        Ok(SinkRequest::Pcm { sample_rate: 44_100, channels: 2, bits: 32 })
    );
}

#[test]
fn addresses_are_taken_apart() {
    let full = parse_target("fe80::1%3,5000", 7);
    assert_eq!((full.ip.as_str(), full.port, full.ifno), ("fe80::1", 5000, 3));
    assert_eq!(cache_key(&full), "fe80::1%3.5000");
    let bare = parse_target("fe80::1", -4);
    assert_eq!((bare.ip.as_str(), bare.port, bare.ifno), ("fe80::1", 19_644, 0));
    let odd = parse_target("fe80::1%x,y", 7);
    assert_eq!((odd.ip.as_str(), odd.port, odd.ifno), ("fe80::1", 19_644, 7));
    assert_eq!(parse_interface_index("fe80::1%3,5000"), 3);
    assert_eq!(parse_interface_index("fe80::1,5000"), 0);
    assert_eq!(parse_interface_index("fe80::1%x"), 0);
    assert_eq!(short_target("fe80::1%3,5000"), "fe80::1%3");
    assert_eq!(short_target("fe80::1"), "fe80::1");
    assert_eq!(stream_mtu(1500, 9000), 9000);
    assert_eq!(stream_mtu(4000, 9000), 4000);
    assert_eq!(query_mtu(1500, 9000), 1500);
    assert_eq!(query_mtu(0, 9000), 9000);
    let target = target_from_scan("fe80::1", 3, 0, "", "out");
    assert_eq!(target.full_addr, "fe80::1%3");
    assert_eq!(target.model_name, "out");
    assert_eq!(target_from_scan("fe80::1", 3, 9, "t", "o").full_addr, "fe80::1%3,9");
}

#[test]
fn connections_follow_their_stages() {
    let mut state = DirettaRuntimeState::new();
    runtime_state_begin(&mut state, "fe80::1", 44_100, 2, false);
    let mut stage = ConnectStage::OpenSession;
    for ok in [true, false, true, true, true] {
        stage = connect_step(stage, ok, "no", &mut state);
    }
    assert_eq!(stage, ConnectStage::Ready);
    assert!(state.is_diretta_active);
    assert_eq!(
        connect_step(ConnectStage::Connect, false, "no", &mut state),
        ConnectStage::Failed
    );
    assert!(state.is_diretta_active);
    assert_eq!(
        connect_step(ConnectStage::OpenSession, false, "no", &mut state),
        ConnectStage::Failed
    );
    assert!(!state.is_diretta_active);
    assert_eq!(state.last_error, None);
}

#[test]
fn the_runtime_state_follows_the_output() {
    let mut state = DirettaRuntimeState::default();
    runtime_state_begin(&mut state, "fe80::1", 44_100, 2, true);
    runtime_state_set_connection(&mut state, true, true);
    runtime_state_record_failure(&mut state, "busy");
    let copy = runtime_state(&state);
    assert!(copy.is_online && copy.is_playing && copy.is_dsd);
    assert_eq!(copy.target_addr, "fe80::1");
    assert_eq!(copy.underrun_count, 1);
    assert_eq!(copy.last_error.as_deref(), Some("busy"));
    runtime_state_begin(&mut state, "fe80::2", 48_000, 2, false);
    assert_eq!(state.underrun_count, 0);
    assert_eq!(state.last_error, None);
    runtime_state_reset(&mut state);
    assert!(!state.is_diretta_active);
    assert_eq!(state.sample_rate, 0);
}

#[test]
fn capabilities_are_kept_by_address() {
    let info = DirettaSinkInfo {
        supports_pcm: true,
        pcm_max_bits: 32,
        pcm_max_sample_rate: 768_000,
        supports_dsd: false,
        supports_dsd_lsb: false,
        supports_dsd_msb: false,
        dsd_min_sample_rate: 0,
        dsd_max_sample_rate: 0,
    };
    let other = DirettaSinkInfo { supports_dsd: true, ..info };
    let mut cache = CapabilityCache::new();
    assert_eq!(cache.get("a"), None);
    cache.insert("a", info);
    cache.insert("b", info);
    cache.insert("a", other);
    assert_eq!(cache.entries.len(), 2);
    assert_eq!(cache.get("a"), Some(other));
    assert_eq!(cache.get("b"), Some(info));
    clear_capability_cache(&mut cache);
    assert_eq!(cache.get("b"), None);
}

#[test]
fn samples_are_packed_lowest_byte_first() {
    assert_eq!(pack_samples(&[-2, 0x1234], 16).unwrap(), vec![0xfe, 0xff, 0x34, 0x12]);
    assert_eq!(pack_samples(&[-2], 24).unwrap(), vec![0xfe, 0xff, 0xff]);
    assert_eq!(pack_samples(&[0x0102_0304], 32).unwrap(), vec![4, 3, 2, 1]);
    assert_eq!(pack_samples(&[1], 20), Err(DirettaStreamError::Format));
}

#[test]
fn dsd_bytes_are_sent_as_the_target_agreed() {
    let stream = DirettaStream::ready("fe80::1", 2_822_400, 2, Some(4), true, 9000);
    assert_eq!(stream.write_dsd_bytes(&[1, 2, 3, 4], None).unwrap(), vec![1, 2, 3, 4]);
    let swapped = stream.write_dsd_bytes(&[1, 2, 3, 4], Some((true, true))).unwrap();
    assert_eq!(swapped, vec![0x40, 0x80, 0x20, 0xc0]);
    assert_eq!(
        stream.write_dsd_bytes(&swapped, Some((true, true))).unwrap(),
        vec![1, 2, 3, 4]
    );
    assert_eq!(
        stream.write_dsd_bytes(&[1, 2, 3], Some((false, true))).unwrap(),
        vec![1, 2, 3]
    );
    assert_eq!(stream.dsd_bit_transform(Some((true, false))), Some((true, false)));
    let pcm = DirettaStream::ready("fe80::1", 44_100, 2, None, false, 1500);
    assert_eq!(pcm.write_dsd_bytes(&[1], None), Err(DirettaStreamError::Format));
    assert_eq!(pcm.dsd_bit_transform(Some((true, false))), None);
    assert_eq!(pcm.write_samples(&[1]).unwrap(), vec![1, 0, 0, 0]);
}

#[test]
fn a_stream_is_silenced_before_it_stops() {
    let mut state = DirettaRuntimeState::new();
    let mut stream = DirettaStream::ready("fe80::1", 44_100, 2, None, false, 1500);
    assert!(stream.is_connected(true) && !stream.is_connected(false));
    assert!(stream.just_connected(5, 10) && !stream.just_connected(10, 10));
    stream.pushed(Some("full"), &mut state);
    stream.pushed(None, &mut state);
    assert_eq!(stream.push_failures(), 1);
    assert_eq!(state.underrun_count, 1);
    assert_eq!(stream.play(), StreamStep::Nothing);
    assert_eq!(stream.stop(), StreamStep::MuteAndStop { cycles: 8, wait_ms: 40 });
    assert_eq!(stream.stop(), StreamStep::Nothing);
    assert_eq!(stream.play(), StreamStep::Start);
    stream.playing(true, true, &mut state);
    assert!(state.is_online);
    assert_eq!(stream.close(&mut state), StreamStep::MuteAndStop { cycles: 8, wait_ms: 40 });
    assert!(!stream.is_connected(true));
    assert!(!state.is_online);
    assert_eq!((stream.sample_rate(), stream.channels()), (44_100, 2));
    assert_eq!(stream.target_addr(), "fe80::1");
}

#[test]
fn connections_are_used_again_and_idle_ones_go() {
    assert_eq!(connection_rate(Some(88_200)), 88_200);
    assert_eq!(connection_rate(Some(48_000)), 44_100);
    assert_eq!(connection_rate(None), 44_100);
    assert_eq!(chunk_samples(44_100, 2), 882);
    let kept = |addr: &str, alive: bool, owners: usize| KeptConnection {
        addr: addr.to_string(),
        alive,
        owners,
    };
    let mut all = vec![kept("a", true, 1), kept("b", true, 2), kept("c", false, 1)];
    assert_eq!(acquire_diretta_output(&mut all, "b"), AcquireStep::Reuse(1));
    assert_eq!(all.len(), 3);
    assert_eq!(acquire_diretta_output(&mut all, "c"), AcquireStep::Connect);
    let left: Vec<&str> = all.iter().map(|k| k.addr.as_str()).collect();
    assert_eq!(left, vec!["b", "c"]);
}

#[test]
fn the_watchdog_waits_its_time() {
    let mut watchdog = Watchdog::new();
    for _ in 0..50 {
        assert!(!watchdog.watch(false));
    }
    for _ in 0..39 {
        assert!(!watchdog.watch(false));
    }
    assert!(!watchdog.watch(true));
    for _ in 0..39 {
        assert!(!watchdog.watch(false));
    }
    assert!(watchdog.watch(false));
}

#[test]
fn pushing_ends_for_a_reason() {
    let mut push = PushLoop::new();
    assert!(!push.playing(false, false));
    assert_eq!(push.command(PushCommand::Empty), PushStep::GoOn);
    assert_eq!(push.command(PushCommand::SetSource), PushStep::GoOn);
    assert!(push.playing(false, false) && !push.playing(true, false) && !push.playing(false, true));
    for _ in 0..9 {
        assert_eq!(push.written(false), PushStep::GoOn);
    }
    assert_eq!(push.written(true), PushStep::GoOn);
    for _ in 0..9 {
        assert_eq!(push.written(false), PushStep::GoOn);
    }
    assert_eq!(push.written(false), PushStep::WriteFailed);
    assert_eq!(push.watched(true), PushStep::GoOn);
    assert!(push.ticked());
    assert_eq!(push.command(PushCommand::Released), PushStep::Released);
    assert_eq!(pace(30, 10), Pace { due_micros: 30, sleep_micros: 20 });
    assert_eq!(pace(10, 30), Pace { due_micros: 10, sleep_micros: 0 });
    assert_eq!(pace(10, 60_000), Pace { due_micros: 60_000, sleep_micros: 0 });
}

#[test]
fn sound_is_routed_by_the_device_name() {
    match route_output(Some("diretta@fe80::1%4,9"), None, Some(1)) {
        OutputRoute::Diretta { target_addr, if_idx, sample_rate, channels } => {
            assert_eq!(target_addr, "fe80::1%4,9");
            assert_eq!((if_idx, sample_rate, channels), (4, 48_000, 1));
        }
        _ => panic!("not a target"),
    }
    assert!(matches!(
        route_output(Some("hw:0"), None, None),
        OutputRoute::Device(name) if name == "hw:0"
    ));
    assert!(matches!(route_output(None, None, None), OutputRoute::DefaultDevice));
    assert_eq!(virtual_sleep(5_000), 15_000);
    assert_eq!(virtual_sleep(25_000), 0);
    let names = vec!["a".to_string(), "b".to_string()];
    assert_eq!(find_device(&names, "b"), Some(1));
    assert_eq!(find_device(&names, "c"), None);
    assert_eq!(
        list_output_devices(&names, Some("b")),
        vec![("a".to_string(), false), ("b".to_string(), true)]
    );
}

#[test]
fn a_missing_named_device_is_an_error() {
    let names = vec!["a".to_string(), "b".to_string()];
    let missing = route_output(Some("c"), None, None);
    assert_eq!(first_output(&missing), OutputStage::Device);
    assert_eq!(device_to_open(&names, &missing), Err(OutputFailure::NotFound));
    assert_eq!(
        next_output(OutputStage::Device, OutputFailure::NotFound),
        Err(OutputError::DeviceNotFound)
    );
    assert_eq!(device_to_open(&names, &route_output(Some("b"), None, None)), Ok(Some(1)));
    assert_eq!(device_to_open(&names, &route_output(None, None, None)), Ok(None));
    assert_eq!(
        first_output(&route_output(Some("diretta:x"), None, None)),
        OutputStage::Target
    );
    assert_eq!(
        first_output(&route_output(None, None, None)),
        OutputStage::DefaultDevice
    );
}

#[test]
fn an_output_that_cannot_be_opened_has_a_stand_in() {
    let not_opened = OutputFailure::NotOpened;
    assert_eq!(
        next_output(OutputStage::Target, not_opened),
        Ok(OutputStage::DefaultDevice)
    );
    assert_eq!(
        next_output(OutputStage::Device, not_opened),
        Ok(OutputStage::VirtualClock)
    );
    assert_eq!(
        next_output(OutputStage::DefaultDevice, not_opened),
        Ok(OutputStage::VirtualClock)
    );
}

#[test]
fn every_end_of_pushing_is_reported() {
    assert!(reports_failure(PushStep::Released));
    assert!(reports_failure(PushStep::WriteFailed));
    assert!(reports_failure(PushStep::Stalled));
    assert!(!reports_failure(PushStep::GoOn));
}

#[test]
fn output_to_a_target_ends_for_a_reason() {
    let mut output = OutputLoop::new();
    assert_eq!(output.begin(true), (OutputStep::ShutDown, false));
    assert_eq!(output.begin(false), (OutputStep::GoOn, true));
    assert_eq!(output.end(false, true), OutputStep::WriteFailed);
    for _ in 0..89 {
        assert_eq!(output.end(true, false), OutputStep::GoOn);
    }
    assert_eq!(output.end(true, false), OutputStep::Stalled);
}

#[test]
fn devices_are_negotiated_exactly() {
    assert_eq!(choose_format(false, true, true), Some(AlsaFormat::S24));
    assert_eq!(choose_format(false, false, false), None);
    assert_eq!(rate_to_request(Some(2_822_400)), Err(RateError::TooHigh(2_822_400)));
    assert_eq!(rate_to_request(None), Ok(48_000));
    assert_eq!(
        check_rate(Some(44_100), 48_000),
        Err(RateError::Inexact { wanted: 44_100, actual: 48_000 })
    );
    assert_eq!(check_rate(None, 47_999), Ok(47_999));
    assert_eq!(start_threshold(4096, 1024), 2048);
    assert_eq!(start_threshold(1025, 1024), 1025);
    assert_eq!(watermark_from(Some(" 80 ")), 80);
    assert_eq!(watermark_from(Some("x")), 200);
    assert_eq!(watermark_from(None), 200);
    let hints = vec![
        DeviceHint {
            capture_only: false,
            name: Some("hw:0,0".to_string()),
            desc: Some("Card\r\nmore".to_string()),
        },
        DeviceHint { capture_only: true, name: Some("hw:1".to_string()), desc: None },
        DeviceHint { capture_only: false, name: Some("default".to_string()), desc: None },
        DeviceHint { capture_only: false, name: Some("hw:2".to_string()), desc: None },
    ];
    assert_eq!(
        list_hw_devices(&hints),
        vec![
            ("hw:0,0".to_string(), "Card".to_string()),
            ("hw:2".to_string(), "hw:2".to_string())
        ]
    );
    assert_eq!(to_s16_container(-1), -1);
    assert_eq!(to_s16_container(0x1234_5678), 0x1234);
    assert_eq!(to_s24_value(-256), -1);
}

#[test]
fn writing_keeps_below_the_watermark() {
    let mut state = WriteLoop::new(48_000, true, 48_000, 200);
    assert_eq!(state.startup_silence_remaining, 240);
    assert_eq!(state.avail_known(0), LoopStep::WaitDevice);
    assert_eq!(state.avail_known(48_000), LoopStep::Write(4096));
    assert_eq!(state.avail_known(39_000), LoopStep::Write(600));
    assert_eq!(state.avail_known(38_400), LoopStep::Sleep(20));
    state.watermark_ms = 0;
    assert_eq!(state.avail_known(100), LoopStep::Write(100));
    assert!(state.next_frame_is_silent(false, false));
    assert_eq!(state.startup_silence_remaining, 239);
    assert!(state.next_sample_is_silent(false));
}

#[test]
fn a_pause_writes_silence_first() {
    let mut state = WriteLoop::new(48_000, true, 48_000, 200);
    assert_eq!(state.begin(false, false), LoopStep::CheckState);
    assert_eq!(state.begin(false, true), LoopStep::CheckState);
    assert!(state.pause_draining);
    assert_eq!(state.avail_known(48_000), LoopStep::Write(240));
    assert_eq!(state.written(240), LoopStep::StartIfPrepared);
    assert_eq!(state.begin(false, true), LoopStep::AskDelay);
    assert_eq!(state.delay_known(7), LoopStep::WaitDevice);
    assert_eq!(state.delay_known(0), LoopStep::PauseDevice);
    assert_eq!(state.device_paused(true), LoopStep::Sleep(50));
    assert_eq!(state.begin(true, true), LoopStep::Stop { drain: false });
    assert_eq!(state.begin(false, false), LoopStep::ResumeDevice);
    assert_eq!(state.device_resumed(true), LoopStep::CheckState);
    let mut fixed = WriteLoop::new(48_000, false, 48_000, 200);
    assert_eq!(fixed.begin(false, true), LoopStep::DropAndSleep);
    assert!(fixed.hardware_paused);
}

#[test]
fn a_card_recovers_or_fails() {
    let mut counter = XrunCounter { total: 0 };
    let mut state = WriteLoop::new(48_000, true, 48_000, 200);
    assert_eq!(state.state_known(DeviceState::Running, &mut counter), LoopStep::AskAvail);
    assert_eq!(
        state.state_known(DeviceState::XRun, &mut counter),
        LoopStep::Prepare { counted: true }
    );
    assert_eq!(state.state_known(DeviceState::Suspended, &mut counter), LoopStep::WakeUp);
    assert_eq!(state.state_known(DeviceState::Other, &mut counter), LoopStep::Abort);
    assert_eq!(state.avail_failed(true, &mut counter), LoopStep::Prepare { counted: true });
    assert_eq!(xrun_total(&counter), 2);
    assert_eq!(state.write_failed(true), LoopStep::Prepare { counted: true });
    assert_eq!((state.xrun_count, xrun_total(&counter)), (3, 2));
    for _ in 0..48 {
        assert_eq!(state.avail_failed(false, &mut counter), LoopStep::Retry);
    }
    assert_eq!(state.start_failed(false, true), LoopStep::Retry);
    assert_eq!(state.write_failed(false), LoopStep::Fail);
    assert_eq!(state.written(1), LoopStep::StartIfPrepared);
    assert_eq!(state.contiguous_errors, 0);
    assert_eq!(state.start_failed(false, false), LoopStep::Retry);
    assert_eq!(state.contiguous_errors, 0);
}

#[test]
fn integer_samples_pass_bit_for_bit() {
    let mut state = WriteLoop::new(200, true, 48_000, 200);
    assert_eq!(state.startup_silence_remaining, 1);
    let source = [0x1234_5678, -1, 7];
    assert_eq!(
        state.fill_integer(&source, 3, AlsaFormat::S32, false),
        (vec![0, 0x1234_5678, -1], 2)
    );
    assert_eq!(
        state.fill_integer(&source, 4, AlsaFormat::S16, false),
        (vec![0x1234, -1, 0, 0], 3)
    );
    assert_eq!(
        state.fill_integer(&source, 2, AlsaFormat::S24, true),
        (vec![0, 0], 0)
    );
}

#[test]
fn a_pause_writes_silence_before_the_device_is_frozen() {
    let mut state = WriteLoop::new(400, true, 48_000, 200);
    let source = [0x1234_5678, -1, 7];
    state.startup_silence_remaining = 0;
    assert_eq!(state.begin(false, true), LoopStep::CheckState);
    assert_eq!(state.pause_silence_remaining, 2);
    assert_eq!(state.fill_integer(&source, 2, AlsaFormat::S32, false), (vec![0, 0], 0));
    state.written(2);
    assert_eq!(state.begin(false, true), LoopStep::AskDelay);
    assert_eq!(state.begin(false, false), LoopStep::CheckState);
    assert_eq!(
        state.fill_integer(&source, 2, AlsaFormat::S32, false),
        (vec![0x1234_5678, -1], 2)
    );
}

#[test]
fn a_stop_is_followed_by_silence() {
    let mut drain = StopDrain::new(48_000);
    assert!(!drain.may_drain());
    assert_eq!(drain.frames(100), 100);
    drain.written(100);
    assert_eq!(drain.frames(4096), 140);
    drain.written(140);
    assert!(drain.may_drain());
}

fn dsf_file() -> Vec<u8> {
    let raw: Vec<u8> = (0..16).collect();
    let mut file = Vec::new();
    file.extend_from_slice(b"DSD ");
    file.extend_from_slice(&28_u64.to_le_bytes());
    file.extend_from_slice(&108_u64.to_le_bytes());
    file.extend_from_slice(&0_u64.to_le_bytes());
    file.extend_from_slice(b"fmt ");
    file.extend_from_slice(&52_u64.to_le_bytes());
    for n in [1_u32, 0, 2, 2, 2_822_400, 1] {
        file.extend_from_slice(&n.to_le_bytes());
    }
    file.extend_from_slice(&64_u64.to_le_bytes());
    file.extend_from_slice(&8_u32.to_le_bytes());
    file.extend_from_slice(&0_u32.to_le_bytes());
    file.extend_from_slice(b"data");
    file.extend_from_slice(&28_u64.to_le_bytes());
    file.extend_from_slice(&raw);
    file
}

#[test]
fn dsd_is_staged_in_order() {
    let mut reader = DirectDsdReader::open_local(dsf_file()).unwrap();
    let mut staging = DsdStaging::new();
    assert_eq!(staging.refill(&mut reader, 10, false), RefillEnd::Enough);
    assert_eq!(staging.take_frames(1, 8), vec![0, 1, 2, 3, 8, 9, 10, 11]);
    staging.pad_paused(16);
    assert_eq!(
        staging.take_frames(9, 8),
        vec![4, 5, 6, 7, 12, 13, 14, 15, 0x69, 0x69, 0x69, 0x69, 0x69, 0x69, 0x69, 0x69]
    );
    assert!(!staging.finished(8));
    assert_eq!(staging.refill(&mut reader, 10, false), RefillEnd::AtEnd);
    assert!(staging.finished(8));
    staging.compact();
    assert_eq!(DSD_ERROR_SILENCE, 65_536);

    let mut reader = DirectDsdReader::open_local(dsf_file()).unwrap();
    let mut reversed = DsdStaging::new();
    reversed.refill(&mut reader, 1, true);
    assert_eq!(reversed.take_frames(1, 4), vec![0x00, 0x80, 0x40, 0xc0]);
}

#[test]
fn dsd_containers_are_tried_widest_first() {
    let no = WireProbe { format: false, actual_rate: None };
    let at = |rate: u32| WireProbe { format: true, actual_rate: Some(rate) };
    assert_eq!(
        choose_wire(2_822_400, at(88_200), at(176_400), at(352_800)),
        Some((DsdWireFmt::U32Be, 88_200))
    );
    assert_eq!(
        choose_wire(2_822_400, at(88_201), at(176_400), no),
        Some((DsdWireFmt::U16Be, 176_400))
    );
    assert_eq!(choose_wire(2_822_400, no, no, no), None);
    assert_eq!(DsdWireFmt::U16Be.bytes_per_ch(), 2);
    assert_eq!(DsdWireFmt::U8.rate_divisor(), 8);
    assert!(needs_bit_reversal(Some("on"), DirectDsdBitOrder::MsbFirst));
    assert!(!needs_bit_reversal(Some("0"), DirectDsdBitOrder::LsbFirst));
    assert!(needs_bit_reversal(None, DirectDsdBitOrder::LsbFirst));
    assert!(!needs_bit_reversal(Some("auto"), DirectDsdBitOrder::MsbFirst));
}

fn times(cue: Option<(u64, u64)>, duration: u64) -> SourceTimes {
    SourceTimes { cue, sacd_duration: None, duration }
}

#[test]
fn sources_are_planned_by_what_they_name() {
    let track = plan_source("/m/a.flac|1.0|2.0|3", None, times(Some((1_000_000, 2_000_000)), 9));
    assert_eq!(track.path, "/m/a.flac");
    assert_eq!(track.open_path, "/m/a.flac");
    assert_eq!((track.start, track.duration, track.stop), (1_000_000, 2_000_000, 3_000_000));
    assert!(!track.is_dsd);
    let rest = plan_source("/m/a.DSF|1.0|0|3", Some("/tmp/x"), times(Some((1, 0)), 9));
    assert_eq!((rest.duration, rest.stop), (9, 10));
    assert_eq!(rest.open_path, "/tmp/x");
    assert!(rest.is_dsd);
    let whole = plan_source("/m/disc.iso|2", None, times(None, 9));
    assert_eq!(whole.path, "/m/disc.iso|2");
    assert!(whole.is_dsd);
    assert_eq!(open_local("http://x/a.flac", times(None, 0)).err(), Some(DirectError::NotLocal));
    assert!(open_local("/m/a.flac", times(None, 0)).is_ok());
    assert_eq!(
        stage_local(TransportKind::Pcm, "http://x/a.flac", None, times(None, 0)).err(),
        Some(DirectError::NotMaterialized)
    );
    assert!(stage_local(TransportKind::Pcm, "http://x/a.flac", Some("/tmp/x"), times(None, 0))
        .is_ok());
    assert_eq!(
        stage_local(TransportKind::Pcm, "/m/a.dff", None, times(None, 0)).err(),
        Some(DirectError::PcmToDsd)
    );
    assert_eq!(
        stage_local(TransportKind::Dsd, "/m/a.flac", None, times(None, 0)).err(),
        Some(DirectError::DsdToPcm)
    );
}

#[test]
fn native_dsd_sources_are_told_by_their_name() {
    assert!(is_native_dsd_source("/m/A.DSF"));
    assert!(is_native_dsd_source("http://x/a.dff?token"));
    assert!(is_native_dsd_source("/m/disc.ISO|2"));
    assert!(!is_native_dsd_source("/m/disc.iso"));
    assert!(!is_native_dsd_source("/m/a.flac"));
    assert!(!is_native_dsd_source("/music/rips.dsf.d/song.flac"));
    assert!(!is_native_dsd_source("http://x/a.flac?next=b.dsf"));
    assert!(is_native_dsd_source("/m/a.dsf|0.000|10.000|1"));
}

#[test]
fn settings_switch_off_what_is_on() {
    assert!(tiny_lms_switch_enabled(None));
    assert!(tiny_lms_switch_enabled(Some("1")));
    assert!(!tiny_lms_switch_enabled(Some("off")));
    assert!(!direct_soft_pause_enabled(Some("OFF")));
    assert!(direct_soft_pause_enabled(Some("False")));
    assert_eq!(trigger_tinylms_pre_mute(TransportKind::Pcm), PreMutePlan::Cycles(8));
    assert_eq!(trigger_tinylms_pre_mute(TransportKind::Dsd), PreMutePlan::Wait(80));
    assert_eq!(drain_timeout_ms(200_000), 600);
}

#[test]
fn playback_starts_with_the_first_block() {
    let mut playback = DirectPlayback::fake(10, false);
    assert_eq!(playback.wait_for_direct_start(1, 1, 0), StartStep::Wait(100));
    assert_eq!(playback.wait_for_direct_start(1, 1, 1_950), StartStep::Wait(50));
    assert_eq!(playback.wait_for_direct_start(1, 1, 2_000), StartStep::TimedOut);
    assert_eq!(start_outcome(StartStep::TimedOut), Err(DirectError::NotStarted));
    let superseded = playback.wait_for_direct_start(2, 1, 0);
    assert_eq!(
        superseded,
        StartStep::Refused(DirectError::Superseded(LoadSuperseded))
    );
    assert!(start_outcome(superseded).unwrap_err().message().starts_with("[Cancelled]"));
    playback.play();
    if let DirectTransport::Fake(state) = &mut playback.transport {
        assert!(state.playing());
        state.set_finished(true);
    }
    assert_eq!(
        playback.wait_for_direct_start(1, 1, 0),
        StartStep::Refused(DirectError::EndedBeforeStart)
    );
    if let DirectTransport::Fake(state) = &mut playback.transport {
        state.set_position(5);
    }
    assert_eq!(playback.wait_for_direct_start(1, 1, 9_000), StartStep::Started);
    if let DirectTransport::Fake(state) = &mut playback.transport {
        state.set_failed(true);
    }
    assert!(playback.failed() && playback.finished());
    assert_eq!(
        playback.wait_for_direct_start(1, 1, 0),
        StartStep::Refused(DirectError::FailedBeforeStart)
    );
    playback.pause();
    playback.transport.begin_fade_out();
    assert!(playback.transport.is_faded_out() && playback.transport.soft_paused());
    playback.transport.resume_handoff_no_fade();
    assert_eq!(
        playback.transport.monitor().consumed_position(),
        (5, 1_000_000)
    );
    assert_eq!(FakeDirectState::new(true).playing(), true);
}

#[test]
fn positions_count_from_the_start_of_the_source() {
    let mut playback = DirectPlayback::fake(10, true);
    playback.commit_gapless_boundary("/m/b.flac".to_string(), 20, 1_000);
    assert_eq!((playback.duration(), playback.start_offset), (20, 1_000));
    assert_eq!(playback.seek_target(500), 1_500);
    assert_eq!(playback.seek_target(-5), 1_000);
    assert_eq!(playback.seek_while_paused(1_500), 500);
    assert_eq!(playback.seek_base(), 500);
    assert_eq!(playback.position().base_micros, 500);
    let handoff = playback
        .handoff_drained_source("/m/c.flac|1|2|3", None, times(Some((7, 8)), 30), Some(4))
        .unwrap();
    assert_eq!(handoff.plan.path, "/m/c.flac");
    assert_eq!((playback.duration(), playback.start_offset), (30, 7));
    assert!(matches!(playback.transport.format(), DirectFormat::Pcm(f) if f.sample_rate == 44_100));
    playback.handed_off("/m/d.flac".to_string(), &handoff.plan);
    assert_eq!(playback.source, "/m/d.flac");
    assert_eq!(playback.transition_count(), 0);
}

#[test]
fn interleaved_samples_wrap_without_mixing_channels() {
    let mut buffer = StereoSampleBuffer::new(0.0_f32);
    let samples: Vec<f32> = (0..MAX_BUFFER_SIZE + 16)
        .flat_map(|i| [i as f32, -(i as f32)])
        .collect();
    buffer.push_interleaved_samples(&samples);
    assert_eq!(buffer.len, MAX_BUFFER_SIZE);
    assert_eq!(buffer.write_pos, 16);
    let latest = (buffer.write_pos + MAX_BUFFER_SIZE - 1) % MAX_BUFFER_SIZE;
    assert_eq!(buffer.left[latest], (MAX_BUFFER_SIZE + 15) as f32);
    assert_eq!(buffer.right[latest], -((MAX_BUFFER_SIZE + 15) as f32));
}

#[test]
fn reset_discards_buffered_samples() {
    let mut buffer = StereoSampleBuffer::new(0.0_f32);
    buffer.push_interleaved_samples(&[0.5, -0.5, 0.25, -0.25]);
    buffer.reset();
    assert_eq!(buffer.len, 0);
    assert_eq!(buffer.write_pos, 0);
}

#[test]
fn a_spectrum_takes_the_newest_samples() {
    let mut buffer = StereoSampleBuffer::new(0_i32);
    assert!(!buffer.is_enabled());
    buffer.set_enabled(true);
    assert!(buffer.latest().is_none());
    let samples: Vec<i32> = (0..6000).flat_map(|i| [i, -i]).collect();
    buffer.push_interleaved_samples(&samples);
    buffer.push_interleaved_samples(&samples);
    let (left, right) = buffer.latest().unwrap();
    assert_eq!(left.len(), FFT_SIZE);
    assert_eq!(left[FFT_SIZE - 1], 5999);
    assert_eq!(right[0], -(6000 - FFT_SIZE as i32));
    buffer.set_enabled(true);
    assert!(buffer.latest().is_some());
    buffer.set_enabled(false);
    buffer.set_enabled(true);
    assert!(buffer.latest().is_none());
}

#[test]
fn a_device_of_the_system_gets_time_to_fall_silent() {
    let mut control = PlaybackControl::attach(PlaybackBackend::Cpal, true);
    assert!(!control.started);
    control.play();
    assert!(control.started);
    assert_eq!(control.stop(), 120);
    assert!(control.stopped);
    let mut card = PlaybackControl::attach(PlaybackBackend::Alsa, false);
    card.pause();
    assert!(!card.started);
    assert_eq!(card.stop(), 0);
}
