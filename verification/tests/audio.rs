use std::sync::mpsc::sync_channel;

use dialf::audio::backend::{
    AudioError, CaptureSource, DownmixMono, MemorySink, PlaybackSink, RawSink, RawSource, Sink, Source,
    WavFileSource,
};
use dialf::audio::command_backend::{
    check_capture, check_playback, encode_pcm, poll_playback, spawn_failed, CommandCaptureSource,
    FrameAssembler, PlaybackStep, RawPipe,
};
use dialf::audio::engine::{
    run_wait_for_speech, run_wait_for_speech_start, spread_over, Ear, RawEar,
};
use dialf::audio::frames::FrameEvent;
use dialf::audio::mic_permission::{
    answered, ensure_consent, no_dialog_hint, preflight, status_label, Consent, Gate, Preflight,
};
use dialf::audio::record::{
    check_rates, check_shape, leg_path, mix_frame, mix_legs, pad_to, place_at, record_rx,
    CaptureFeed, DuplexRecorder, FrameBuffer, Leg, RawTap, Tap, VadFrameSource,
};
use dialf::audio::tool_detect::{
    choose_capture, choose_playback, current_os, fill, present_tools, resolve_capture,
    resolve_playback_file, tools_among, AudioParams, CaptureCommand, Os, PlaybackCommand,
};
use dialf::audio::vad::{
    check_stall, ms_to_hops, EndReason, SpeechWait, StartDetector, StartMove, StartOutcome,
    StartWait, TurnConfig, TurnDetector, TurnEvent, WaitEvent, WaitMove, DEFAULT_HOP,
    VAD_SAMPLE_RATE,
};
use dialf::search::Search;

// --- microphone permission ---------------------------------------------------

#[test]
fn the_multiplexer_hint_names_the_cause_and_the_fix() {
    let h = no_dialog_hint(Some("tmux"));
    assert!(h.contains("no dialog will appear"), "got: {h}");
    assert!(h.contains("tmux"), "got: {h}");
    assert!(h.contains("plain Terminal"), "got: {h}");
    assert!(h.contains("service install"), "got: {h}");
}

#[test]
fn without_a_multiplexer_the_hint_covers_both_possibilities() {
    let h = no_dialog_hint(None);
    assert!(h.contains("if no dialog appeared"), "got: {h}");
    assert!(h.contains("approve it"), "got: {h}");
    assert!(!h.contains("no dialog will appear"), "must not claim it cannot appear: {h}");
}

#[test]
fn status_label_is_one_of_the_documented_values() {
    for gate in [
        Gate::Unknown,
        Gate::Status(0),
        Gate::Status(1),
        Gate::Status(2),
        Gate::Status(3),
        Gate::Status(-7),
    ] {
        let l = status_label(gate);
        assert!(
            matches!(l, "authorized" | "denied" | "not_determined" | "unknown"),
            "unexpected label: {l}"
        );
    }
    assert_eq!(status_label(Gate::Status(3)), "authorized");
    assert_eq!(status_label(Gate::Status(0)), "not_determined");
    assert_eq!(status_label(Gate::Status(2)), "denied");
    assert_eq!(status_label(Gate::Absent), "not_applicable");
}

#[test]
fn a_denied_microphone_stops_a_job_and_an_open_one_does_not() {
    assert!(matches!(preflight(Gate::Absent, None), Preflight::Nothing));
    assert!(matches!(preflight(Gate::Unknown, None), Preflight::Unavailable));
    assert!(matches!(preflight(Gate::Status(3), None), Preflight::Authorized));
    assert!(matches!(preflight(Gate::Status(0), None), Preflight::Ask(None)));
    assert!(matches!(preflight(Gate::Status(0), Some("tmux")), Preflight::Ask(Some(_))));
    assert!(matches!(ensure_consent(Gate::Absent), Consent::Granted));
    assert!(matches!(ensure_consent(Gate::Status(0)), Consent::Ask));
    assert!(matches!(ensure_consent(Gate::Status(2)), Consent::Denied(_)));
    assert_eq!(answered(Some(true), None), Ok(()));
    assert!(answered(Some(false), None).unwrap_err().contains("denied"));
    assert!(answered(None, Some("tmux")).unwrap_err().contains("tmux"));
}

// --- tool detection ----------------------------------------------------------

fn s(list: &[&str]) -> Vec<String> {
    list.iter().map(|x| x.to_string()).collect()
}

fn params() -> AudioParams {
    AudioParams { rate: 48_000, channels: 1, device: None }
}

#[test]
fn fills_rate_and_channels() {
    let tpl = s(&["arecord", "-r", "{rate}", "-c", "{channels}", "-"]);
    let argv = fill(&tpl, &params(), None);
    assert_eq!(argv, vec!["arecord", "-r", "48000", "-c", "1", "-"]);
}

#[test]
fn device_dash_d_drops_when_absent_and_expands_when_present() {
    let tpl = s(&["arecord", "{device:-D}", "-"]);
    assert_eq!(fill(&tpl, &params(), None), vec!["arecord", "-"]);

    let mut p = params();
    p.device = Some("plughw:1,0".into());
    assert_eq!(fill(&tpl, &p, None), vec!["arecord", "-D", "plughw:1,0", "-"]);
}

#[test]
fn device_default_token() {
    let tpl = s(&["ffmpeg", "-i", "{device|default}"]);
    assert_eq!(fill(&tpl, &params(), None), vec!["ffmpeg", "-i", "default"]);

    let mut p = params();
    p.device = Some("hw:0".into());
    assert_eq!(fill(&tpl, &p, None), vec!["ffmpeg", "-i", "hw:0"]);
}

#[test]
fn file_token() {
    let tpl = s(&["afplay", "{file}"]);
    assert_eq!(fill(&tpl, &params(), Some("a.wav")), vec!["afplay", "a.wav"]);
}

#[test]
fn override_via_stdin_detected_by_absence_of_file_token() {
    let tpl = s(&["aplay", "-t", "raw", "-"]);
    let cmd = resolve_playback_file(Os::Linux, "x.wav", &params(), Some(&tpl), &mut Search::new()).unwrap();
    assert!(cmd.via_stdin);
}

#[test]
fn the_first_tool_that_is_there_is_taken() {
    let none = vec![false, false, false];
    let second = vec![false, true, true];
    let c = choose_capture(Os::Linux, &params(), None, &second).unwrap();
    assert_eq!(c.argv[0], "ffmpeg");
    assert!(choose_capture(Os::Linux, &params(), None, &none).is_err());
    let p = choose_playback(Os::Linux, "a.wav", &params(), None, &vec![true, true, true]).unwrap();
    assert_eq!(p.argv, vec!["aplay", "-q", "a.wav"]);
    assert!(!p.via_stdin);
    assert!(choose_playback(Os::Linux, "a.wav", &params(), None, &none).is_err());
}

#[test]
fn an_unknown_system_has_no_tools() {
    assert_eq!(current_os("linux"), Os::Linux);
    assert_eq!(current_os("macos"), Os::MacOs);
    assert_eq!(current_os("plan9"), Os::Other);
    assert_eq!(present_tools(Os::Other, &mut Search::new()), (false, false));
    assert!(resolve_capture(Os::Other, &params(), None, &mut Search::new()).is_err());
}

#[test]
fn the_search_path_decides_which_tool_is_taken() {
    // Whatever this machine has: a tool is named where one is there, and an error otherwise.
    let mut search = Search::new();
    let (capture, playback) = present_tools(Os::Linux, &mut search);
    match resolve_capture(Os::Linux, &params(), None, &mut search) {
        Ok(c) => {
            assert!(capture);
            assert!(["arecord", "ffmpeg", "rec"].contains(&c.argv[0].as_str()));
            assert!(search.find(&c.argv[0]).is_some());
        }
        Err(_) => assert!(!capture),
    }
    match resolve_playback_file(Os::Linux, "x.wav", &params(), None, &mut search) {
        Ok(c) => {
            assert!(playback);
            assert!(search.find(&c.argv[0]).is_some());
        }
        Err(_) => assert!(!playback),
    }
}

// --- voice activity ----------------------------------------------------------

fn cfg(hop: usize, silence_ms: u64, timeout_ms: u64) -> TurnConfig {
    TurnConfig {
        hop_size: hop,
        silence_duration_ms: silence_ms,
        end_timeout_ms: timeout_ms,
        onset_duration_ms: 0,
    }
}

#[test]
fn ms_to_hops_rounds_up() {
    // 256 samples @16k = 16ms/hop.
    assert_eq!(ms_to_hops(3000, 256), 188); // 3000/16 = 187.5 -> 188
    assert_eq!(ms_to_hops(16, 256), 1);
    assert_eq!(ms_to_hops(17, 256), 2);
}

#[test]
fn detects_onset_then_silence_end() {
    // hop=160 -> 10ms; silence 50ms -> 5 hops; timeout 100s (won't fire).
    let mut d = TurnDetector::new(&cfg(160, 50, 100_000));

    // 3 hops of silence before speech: no event, no onset yet.
    for _ in 0..3 {
        assert_eq!(d.push(false), None);
    }
    // First voiced hop -> onset.
    assert_eq!(d.push(true), Some(TurnEvent::SpeechStarted));
    // More speech.
    for _ in 0..4 {
        assert_eq!(d.push(true), None);
    }
    // 4 hops of silence: not enough (need 5).
    for _ in 0..4 {
        assert_eq!(d.push(false), None);
    }
    // 5th silent hop ends the turn.
    assert_eq!(d.push(false), Some(TurnEvent::Ended(EndReason::Silence)));
    // Idempotent afterwards.
    assert_eq!(d.push(false), None);
    assert!(d.is_finished());
}

#[test]
fn silence_run_resets_on_speech() {
    let mut d = TurnDetector::new(&cfg(160, 50, 100_000)); // 5-hop silence
    assert_eq!(d.push(true), Some(TurnEvent::SpeechStarted));
    for _ in 0..4 {
        assert_eq!(d.push(false), None);
    }
    // Speech resets the silence counter.
    assert_eq!(d.push(true), None);
    for _ in 0..4 {
        assert_eq!(d.push(false), None);
    }
    assert_eq!(d.push(false), Some(TurnEvent::Ended(EndReason::Silence)));
}

#[test]
fn timeout_fires_without_speech() {
    // hop=160 -> 10ms; timeout 50ms -> 5 hops.
    let mut d = TurnDetector::new(&cfg(160, 5_000, 50));
    for _ in 0..4 {
        assert_eq!(d.push(false), None);
    }
    assert_eq!(d.push(false), Some(TurnEvent::Ended(EndReason::Timeout)));
}

#[test]
fn end_of_stream_is_terminal() {
    let mut d = TurnDetector::new(&cfg(160, 5_000, 100_000));
    assert_eq!(d.push(true), Some(TurnEvent::SpeechStarted));
    assert_eq!(d.finish(), Some(TurnEvent::Ended(EndReason::EndOfStream)));
    assert_eq!(d.finish(), None);
}

#[test]
fn onset_needs_a_run_of_voiced_hops() {
    // hop=160 -> 10ms; onset 30ms -> 3 hops.
    let mut c = cfg(160, 50, 100_000);
    c.onset_duration_ms = 30;
    let mut d = TurnDetector::new(&c);
    assert_eq!(d.push(true), None);
    assert_eq!(d.push(true), None);
    assert_eq!(d.push(false), None);
    assert_eq!(d.push(true), None);
    assert_eq!(d.push(true), None);
    assert_eq!(d.push(true), Some(TurnEvent::SpeechStarted));
    assert_eq!(d.elapsed_hops(), 6);
}

#[test]
fn a_start_is_reported_after_the_extra_wait() {
    // hop=160 -> 10ms: onset 20ms, then 30ms more; capped at 1s.
    let mut d = StartDetector::new(160, 1_000, 30, 20);
    let mut seen = None;
    let mut hops = 0;
    while seen.is_none() {
        seen = d.push(true);
        hops += 1;
        assert!(hops < 200);
    }
    assert_eq!(seen, Some(StartOutcome::Started));
    let mut d = StartDetector::new(160, 50, 30, 20);
    let mut last = None;
    for _ in 0..5 {
        last = d.push(false);
    }
    assert_eq!(last, Some(StartOutcome::NoSpeech));
}

#[test]
fn a_wait_cuts_audio_into_hops_and_ends_with_the_stream() {
    let mut w = SpeechWait::new(&cfg(160, 50, 100_000));
    w.framing.push_samples(&vec![1i16; 250]);
    assert_eq!(w.framing.next_hop().unwrap().len(), 160);
    assert!(w.framing.next_hop().is_none());
    w.framing.push_samples(&vec![2i16; 70]);
    let hop = w.framing.next_hop().unwrap();
    assert_eq!(&hop[..90], &[1i16; 90][..]);
    assert_eq!(&hop[90..], &[2i16; 70][..]);
    assert_eq!(w.judge(true), None);
    assert_eq!(w.end(), EndReason::EndOfStream);
}

#[test]
fn a_wait_asks_for_judgements_until_the_turn_ends() {
    // hop=160 -> 10ms; two hops of silence end a turn.
    let mut w = SpeechWait::new(&cfg(160, 20, 100_000));
    assert!(matches!(w.step(WaitEvent::Nothing { idle_ms: 10 }), WaitMove::Read));
    assert!(matches!(w.step(WaitEvent::Samples(vec![1; 100])), WaitMove::Read));
    match w.step(WaitEvent::Samples(vec![2; 500])) {
        WaitMove::Judge(hop) => {
            assert_eq!(&hop[..100], &[1i16; 100][..]);
            assert_eq!(&hop[100..], &[2i16; 60][..]);
        }
        other => panic!("no hop: {other:?}"),
    }
    // Two more whole hops are there; one hop's worth is left over at the end.
    assert!(matches!(w.step(WaitEvent::Judged(true)), WaitMove::Judge(h) if h == vec![2; 160]));
    assert!(matches!(w.step(WaitEvent::Judged(false)), WaitMove::Judge(_)));
    assert!(matches!(w.step(WaitEvent::Judged(false)), WaitMove::Ended(EndReason::Silence)));
    assert_eq!(w.framing.pending.len(), 120);
}

#[test]
fn a_wait_ends_when_it_is_cancelled_and_fails_when_the_capture_is_dead() {
    let mut w = SpeechWait::new(&cfg(160, 20, 100_000));
    assert!(matches!(w.step(WaitEvent::Cancelled), WaitMove::Ended(EndReason::EndOfStream)));
    let mut w = SpeechWait::new(&cfg(160, 20, 100_000));
    assert!(matches!(w.step(WaitEvent::End), WaitMove::Ended(EndReason::EndOfStream)));
    let mut w = SpeechWait::new(&cfg(160, 20, 100_000));
    assert!(matches!(w.step(WaitEvent::Nothing { idle_ms: 2_999 }), WaitMove::Read));
    match w.step(WaitEvent::Nothing { idle_ms: 3_000 }) {
        WaitMove::Failed(e) => assert!(e.contains("capture stalled"), "got: {e}"),
        other => panic!("not failed: {other:?}"),
    }
    let broken = WaitEvent::Failed("device lost".to_string());
    assert!(matches!(w.step(broken), WaitMove::Failed(e) if e == "device lost"));
}

#[test]
fn a_dead_capture_is_reported() {
    assert!(check_stall(2_999).is_ok());
    assert!(check_stall(3_000).unwrap_err().contains("capture stalled"));
}

// --- commands ----------------------------------------------------------------

#[test]
fn capture_reads_whole_frames_across_awkward_pipe_splits() {
    // 6 frames of stereo (12 samples, 24 bytes) dribbled out in 3- and 5-byte pieces: every
    // boundary lands mid-frame. Values are the sample index so order is checkable.
    let bytes = encode_pcm(&(0i16..12).collect::<Vec<_>>());
    assert_eq!(bytes.len(), 24);
    let mut frames = FrameAssembler::new(2);
    let mut got: Vec<i16> = Vec::new();
    let mut buf = [0i16; 4];
    let mut at = 0;
    let mut piece = 3;
    while at < bytes.len() {
        let end = (at + piece).min(bytes.len());
        frames.push(&bytes[at..end]);
        at = end;
        piece = 8 - piece;
        while frames.ready() {
            let n = frames.take(&mut buf);
            assert_eq!(n % 2, 0, "reads must be whole stereo frames, got {n} samples");
            assert!(n > 0);
            got.extend_from_slice(&buf[..n]);
        }
    }
    assert_eq!(got, (0i16..12).collect::<Vec<_>>(), "samples in order, none lost");
}

#[test]
fn spawn_errors_name_the_missing_tool() {
    let err = spawn_failed("playback", "/nonexistent/sox", "No such file or directory");
    assert!(err.contains("/nonexistent/sox"), "{err}");
    let err = spawn_failed("capture", "/nonexistent/rec", "No such file or directory");
    assert!(err.contains("/nonexistent/rec"), "{err}");
}

#[test]
fn commands_are_checked_before_they_run() {
    assert!(check_capture(&CaptureCommand { argv: s(&["rec"]) }).is_ok());
    assert_eq!(
        check_capture(&CaptureCommand { argv: Vec::new() }),
        Err("empty capture argv".to_string())
    );
    let play = |argv: &[&str], via_stdin| PlaybackCommand { argv: s(argv), via_stdin };
    assert!(check_playback(&play(&["play"], false)).is_ok());
    assert!(check_playback(&play(&[], false)).is_err());
    assert!(check_playback(&play(&["play"], true)).is_err());
}

#[test]
fn force_stops_a_playback_at_once() {
    assert_eq!(poll_playback(true, None), PlaybackStep::Kill);
    assert_eq!(poll_playback(true, Some(false)), PlaybackStep::Kill);
    assert_eq!(poll_playback(false, Some(true)), PlaybackStep::Done);
    assert_eq!(poll_playback(false, Some(false)), PlaybackStep::Failed);
    assert_eq!(poll_playback(false, None), PlaybackStep::Again);
}

// --- recordings --------------------------------------------------------------

fn recorder(channels: u16) -> DuplexRecorder<MemorySink> {
    DuplexRecorder::new(MemorySink::new(), MemorySink::new(), channels)
}

#[test]
fn tx_placed_at_offset_and_equal_length() {
    let mut r = recorder(1);
    r.push_rx(&[10i16; 100]).unwrap();
    r.push_tx_at(40, &[100i16; 20]).unwrap();
    r.push_rx(&[20i16; 50]).unwrap();
    assert_eq!(r.finish().unwrap(), 150);
    let rx = r.rx.samples;
    let tx = r.tx.samples;
    let mix = mix_legs(&tx, 1, &rx, 1, true);

    assert_eq!(rx.len(), 150);
    assert_eq!(tx.len(), 150);
    // rx = [10x100][20x50]
    assert_eq!(&rx[..100], &[10i16; 100][..]);
    assert_eq!(&rx[100..], &[20i16; 50][..]);
    // tx = [0x40][100x20][0x90]
    assert_eq!(&tx[..40], &[0i16; 40][..]);
    assert_eq!(&tx[40..60], &[100i16; 20][..]);
    assert_eq!(&tx[60..], &[0i16; 90][..]);
    // mix is stereo, interleaved: default layout is left = tx (local), right = rx (remote)
    assert_eq!(mix.len(), 300); // 150 frames x 2 channels
    let left: Vec<i16> = mix.iter().step_by(2).copied().collect();
    let right: Vec<i16> = mix.iter().skip(1).step_by(2).copied().collect();
    assert_eq!(left, tx); // left  = tx
    assert_eq!(right, rx); // right = rx
}

#[test]
fn mix_channels_swap_puts_rx_left_tx_right() {
    // mix_tx_left = false -> left = rx (remote), right = tx (local)
    let mut r = recorder(1);
    r.push_rx(&[11i16; 60]).unwrap();
    r.push_tx_at(0, &[99i16; 60]).unwrap();
    r.finish().unwrap();
    let mix = mix_legs(&r.tx.samples, 1, &r.rx.samples, 1, false);
    assert_eq!(mix.len(), 120); // 60 frames x 2 channels
    let left: Vec<i16> = mix.iter().step_by(2).copied().collect();
    let right: Vec<i16> = mix.iter().skip(1).step_by(2).copied().collect();
    assert_eq!(left, vec![11i16; 60]); // left  = rx (remote)
    assert_eq!(right, vec![99i16; 60]); // right = tx (local)
}

#[test]
fn tx_after_rx_pads_rx_to_max() {
    let mut r = recorder(1);
    r.push_rx(&[1i16; 100]).unwrap();
    r.push_tx_at(100, &[5i16; 30]).unwrap();
    assert_eq!(r.finish().unwrap(), 130);
    let rx = r.rx.samples;
    let tx = r.tx.samples;
    assert_eq!(rx.len(), 130);
    assert_eq!(tx.len(), 130);
    assert_eq!(&rx[100..], &[0i16; 30][..]); // rx padded up to tx end
    assert_eq!(&tx[..100], &[0i16; 100][..]);
    assert_eq!(&tx[100..], &[5i16; 30][..]);
}

#[test]
fn empty_session_finishes() {
    let mut r = recorder(1);
    assert_eq!(r.finish().unwrap(), 0);
    assert_eq!(r.rx.samples.len(), 0);
    assert_eq!(r.tx.samples.len(), 0);
}

#[test]
fn pad_to_writes_zeros_and_is_noop_when_full() {
    let mut sink = MemorySink::new();
    let mut scratch = Vec::new();
    pad_to(&mut sink, 1, 0, 5, &mut scratch).unwrap();
    pad_to(&mut sink, 1, 5, 5, &mut scratch).unwrap(); // no-op
    pad_to(&mut sink, 1, 5, 3, &mut scratch).unwrap(); // want < have: no-op
    assert_eq!(sink.samples, vec![0i16; 5]);
}

/// A stereo recording of some chunks of capture.
fn stereo_session(chunks: Vec<Vec<i16>>) -> DuplexRecorder<MemorySink> {
    let mut feed = CaptureFeed::new(2);
    let mut r = recorder(2);
    for c in chunks {
        let fed = feed.push(&c, false);
        r.push_rx(&fed.write).unwrap();
    }
    assert_eq!(feed.total, r.rx_len());
    r
}

#[test]
fn push_tx_offset_is_in_frames() {
    // 100 stereo frames = 200 interleaved samples.
    let mut r = stereo_session(vec![vec![1i16; 200]]);
    assert_eq!(r.rx_len(), 100);
    // One stereo prompt frame.
    let at = r.rx_len();
    r.push_tx_at(at, &[9, 9]).unwrap();
    assert_eq!(r.tx_len(), 101);
    r.finish().unwrap();
    let tx = r.tx.samples;
    // 100 frames of silence = 200 samples, THEN the prompt.
    assert_eq!(&tx[..200], vec![0i16; 200].as_slice(), "leading silence must be 100 frames");
    assert_eq!(tx[200], 9);
    assert_eq!(tx[201], 9);
}

#[test]
fn stereo_capture_is_written_through_unswapped() {
    let chunk: Vec<i16> = (0..50).flat_map(|_| [1000i16, -1000]).collect();
    let mut r = stereo_session(vec![chunk]);
    assert_eq!(r.finish().unwrap(), 50);
    let rx = r.rx.samples;
    assert_eq!(rx.len(), 100);
    assert!(rx.iter().step_by(2).all(|&s| s == 1000), "left channel");
    assert!(rx.iter().skip(1).step_by(2).all(|&s| s == -1000), "right channel");
}

#[test]
fn all_legs_have_equal_duration() {
    let chunk: Vec<i16> = (0..80).flat_map(|_| [500i16, -500]).collect();
    let mut r = stereo_session(vec![chunk]);
    let at = r.rx_len();
    r.push_tx_at(at, &[7, 7, 7, 7]).unwrap(); // 2 stereo frames
    r.finish().unwrap();
    let secs = |samples: usize, ch: u16| samples as f64 / ch as f64 / 48_000.0;
    let (rx_s, tx_s) = (secs(r.rx.samples.len(), 2), secs(r.tx.samples.len(), 2));
    assert!((rx_s - tx_s).abs() < 1e-9, "rx {rx_s}s vs tx {tx_s}s");
    let mix = mix_legs(&r.tx.samples, 2, &r.rx.samples, 2, true);
    let mix_s = secs(mix.len(), 2);
    assert!((rx_s - mix_s).abs() < 1e-9, "rx {rx_s}s vs mix {mix_s}s");
}

#[test]
fn mix_of_stereo_legs_is_two_channel_at_native_rate() {
    let chunk: Vec<i16> = (0..30).flat_map(|_| [111i16, -999]).collect();
    let mut r = stereo_session(vec![chunk]);
    let at = r.rx_len();
    r.push_tx_at(at, &[222, -888]).unwrap(); // 1 stereo frame at the end
    r.finish().unwrap();
    assert!(check_rates(48_000, 48_000).is_ok());
    let mix = mix_legs(&r.tx.samples, 2, &r.rx.samples, 2, true);
    // tx_left: left = tx call channel (silence, then 222), right = rx call channel (111).
    assert!(mix.iter().skip(1).step_by(2).take(30).all(|&s| s == 111), "right = rx ch0");
    assert_eq!(mix[0], 0, "tx silent before the prompt");
    assert_eq!(mix[30 * 2], 222, "tx prompt lands at the rx frame offset");
}

#[test]
fn odd_length_chunks_keep_channel_polarity() {
    // 101 then 99 samples: the first chunk ends halfway through a frame, so that sample must be
    // carried rather than written (which would swap L/R from then on).
    let odd: Vec<i16> = (0..101).map(|i| if i % 2 == 0 { 1000 } else { -1000 }).collect();
    let rest: Vec<i16> = (0..99).map(|i| if (i + 101) % 2 == 0 { 1000 } else { -1000 }).collect();
    let mut r = stereo_session(vec![odd, rest]);
    assert_eq!(r.finish().unwrap(), 100);
    let rx = r.rx.samples;
    // 200 samples in, all whole frames: L always +1000, R always -1000.
    assert_eq!(rx.len() % 2, 0, "file must hold whole frames");
    assert!(rx.iter().step_by(2).all(|&s| s == 1000), "left stayed left");
    assert!(rx.iter().skip(1).step_by(2).all(|&s| s == -1000), "right stayed right");
}

#[test]
fn mismatched_sink_shape_is_rejected() {
    let err = check_shape(1, 1, 2).expect_err("a mono sink must refuse a stereo capture");
    assert!(err.contains("channel"), "{err}");
    assert!(err.starts_with("rx sink has 1 channel(s)"), "{err}");
    let err = check_shape(2, 1, 2).expect_err("so must a mono tx leg");
    assert!(err.starts_with("tx sink has 1 channel(s)"), "{err}");
    assert!(check_shape(2, 2, 2).is_ok());
    assert!(check_shape(0, 1, 1).is_ok());
    assert!(check_rates(16_000, 48_000).unwrap_err().contains("16000 Hz"));
}

#[test]
fn vad_frame_source_reports_the_vad_rate() {
    // Pinned: tying this to a record constant would silently double-resample once rx.wav moved
    // to the card's rate.
    let (_tx, mut rx) = sync_channel::<Vec<i16>>(1);
    let src = VadFrameSource::new(&mut rx);
    assert_eq!(src.sample_rate(), VAD_SAMPLE_RATE);
}

#[test]
fn vad_frame_source_would_block_then_delivers_then_eof() {
    let (tx, mut rx) = sync_channel::<Vec<i16>>(4);
    let mut src = VadFrameSource::new(&mut rx);
    let mut buf = [0i16; 256];
    // No frame yet but the sender is alive -> WouldBlock (not EOF).
    let err = src.read(&mut buf).unwrap_err();
    assert!(matches!(err, AudioError::WouldBlock));
    // A frame arrives -> delivered.
    tx.send(vec![5i16; 100]).unwrap();
    assert_eq!(src.read(&mut buf).unwrap(), 100);
    // Sender dropped (capture ended) -> end of stream.
    drop(tx);
    assert_eq!(src.read(&mut buf).unwrap(), 0);
}

#[test]
fn an_empty_frame_is_no_end() {
    let (tx, mut rx) = sync_channel::<Vec<i16>>(4);
    let mut src = VadFrameSource::new(&mut rx);
    tx.send(Vec::new()).unwrap();
    tx.send(vec![7i16; 3]).unwrap();
    let mut buf = [0i16; 2];
    assert_eq!(src.read(&mut buf).unwrap(), 2);
    assert_eq!(buf, [7, 7]);
    // What is left of a frame comes before the next one.
    tx.send(vec![9i16; 1]).unwrap();
    assert_eq!(src.read(&mut []).unwrap(), 0);
    assert_eq!(src.read(&mut buf).unwrap(), 1);
    assert_eq!(src.read(&mut buf).unwrap(), 1);
    assert_eq!(buf[0], 9);
}

#[test]
fn frames_make_the_mix() {
    let (tx, rx) = ([1i16, 2, 3], [10i16, 20]);
    for tx_left in [true, false] {
        let mut out = Vec::new();
        let mut f = 0;
        while let Some((l, r)) = mix_frame(tx.get(f).copied(), rx.get(f).copied(), tx_left) {
            out.extend([l, r]);
            f += 1;
        }
        assert_eq!(out, mix_legs(&tx, 1, &rx, 1, tx_left));
        assert_eq!(out.len(), 6);
    }
}

#[test]
fn session_records_rx_and_aligns_tx() {
    let mut feed = CaptureFeed::new(1);
    let mut r = recorder(1);
    for chunk in [vec![7i16; 100], vec![7i16; 100]] {
        let fed = feed.push(&chunk, false);
        r.push_rx(&fed.write).unwrap();
    }
    assert_eq!(r.rx_len(), 200);
    r.push_tx_at(200, &[9i16; 50]).unwrap();
    r.finish().unwrap();
    let rx = r.rx.samples;
    let tx = r.tx.samples;
    assert_eq!(rx.len(), tx.len());
    assert_eq!(rx.len(), 250); // max(rx=200, tx=200+50)
    assert_eq!(&rx[..200], &[7i16; 200][..]);
    assert_eq!(&rx[200..], &[0i16; 50][..]);
    assert_eq!(&tx[..200], &[0i16; 200][..]); // tx anchored at rx offset 200
    assert_eq!(&tx[200..250], &[9i16; 50][..]);

    // the live session's mix is stereo, default layout left = tx / right = rx
    let mix = mix_legs(&tx, 1, &rx, 1, true);
    assert_eq!(mix.len(), 500); // 250 frames x 2 channels
    let left: Vec<i16> = mix.iter().step_by(2).copied().collect();
    let right: Vec<i16> = mix.iter().skip(1).step_by(2).copied().collect();
    assert_eq!(left, tx); // left  = tx
    assert_eq!(right, rx); // right = rx
}

#[test]
fn the_call_channel_is_judged_only_while_a_turn_is_on() {
    let mut feed = CaptureFeed::new(2);
    assert!(feed.push(&[1, 2, 3, 4], false).mono.is_none());
    let fed = feed.push(&[5, 6, 7, 8], true);
    assert_eq!(fed.mono, Some(vec![5, 7]));
    assert!(fed.fresh, "a turn starts with a fresh resampler");
    assert!(!feed.push(&[5, 6], true).fresh);
}

#[test]
fn recordings_are_named_for_their_session() {
    assert_eq!(leg_path("/rec", "s1", Leg::Rx), "/rec/s1-rx.wav");
    assert_eq!(leg_path("/rec", "s1", Leg::Tx), "/rec/s1-tx.wav");
    assert_eq!(leg_path("/rec", "s1", Leg::Mix), "/rec/s1-mix.wav");
}

#[test]
fn a_mix_ends_with_its_longer_leg() {
    assert_eq!(mix_frame(Some(1), None, true), Some((1, 0)));
    assert_eq!(mix_frame(Some(1), Some(2), false), Some((2, 1)));
    assert_eq!(mix_frame(None, None, true), None);
    assert_eq!(mix_legs(&[1, 2], 1, &[9], 1, true), vec![1, 9, 2, 0]);
}

#[test]
fn frames_are_delivered_in_the_pieces_asked_for() {
    let mut b = FrameBuffer::new();
    assert!(b.is_drained());
    assert!(b.accept(FrameEvent::Frame(vec![1, 2, 3])).is_none());
    let mut out = [0i16; 2];
    assert_eq!(b.deliver(&mut out), 2);
    assert_eq!(out, [1, 2]);
    assert_eq!(b.deliver(&mut out), 1);
    assert_eq!(out[0], 3);
    assert!(b.is_drained());
    assert!(matches!(b.accept(FrameEvent::Closed), Some(Ok(0))));
    assert!(matches!(b.accept(FrameEvent::Timeout), Some(Err(AudioError::WouldBlock))));
}

#[test]
fn one_channel_is_kept_of_many() {
    struct Quad(Vec<i16>);
    impl RawSource for Quad {
        fn read(&mut self, out: &mut [i16]) -> Result<usize, AudioError> {
            let n = self.0.len().min(out.len() / 4 * 4);
            for (i, v) in self.0.drain(..n).enumerate() {
                out[i] = v;
            }
            Ok(n)
        }
        fn sample_rate(&self) -> u32 {
            48_000
        }
        fn channels(&self) -> u16 {
            4
        }
    }
    let mut src = DownmixMono::channel(Source::new(Quad((0..16).collect())), 2);
    let mut buf = [0i16; 8];
    assert_eq!(src.read(&mut buf).unwrap(), 4);
    assert_eq!(&buf[..4], &[2, 6, 10, 14]);
    assert_eq!((src.channels(), src.sample_rate()), (1, 48_000));
}

#[test]
fn a_stereo_file_is_read_by_its_first_channel() {
    let mut f = WavFileSource::new(vec![1, -1, 2, -2, 3, -3], 2, 8_000);
    let mut buf = [0i16; 2];
    assert_eq!(f.read(&mut buf).unwrap(), 2);
    assert_eq!(buf, [1, 2]);
    assert_eq!(f.read(&mut buf).unwrap(), 1);
    assert_eq!(f.read(&mut buf).unwrap(), 0);
    let mut sink = MemorySink::new();
    sink.write(&[4, 5]).unwrap();
    sink.flush().unwrap();
    assert_eq!(sink.samples, vec![4, 5]);
}

#[test]
fn a_prompt_is_spread_over_the_call_channels() {
    assert_eq!(spread_over(&[1, 2], 1), vec![1, 2]);
    assert_eq!(spread_over(&[1, 2], 2), vec![1, 1, 2, 2]);
}

#[test]
fn a_device_that_breaks_its_frames_is_a_failure() {
    struct Odd;
    impl RawSource for Odd {
        fn read(&mut self, _out: &mut [i16]) -> Result<usize, AudioError> {
            Ok(3)
        }
        fn sample_rate(&self) -> u32 {
            48_000
        }
        fn channels(&self) -> u16 {
            2
        }
    }
    let mut src = Source::new(Odd);
    assert!(matches!(src.read(&mut [0i16; 8]), Err(AudioError::Failed(_))));
    struct Full;
    impl RawSink for Full {
        fn write(&mut self, _samples: &[i16]) -> Result<(), AudioError> {
            Err(AudioError::Failed("disk full".to_string()))
        }
        fn flush(&mut self) -> Result<(), AudioError> {
            Ok(())
        }
    }
    let mut r = DuplexRecorder::new(Sink::new(Full), Sink::new(Full), 1);
    assert!(r.push_rx(&[1, 2]).is_err());
}

// --- whole captures --------------------------------------------------------------

/// A device that delivers its reads one by one, then ends or fails.
struct Scripted {
    reads: Vec<Vec<i16>>,
    failure: Option<&'static str>,
    channels: u16,
}

impl RawSource for Scripted {
    fn read(&mut self, out: &mut [i16]) -> Result<usize, AudioError> {
        if self.reads.is_empty() {
            return match self.failure {
                Some(e) => Err(AudioError::Failed(e.to_string())),
                None => Ok(0),
            };
        }
        let next = self.reads.remove(0);
        out[..next.len()].copy_from_slice(&next);
        Ok(next.len())
    }
    fn sample_rate(&self) -> u32 {
        16_000
    }
    fn channels(&self) -> u16 {
        self.channels
    }
}

/// Keeps what it is told. It listens from its second question on.
struct Notes {
    asked: usize,
    clocks: Vec<u64>,
    restarts: usize,
    heard: Vec<i16>,
}

impl RawTap for Notes {
    fn active(&mut self) -> bool {
        self.asked += 1;
        self.asked > 1
    }
    fn clock(&mut self, frames: u64) {
        self.clocks.push(frames);
    }
    fn restart(&mut self) {
        self.restarts += 1;
    }
    fn hear(&mut self, mono: Vec<i16>) {
        self.heard.extend(mono);
    }
}

fn notes() -> Tap<Notes> {
    Tap::new(Notes { asked: 0, clocks: vec![], restarts: 0, heard: vec![] })
}

#[test]
fn a_capture_is_recorded_as_it_comes() {
    let device = Scripted {
        reads: vec![vec![1, -1, 2, -2], vec![3, -3], vec![4, -4, 5, -5]],
        failure: None,
        channels: 2,
    };
    let mut rx = MemorySink::new();
    let mut tap = notes();
    assert_eq!(record_rx(&mut Source::new(device), &mut rx, &mut tap).unwrap(), 5);
    assert_eq!(rx.samples, vec![1, -1, 2, -2, 3, -3, 4, -4, 5, -5]);
    assert_eq!(tap.device.clocks, vec![2, 3, 5]);
    // The turn began with the second read, and only the call's channel is heard.
    assert_eq!(tap.device.restarts, 1);
    assert_eq!(tap.device.heard, vec![3, 4, 5]);
}

#[test]
fn a_recording_ends_with_the_failure_of_its_capture() {
    let device = Scripted { reads: vec![vec![7, 8]], failure: Some("unplugged"), channels: 1 };
    let mut rx = MemorySink::new();
    match record_rx(&mut Source::new(device), &mut rx, &mut notes()) {
        Err(AudioError::Failed(e)) => assert_eq!(e, "unplugged"),
        other => panic!("not failed: {other:?}"),
    }
    assert_eq!(rx.samples, vec![7, 8]);
}

/// A device that takes nothing.
struct Full;

impl RawSink for Full {
    fn write(&mut self, _samples: &[i16]) -> Result<(), AudioError> {
        Err(AudioError::Failed("disk full".to_string()))
    }
    fn flush(&mut self) -> Result<(), AudioError> {
        Ok(())
    }
}

#[test]
fn a_recording_ends_with_the_failure_of_its_leg() {
    let device = Scripted { reads: vec![vec![7, 8]], failure: None, channels: 1 };
    let mut tap = notes();
    match record_rx(&mut Source::new(device), &mut Sink::new(Full), &mut tap) {
        Err(AudioError::Failed(e)) => assert_eq!(e, "disk full"),
        other => panic!("not failed: {other:?}"),
    }
    assert!(tap.device.clocks.is_empty());
    let mut silence = vec![0i16; 4];
    assert!(pad_to(&mut Sink::new(Full), 1, 5, 5, &mut silence).is_ok());
    assert!(pad_to(&mut Sink::new(Full), 1, 5, 6, &mut silence).is_err());
}

#[test]
fn samples_are_placed_behind_silence() {
    let mut leg = MemorySink::new();
    let (mut len, mut silence) = (0u64, Vec::new());
    place_at(&mut leg, 2, &mut len, 2, &[9, -9], &mut silence).unwrap();
    assert_eq!((leg.samples.clone(), len), (vec![0, 0, 0, 0, 9, -9], 3));
    // An offset that has passed is no reason to go back.
    place_at(&mut leg, 2, &mut len, 1, &[8, -8], &mut silence).unwrap();
    assert_eq!((leg.samples, len), (vec![0, 0, 0, 0, 9, -9, 8, -8], 4));
}

/// Takes loud hops for voiced ones.
struct Loudness {
    cancel_after: usize,
    asked: usize,
    idle: u64,
}

impl RawEar for Loudness {
    fn cancelled(&mut self) -> bool {
        self.asked += 1;
        self.asked > self.cancel_after
    }
    fn resample(&mut self, samples: &[i16]) -> Vec<i16> {
        samples.to_vec()
    }
    fn idle_ms(&mut self) -> u64 {
        self.idle
    }
    fn voiced(&mut self, hop: &Vec<i16>) -> Result<bool, String> {
        if hop.contains(&i16::MIN) {
            return Err("broken model".to_string());
        }
        Ok(hop.iter().any(|s| s.unsigned_abs() > 1000))
    }
}

fn ear(cancel_after: usize) -> Ear<Loudness> {
    Ear::new(Loudness { cancel_after, asked: 0, idle: 0 })
}

fn clip(parts: &[(i16, usize)]) -> WavFileSource {
    let mut all = Vec::new();
    for (sample, n) in parts {
        all.extend(std::iter::repeat(*sample).take(*n));
    }
    WavFileSource::new(all, 1, 16_000)
}

#[test]
fn a_turn_is_waited_for_over_a_clip() {
    // hop=160 -> 10ms; 50ms of silence end a turn.
    let turn = cfg(160, 50, 100_000);
    let mut src = clip(&[(0, 1600), (5000, 3200), (0, 16_000)]);
    let r = run_wait_for_speech(&mut src, &turn, &mut ear(usize::MAX));
    assert_eq!(r, Ok(EndReason::Silence));
    // Speech up to the end of the clip.
    let r = run_wait_for_speech(&mut clip(&[(5000, 3200)]), &turn, &mut ear(usize::MAX));
    assert_eq!(r, Ok(EndReason::EndOfStream));
    // Nobody speaks, and the cap ends the wait.
    let capped = cfg(160, 50, 200);
    let r = run_wait_for_speech(&mut clip(&[(0, 16_000)]), &capped, &mut ear(usize::MAX));
    assert_eq!(r, Ok(EndReason::Timeout));
}

#[test]
fn a_wait_stops_when_it_is_cancelled() {
    let turn = cfg(160, 50, 100_000);
    let mut src = clip(&[(0, 100_000)]);
    let mut e = ear(2);
    assert_eq!(run_wait_for_speech(&mut src, &turn, &mut e), Ok(EndReason::EndOfStream));
    assert_eq!(e.device.asked, 3);
    assert_eq!(src.pos, 2 * 4096);
}

#[test]
fn a_wait_fails_with_its_judge_or_its_capture() {
    let turn = cfg(160, 50, 100_000);
    let r = run_wait_for_speech(&mut clip(&[(i16::MIN, 400)]), &turn, &mut ear(usize::MAX));
    assert_eq!(r, Err("broken model".to_string()));
    let device = Scripted { reads: vec![], failure: Some("unplugged"), channels: 1 };
    let r = run_wait_for_speech(&mut Source::new(device), &turn, &mut ear(usize::MAX));
    assert_eq!(r, Err("unplugged".to_string()));
    // A capture thread that never sends anything.
    let (_tx, mut rx) = sync_channel::<Vec<i16>>(1);
    let mut idle = Ear::new(Loudness { cancel_after: usize::MAX, asked: 0, idle: 3_000 });
    let r = run_wait_for_speech(&mut VadFrameSource::new(&mut rx), &turn, &mut idle);
    assert!(r.unwrap_err().contains("capture stalled"));
}

/// A tool's output that comes in pieces of a few bytes, then ends or fails.
struct Dribble {
    bytes: Vec<u8>,
    step: usize,
    failure: Option<&'static str>,
}

impl RawPipe for Dribble {
    fn read(&mut self, buf: &mut [u8]) -> Result<usize, String> {
        let n = self.step.min(buf.len()).min(self.bytes.len());
        for (slot, b) in buf.iter_mut().zip(self.bytes.drain(..n)) {
            *slot = b;
        }
        match self.failure {
            Some(e) if n == 0 => Err(e.to_string()),
            _ => Ok(n),
        }
    }
}

#[test]
fn a_tool_is_read_in_whole_frames() {
    let pcm: Vec<i16> = (0..200).map(|i| i * 37 - 3000).collect();
    for step in [1, 3, 7, 1000] {
        let mut bytes = encode_pcm(&pcm);
        bytes.push(9); // half a sample at the end
        let pipe = Dribble { bytes, step, failure: None };
        let mut src = CommandCaptureSource::new(pipe, 48_000, 2);
        assert_eq!((src.sample_rate(), src.channels()), (48_000, 2));
        let (mut got, mut buf) = (Vec::new(), [0i16; 9]);
        loop {
            let n = src.read(&mut buf).unwrap();
            if n == 0 {
                break;
            }
            assert_eq!(n % 2, 0);
            got.extend_from_slice(&buf[..n]);
        }
        assert_eq!(got, pcm);
        assert_eq!(src.frames.leftover, vec![9]);
    }
}

#[test]
fn a_tool_that_fails_is_a_failure_and_no_end() {
    let pipe = Dribble { bytes: vec![1, 0, 2], step: 3, failure: Some("broken pipe") };
    let mut src = CommandCaptureSource::new(pipe, 16_000, 1);
    let mut buf = [0i16; 8];
    assert_eq!(src.read(&mut []).unwrap(), 0);
    assert_eq!(src.read(&mut buf).unwrap(), 1);
    match src.read(&mut buf) {
        Err(AudioError::Failed(e)) => assert_eq!(e, "broken pipe"),
        other => panic!("not failed: {other:?}"),
    }
}

#[test]
fn one_tool_of_a_kind_is_enough() {
    assert_eq!(tools_among(&vec![false, true], &vec![false, false]), (true, false));
    assert_eq!(tools_among(&vec![], &vec![true]), (false, true));
}

#[test]
fn a_device_is_passed_on_as_it_is() {
    let device = Scripted { reads: vec![vec![4, 5]], failure: Some("unplugged"), channels: 2 };
    let mut src = Source::new(device);
    let mut out = [9i16; 4];
    assert_eq!(src.read(&mut out).unwrap(), 2);
    assert_eq!(out, [4, 5, 9, 9]);
    match src.read(&mut out) {
        Err(AudioError::Failed(e)) => assert_eq!(e, "unplugged"),
        other => panic!("not failed: {other:?}"),
    }
    let broken = Scripted { reads: vec![vec![4, 5, 6]], failure: None, channels: 2 };
    match Source::new(broken).read(&mut out) {
        Err(AudioError::Failed(e)) => assert_eq!(e, "capture gave an incomplete frame"),
        other => panic!("not failed: {other:?}"),
    }
    assert_eq!(out, [4, 5, 9, 9]);
    assert!(Sink::new(Full).flush().is_ok());
}

#[test]
fn a_turn_is_told_from_its_start_to_its_end() {
    // 16 ms hops: two voiced ones start the turn, three unvoiced ones end it, ten are the cap.
    let cfg = TurnConfig {
        hop_size: 256,
        silence_duration_ms: 48,
        end_timeout_ms: 160,
        onset_duration_ms: 32,
    };
    let run = |hops: &[bool]| -> Vec<Option<TurnEvent>> {
        let mut d = TurnDetector::new(&cfg);
        let mut told: Vec<_> = hops.iter().map(|v| d.push(*v)).collect();
        told.push(d.finish());
        told
    };
    let (t, f) = (true, false);
    let started = Some(TurnEvent::SpeechStarted);
    let end = |why| Some(TurnEvent::Ended(why));
    assert_eq!(
        run(&[t, f, t, t, f, f, t, f, f, f, t]),
        vec![
            None, None, None, started, None, None, None, None, None, end(EndReason::Silence), None,
            None
        ]
    );
    let mut capped = vec![None; 9];
    capped.extend([end(EndReason::Timeout), None, None]);
    assert_eq!(run(&[f; 11]), capped);
    assert_eq!(run(&[t, t]), vec![None, started, end(EndReason::EndOfStream)]);
}

#[test]
fn the_start_of_speech_is_waited_for() {
    // Onset after 100 ms of speech, which is seven hops; then 160 ms more.
    let wait = |src: &mut WavFileSource, e: &mut Ear<Loudness>| {
        run_wait_for_speech_start(src, 2_000, 160, 100, e)
    };
    assert_eq!(wait(&mut clip(&[(0, 3_200), (5_000, 16_000)]), &mut ear(usize::MAX)), Ok(true));
    // The timeout elapses, or the capture ends, without speech.
    assert_eq!(wait(&mut clip(&[(0, 64_000)]), &mut ear(usize::MAX)), Ok(false));
    assert_eq!(wait(&mut clip(&[(5_000, 256)]), &mut ear(usize::MAX)), Ok(false));
    // A cancelled wait has heard no start.
    assert_eq!(wait(&mut clip(&[(5_000, 64_000)]), &mut ear(0)), Ok(false));

    let mut w = StartWait::new(2_000, 0, 0);
    assert!(matches!(w.step(WaitEvent::Nothing { idle_ms: 10 }), StartMove::Read));
    assert!(matches!(w.step(WaitEvent::Nothing { idle_ms: 3_000 }), StartMove::Failed(_)));
    assert!(matches!(w.step(WaitEvent::Failed("x".to_string())), StartMove::Failed(_)));
    match w.step(WaitEvent::Samples(vec![1; DEFAULT_HOP + 1])) {
        StartMove::Judge(hop) => assert_eq!(hop, vec![1; DEFAULT_HOP]),
        other => panic!("{other:?}"),
    }
    assert!(matches!(w.step(WaitEvent::Judged(false)), StartMove::Read));
    assert!(matches!(w.step(WaitEvent::Judged(true)), StartMove::Done(true)));
    assert!(matches!(w.step(WaitEvent::End), StartMove::Done(false)));
}
