use springgraph::audio::{Audio, AudioInterface, NUM_SINES};
use springgraph::commands::CommandBatch;
use springgraph::fm::{FMSynth, Pulse, ATTACK_AMP};
use springgraph::voice::Sine;

#[test]
fn scenario_phase_after_a_block() {
    let (tx, rx) = crossbeam_channel::bounded(4);
    let mut iface = AudioInterface::new(tx, NUM_SINES);
    let mut audio = Audio::new(44100);
    iface.set_sine_freq(3, 440_000);
    assert!(iface.update());
    assert!(audio.drain(&rx));
    for _ in 0..100 {
        audio.smooth_amplitudes();
        audio.advance_phases();
    }
    // 100 * 440 / 44100 of a cycle, in units of 1 / (44100 * 1000)
    assert_eq!(audio.sine(3).phase, 100 * 440_000);
    assert_eq!(audio.sine(3).target_freq, 440_000);
    // a voice left at 220 Hz
    assert_eq!(audio.sine(4).phase, 100 * 220_000 % 44_100_000);
}

#[test]
fn phase_wraps_at_a_whole_cycle() {
    let mut audio = Audio::with_voices(1, 10);
    audio.set_sine_freq(0, 4_000);
    for _ in 0..3 {
        audio.advance_phases();
    }
    assert_eq!(audio.sine(0).phase, 2_000);
}

#[test]
fn batch_last_write_wins() {
    let mut batch = CommandBatch::new();
    batch.set_freq(5, 100_000);
    batch.set_amp(5, 10);
    batch.set_freq(5, 200_000);
    let c = batch.get(5).unwrap();
    assert_eq!(c.freq, Some(200_000));
    assert_eq!(c.amp, Some(10));
    assert!(batch.get(6).is_none());
    let mut audio = Audio::with_voices(8, 44100);
    audio.apply(&batch);
    assert_eq!(audio.sine(5).target_freq, 200_000);
    assert_eq!(audio.sine(5).target_amp, 10);
    assert_eq!(audio.sine(6), Sine::new());
}

#[test]
fn batch_for_voices_beyond_the_pool_is_ignored() {
    let mut batch = CommandBatch::new();
    batch.set_amp(9, 77);
    batch.set_amp(1, 33);
    let mut audio = Audio::with_voices(2, 44100);
    audio.apply(&batch);
    assert_eq!(audio.sine(1).target_amp, 33);
    assert_eq!(audio.sine(0).target_amp, 0);
}

#[test]
fn empty_batch_is_not_sent() {
    let (tx, rx) = crossbeam_channel::bounded(1);
    let mut iface = AudioInterface::new(tx, 4);
    assert!(!iface.update());
    let mut audio = Audio::with_voices(4, 44100);
    assert!(!audio.drain(&rx));
    let mut batch = CommandBatch::new();
    assert!(batch.is_empty());
    batch.set_amp(0, 1);
    assert!(!batch.is_empty());
}

#[test]
fn full_channel_drops_the_batch() {
    let (tx, rx) = crossbeam_channel::bounded(1);
    let mut iface = AudioInterface::new(tx, 4);
    iface.set_sine_amp(0, 100);
    assert!(iface.update());
    iface.set_sine_amp(1, 200);
    assert!(!iface.update());
    assert!(iface.pending(1).is_none());
    let mut audio = Audio::with_voices(4, 44100);
    assert!(audio.drain(&rx));
    assert_eq!(audio.sine(0).target_amp, 100);
    assert_eq!(audio.sine(1).target_amp, 0);
    assert!(!audio.drain(&rx));
}

#[test]
fn voices_are_handed_out_round_robin() {
    let (tx, _rx) = crossbeam_channel::bounded(1);
    let mut iface = AudioInterface::new(tx, 3);
    let got: Vec<usize> = (0..7).map(|_| iface.get_new_sine()).collect();
    assert_eq!(got, vec![0, 1, 2, 0, 1, 2, 0]);
}

#[test]
fn smoothing_converges_without_overshoot() {
    let mut s = Sine::new();
    s.target_amp = 1_000_000;
    let mut prev = s.smoothed_amp;
    let mut steps = 0;
    while s.smoothed_amp != s.target_amp {
        s.smooth();
        assert!(s.smoothed_amp > prev);
        assert!(s.smoothed_amp <= s.target_amp);
        prev = s.smoothed_amp;
        steps += 1;
        assert!(steps <= 1_000_000);
    }
    // one twentieth of the gap, rounded up, on the first step
    let mut t = Sine::new();
    t.target_amp = 1_000_000;
    t.smooth();
    assert_eq!(t.smoothed_amp, 50_000);
    t.target_amp = 0;
    t.smooth();
    assert_eq!(t.smoothed_amp, 47_500);
}

#[test]
fn target_amplitude_decays_each_control_tick() {
    let mut audio = Audio::with_voices(2, 44100);
    audio.set_sine_amp(0, 1000);
    audio.control_rate_update();
    assert_eq!(audio.sine(0).target_amp, 950);
    audio.control_rate_update();
    assert_eq!(audio.sine(0).target_amp, 902);
}

#[test]
fn scenario_trigger_resets_fm_phases() {
    let mut fm = FMSynth::new(44100, 220_000, 1_000_000, 2000, 1000);
    for _ in 0..37 {
        fm.advance_lfo();
        fm.advance_modulator();
        fm.advance_carrier(300_000);
    }
    assert!(fm.m_phase != 0 && fm.c_phase != 0);
    let lfo = fm.lfo_phase;
    fm.control_rate_update();
    fm.trigger(220_000);
    assert_eq!(fm.m_phase, 0);
    assert_eq!(fm.c_phase, 0);
    assert_eq!(fm.amp, ATTACK_AMP);
    assert_eq!(fm.freq, 220_000);
    assert_eq!(fm.lfo_phase, lfo);
}

#[test]
fn fm_phase_steps_are_exact() {
    let mut fm = FMSynth::new(100, 1_000, 1_000_000, 2000, 1500);
    fm.advance_modulator();
    assert_eq!(fm.m_phase, 2_000_000);
    fm.advance_carrier(-1_000);
    assert_eq!(fm.c_phase, 100_000_000 - 1_500_000);
    fm.advance_lfo();
    assert_eq!(fm.lfo_phase, 3_000_000);
    fm.control_rate_update();
    assert_eq!(fm.amp, 980_000);
}

#[test]
fn pulse_fires_every_interval() {
    let mut p = Pulse::new();
    let fired: Vec<usize> = (0..400).filter(|_| p.tick()).collect();
    assert_eq!(fired, vec![0, 80, 160, 240, 320]);
}

#[test]
fn flushed_batch_is_the_pending_one() {
    let (tx, rx) = crossbeam_channel::bounded(4);
    let mut iface = AudioInterface::new(tx, NUM_SINES);
    iface.set_sine_freq(3, 220_000);
    iface.set_sine_freq(3, 440_000);
    iface.set_sine_amp(3, 10);
    iface.set_sine_amp(3, 20);
    assert!(iface.update());
    let mut audio = Audio::new(44100);
    assert!(audio.drain(&rx));
    assert_eq!(audio.sine(3).target_freq, 440_000);
    assert_eq!(audio.sine(3).target_amp, 20);
    assert_eq!(audio.sine(2), Sine::new());
    assert_eq!(audio.sine(4), Sine::new());
}

#[test]
fn take_batch_hands_over_and_clears() {
    let (tx, _rx) = crossbeam_channel::bounded(1);
    let mut iface = AudioInterface::new(tx, 4);
    iface.set_sine_amp(1, 5);
    let b = iface.take_batch();
    assert_eq!(b.get(1).unwrap().amp, Some(5));
    assert!(iface.pending(1).is_none());
    assert!(!iface.update());
}
