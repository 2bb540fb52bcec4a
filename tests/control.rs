use springgraph::control::{parse_control_line, FmControl};
use springgraph::devices::select_output_device;
use springgraph::fm::{FMSynth, ATTACK_AMP};

fn ctl(freq: u64, c_ratio: u32, m_ratio: u32, lfo_freq: u64) -> Option<FmControl> {
    Some(FmControl { freq, c_ratio, m_ratio, lfo_freq })
}

#[test]
fn full_control_line() {
    assert_eq!(parse_control_line(b"440 1.5 2 3"), ctl(440_000, 1500, 2000, 3000));
    assert_eq!(parse_control_line(b"  440\t2.25  0.5 7\n"), ctl(440_000, 2250, 500, 7000));
}

#[test]
fn short_line_takes_defaults() {
    assert_eq!(parse_control_line(b"330\n"), ctl(330_000, 1000, 1000, 1000));
    assert_eq!(parse_control_line(b"330 3"), ctl(330_000, 3000, 1000, 1000));
}

#[test]
fn decimals_are_read_to_thousandths() {
    assert_eq!(parse_control_line(b"220.25"), ctl(220_250, 1000, 1000, 1000));
    assert_eq!(parse_control_line(b"1.23456"), ctl(1_234, 1000, 1000, 1000));
    assert_eq!(parse_control_line(b"5."), ctl(5_000, 1000, 1000, 1000));
    assert_eq!(parse_control_line(b".5"), ctl(500, 1000, 1000, 1000));
}

#[test]
fn malformed_lines_are_rejected() {
    assert_eq!(parse_control_line(b""), None);
    assert_eq!(parse_control_line(b"   \n"), None);
    assert_eq!(parse_control_line(b"1 2 3 4 5"), None);
    assert_eq!(parse_control_line(b"abc"), None);
    assert_eq!(parse_control_line(b"1..2"), None);
    assert_eq!(parse_control_line(b"."), None);
    assert_eq!(parse_control_line(b"-440"), None);
    assert_eq!(parse_control_line(b"440 x"), None);
}

#[test]
fn values_beyond_limits_are_rejected() {
    assert_eq!(parse_control_line(b"1 2000"), None);
    assert_eq!(parse_control_line(b"99999999999999999999999"), None);
    assert_eq!(parse_control_line(b"1 1048.576"), ctl(1_000, 1_048_576, 1000, 1000));
}

#[test]
fn device_by_name_or_default() {
    let names: Vec<String> = vec!["hw:CARD=Pro".to_string(), "jack".to_string(), "default:CARD=Pro".to_string()];
    assert_eq!(select_output_device(&names, "jack", Some(2)), Some(1));
    assert_eq!(select_output_device(&names, "CARD", Some(2)), Some(0));
    assert_eq!(select_output_device(&names, "", Some(2)), Some(2));
    assert_eq!(select_output_device(&names, "pulse", Some(2)), Some(2));
    assert_eq!(select_output_device(&names, "pulse", None), None);
    assert_eq!(select_output_device(&Vec::new(), "jack", None), None);
}

#[test]
fn control_request_through_channel_triggers() {
    let (tx, rx) = crossbeam_channel::bounded(4);
    let mut fm = FMSynth::new(44100, 220_000, 0, 2000, 1000);
    assert!(!fm.drain_control(&rx));
    tx.send(FmControl { freq: 330_000, c_ratio: 1500, m_ratio: 3000, lfo_freq: 500 }).unwrap();
    tx.send(FmControl { freq: 440_000, c_ratio: 1000, m_ratio: 1000, lfo_freq: 500 }).unwrap();
    fm.advance_modulator();
    assert!(fm.drain_control(&rx));
    assert_eq!(fm.freq, 330_000);
    assert_eq!(fm.c_ratio, 1500);
    assert_eq!(fm.m_ratio, 3000);
    assert_eq!(fm.lfo_freq, 500);
    assert_eq!(fm.amp, ATTACK_AMP);
    assert_eq!(fm.m_phase, 0);
    assert!(fm.drain_control(&rx));
    assert_eq!(fm.freq, 440_000);
    tx.send(FmControl { freq: u64::MAX, c_ratio: 1000, m_ratio: 1000, lfo_freq: 500 }).unwrap();
    assert!(!fm.drain_control(&rx));
    assert_eq!(fm.freq, 440_000);
}

#[test]
fn largest_frequency_is_accepted() {
    assert_eq!(parse_control_line(b"1099511627.776"), ctl(1_099_511_627_776, 1000, 1000, 1000));
    assert_eq!(parse_control_line(b"1099511627.777"), None);
}

#[test]
fn control_beyond_limits_is_refused() {
    let mut fm = FMSynth::new(44100, 220_000, 0, 2000, 1000);
    let before = fm;
    assert!(!fm.accept_control(FmControl { freq: 330_000, c_ratio: 2_000_000, m_ratio: 1000, lfo_freq: 500 }));
    assert_eq!(fm, before);
    assert!(fm.accept_control(FmControl { freq: 330_000, c_ratio: 2000, m_ratio: 1000, lfo_freq: 500 }));
    assert_eq!(fm.freq, 330_000);
    assert_eq!(fm.c_ratio, 2000);
    assert_eq!(fm.amp, ATTACK_AMP);
}

#[test]
fn signs_and_exponents_are_read() {
    assert_eq!(parse_control_line(b"+440"), ctl(440_000, 1000, 1000, 1000));
    assert_eq!(parse_control_line(b"4.4e2 2.5E-1"), ctl(440_000, 250, 1000, 1000));
    assert_eq!(parse_control_line(b"44E+1 +1e0"), ctl(440_000, 1000, 1000, 1000));
    assert_eq!(parse_control_line(b".5e1"), ctl(5_000, 1000, 1000, 1000));
    assert_eq!(parse_control_line(b"1.23456e2"), ctl(123_456, 1000, 1000, 1000));
    assert_eq!(parse_control_line(b"1e-4"), ctl(0, 1000, 1000, 1000));
    assert_eq!(parse_control_line(b"0e99999999999999999999"), ctl(0, 1000, 1000, 1000));
    assert_eq!(parse_control_line(b"123e-99999999999999999999"), ctl(0, 1000, 1000, 1000));
}

#[test]
fn malformed_signs_and_exponents_are_rejected() {
    assert_eq!(parse_control_line(b"1e99999"), None);
    assert_eq!(parse_control_line(b"1e"), None);
    assert_eq!(parse_control_line(b"1e+"), None);
    assert_eq!(parse_control_line(b"e3"), None);
    assert_eq!(parse_control_line(b"+"), None);
    assert_eq!(parse_control_line(b"++1"), None);
    assert_eq!(parse_control_line(b"1.5e2.0"), None);
    assert_eq!(parse_control_line(b"1.2.3"), None);
    assert_eq!(parse_control_line(b"1e2e3"), None);
}
