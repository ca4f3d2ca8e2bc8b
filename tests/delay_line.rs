use cav_synth::delay_line::DelayLine;

#[test]
fn push_keeps_newest_first_within_capacity() {
    let mut d: DelayLine<u32> = DelayLine::new(3);
    assert_eq!(d.capacity(), 3);
    assert_eq!(d.len(), 0);
    assert_eq!(d.tap(0), None);
    for v in 1..=5 {
        d.push(v);
        assert!(d.len() <= 3);
    }
    assert_eq!(d.len(), 3);
    assert_eq!((d.tap(0), d.tap(1), d.tap(2), d.tap(3)), (Some(5), Some(4), Some(3), None));
}

#[test]
fn take_removes_and_truncate_shortens() {
    let mut d: DelayLine<u32> = DelayLine::new(8);
    for v in 1..=6 {
        d.push(v);
    }
    assert_eq!(d.take(2), Some(4));
    assert_eq!(d.len(), 5);
    assert_eq!(d.tap(2), Some(3));
    assert_eq!(d.take(9), None);
    assert_eq!(d.len(), 5);
    d.truncate(2);
    assert_eq!(d.len(), 2);
    assert_eq!((d.tap(0), d.tap(1), d.tap(2)), (Some(6), Some(5), None));
    d.truncate(4);
    assert_eq!(d.len(), 2);
}

#[test]
fn echo_comes_back_after_delay() {
    let delay = 5usize;
    let mut d: DelayLine<u32> = DelayLine::new(16);
    let mut out = Vec::new();
    for tick in 0..20u32 {
        out.push(d.take(delay - 1));
        d.push(100 + tick);
    }
    assert_eq!(out[delay], Some(100));
    assert_eq!(out[delay + 3], Some(103));
    assert!(out[..delay].iter().all(|o| o.is_none()));
}

// A delay of half a second at 48 kHz with feedback ratio 0.5, fed one unit
// impulse: echoes of 1, 0.5, 0.25 every 24000 samples.
#[test]
fn impulse_echoes_decay_by_ratio() {
    let sr = 48000usize;
    let delay = sr / 2;
    let ratio = 0.5f32;
    let mut d: DelayLine<f32> = DelayLine::new(sr * 6);
    let mut peaks = Vec::new();
    for tick in 0..(3 * delay + 1) {
        let x = if tick == 0 { 1.0 } else { 0.0 };
        let echo = d.take(delay - 1).unwrap_or(0.0);
        let y = x + ratio * echo;
        d.push(y);
        if y != 0.0 {
            peaks.push((tick, y));
        }
    }
    assert_eq!(peaks, vec![(0, 1.0), (delay, 0.5), (2 * delay, 0.25), (3 * delay, 0.125)]);
}
