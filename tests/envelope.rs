use cav_synth::envelope::{Envelope, Point, Stage};
use cav_synth::midi::{Midi, MidiUpdate, FULL_SCALE};

fn point(stage: Stage, elapsed: u64, length: u64) -> Point {
    Point { stage, elapsed, length }
}

#[test]
fn reaches_sustain_after_attack_and_decay() {
    let mut e = Envelope::new(17, 3, 2, 4);
    assert_eq!(e.id(), 17);
    assert_eq!(e.process(), point(Stage::Idle, 0, 0));
    assert!(e.set_gate(true));
    assert!(!e.set_gate(true));
    assert_eq!(e.process(), point(Stage::Attack, 0, 3));
    assert_eq!(e.process(), point(Stage::Attack, 1, 3));
    assert_eq!(e.process(), point(Stage::Attack, 2, 3));
    assert_eq!(e.process(), point(Stage::Decay, 0, 2));
    assert_eq!(e.process(), point(Stage::Decay, 1, 2));
    for _ in 0..10 {
        assert_eq!(e.process(), point(Stage::Sustain, 0, 0));
    }
}

#[test]
fn release_reaches_rest_and_stays() {
    let mut e = Envelope::new(0, 1, 1, 3);
    e.set_gate(true);
    for _ in 0..5 {
        e.process();
    }
    assert!(e.set_gate(false));
    assert!(!e.set_gate(false));
    assert_eq!(e.stage(), Stage::Release);
    assert_eq!(e.process(), point(Stage::Release, 0, 3));
    assert_eq!(e.process(), point(Stage::Release, 1, 3));
    assert_eq!(e.process(), point(Stage::Release, 2, 3));
    for _ in 0..10 {
        assert_eq!(e.process(), point(Stage::Idle, 0, 0));
    }
    // a new rise from rest restarts the attack
    assert!(e.set_gate(true));
    assert_eq!(e.process(), point(Stage::Attack, 0, 1));
}

#[test]
fn zero_length_stages_are_skipped() {
    let mut e = Envelope::new(0, 0, 0, 0);
    e.set_gate(true);
    assert_eq!(e.process(), point(Stage::Sustain, 0, 0));
    e.set_gate(false);
    assert_eq!(e.process(), point(Stage::Idle, 0, 0));
}

#[test]
fn stage_lengths_can_change() {
    let mut e = Envelope::new(0, 10, 10, 10);
    e.set_gate(true);
    for _ in 0..5 {
        e.process();
    }
    e.set_attack(2);
    e.set_decay(1);
    assert_eq!(e.process(), point(Stage::Sustain, 0, 0));
    e.set_release(7);
    e.set_gate(false);
    assert_eq!(e.process(), point(Stage::Release, 0, 7));
}

#[test]
fn rising_during_release_restarts_attack() {
    let mut e = Envelope::new(0, 2, 2, 5);
    e.set_gate(true);
    e.process();
    e.set_gate(false);
    e.process();
    assert!(e.set_gate(true));
    assert_eq!(e.process(), point(Stage::Attack, 0, 2));
}

// A key held from tick 0 and released at tick 48000, with the MIDI module's
// gate cabled to the envelope one tick later: rise over the attack, fall to
// the sustain, hold, then rest once the release has run.
#[test]
fn key_drives_envelope_through_all_stages() {
    let sr: u64 = 48000;
    let (attack, decay, release) = (sr / 100, sr / 2, sr / 10);
    let mut midi = Midi::new(0);
    let mut env = Envelope::new(1, attack, decay, release);
    let mut stages: Vec<(u64, Stage)> = Vec::new();
    let mut gate_out = 0u8;
    let total = 48000 + release + 100;
    for tick in 0..total {
        if tick == 0 {
            midi.update(MidiUpdate::KeyPress(69, 127));
        }
        if tick == 48000 {
            midi.update(MidiUpdate::KeyRelease(69));
        }
        midi.process();
        let p = env.process();
        if stages.last().map(|s| s.1) != Some(p.stage) {
            stages.push((tick, p.stage));
        }
        // routing after processing: the envelope reads this gate value on the next tick
        env.set_gate(gate_out != 0);
        gate_out = midi.get_output(3);
    }
    assert_eq!(gate_out, 0);
    assert_eq!(
        stages,
        vec![
            (0, Stage::Idle),
            (3, Stage::Attack),
            (3 + attack, Stage::Decay),
            (3 + attack + decay, Stage::Sustain),
            (48002, Stage::Release),
            (48002 + release, Stage::Idle),
        ]
    );
    assert!(gate_out != FULL_SCALE);
}
