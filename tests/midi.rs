use cav_synth::midi::{decode, Midi, MidiUpdate, Voice, FULL_SCALE, POLY_VOICE_COUNT};

fn on_voices(m: &Midi) -> Vec<Voice> {
    (0..POLY_VOICE_COUNT).map(|i| m.voice(i)).filter(|v| v.on).collect()
}

#[test]
fn poly_release_leaves_middle_note() {
    let mut m = Midi::new(0);
    m.update(MidiUpdate::KeyPress(60, 100));
    m.update(MidiUpdate::KeyPress(64, 100));
    m.update(MidiUpdate::KeyPress(67, 100));
    m.update(MidiUpdate::KeyRelease(60));
    m.update(MidiUpdate::KeyRelease(67));
    let on = on_voices(&m);
    assert_eq!(on.len(), 1);
    assert_eq!(on[0].note, 64);
    assert_eq!(m.replacement_order(), vec![1]);
}

#[test]
fn presses_take_distinct_voices() {
    let mut m = Midi::new(0);
    for n in 0..POLY_VOICE_COUNT {
        m.update(MidiUpdate::KeyPress(40 + n as u8, 90));
        assert_eq!(on_voices(&m).len(), n + 1);
    }
    assert_eq!(m.replacement_order(), (0..POLY_VOICE_COUNT).collect::<Vec<_>>());
}

#[test]
fn full_table_evicts_oldest_and_release_of_evicted_is_noop() {
    let mut m = Midi::new(0);
    for n in 0..POLY_VOICE_COUNT {
        m.update(MidiUpdate::KeyPress(40 + n as u8, 90));
    }
    m.update(MidiUpdate::KeyPress(100, 80));
    assert_eq!(on_voices(&m).len(), POLY_VOICE_COUNT);
    assert_eq!(m.voice(0).note, 100);
    assert_eq!(m.voice(0).velocity, 80);
    let mut order: Vec<usize> = (1..POLY_VOICE_COUNT).collect();
    order.push(0);
    assert_eq!(m.replacement_order(), order);

    let before: Vec<Voice> = (0..POLY_VOICE_COUNT).map(|i| m.voice(i)).collect();
    m.update(MidiUpdate::KeyRelease(40));
    let after: Vec<Voice> = (0..POLY_VOICE_COUNT).map(|i| m.voice(i)).collect();
    assert_eq!(before, after);
    assert_eq!(m.replacement_order(), order);

    // the next press now evicts the second oldest
    m.update(MidiUpdate::KeyPress(101, 80));
    assert_eq!(m.voice(1).note, 101);
}

#[test]
fn sustain_pedal_holds_then_releases() {
    let mut m = Midi::new(0);
    m.update(MidiUpdate::KeyPress(60, 100));
    m.update(MidiUpdate::KeyPress(64, 100));
    m.process();
    m.process();
    assert!(m.voice(0).gate && m.voice(1).gate);
    assert_eq!(m.get_output(0), FULL_SCALE);

    m.update(MidiUpdate::PedalPress);
    m.update(MidiUpdate::KeyRelease(64));
    assert!(m.voice(1).gate && m.voice(1).on && !m.voice(1).pressed);
    assert_eq!(m.get_output(0), FULL_SCALE);

    m.update(MidiUpdate::PedalRelease);
    assert!(!m.voice(1).gate && !m.voice(1).on);
    assert!(m.voice(0).gate && m.voice(0).on);
    assert_eq!(m.get_output(0), 0);
    assert_eq!(m.replacement_order(), vec![0]);
}

#[test]
fn release_without_pedal_drops_gate() {
    let mut m = Midi::new(0);
    m.update(MidiUpdate::KeyPress(60, 100));
    m.process();
    m.process();
    m.update(MidiUpdate::KeyRelease(60));
    assert_eq!(m.get_output(0), 0);
    assert_eq!(m.get_output(3), 0);
    assert!(!m.voice(0).on);
    assert!(m.replacement_order().is_empty());
}

#[test]
fn gate_opens_on_second_tick() {
    let mut m = Midi::new(5);
    assert_eq!(m.id(), 5);
    m.update(MidiUpdate::KeyPress(69, 127));
    assert_eq!(m.get_output(0), 0);
    m.process();
    assert_eq!(m.get_output(0), 0);
    assert_eq!(m.get_output(3), 0);
    m.process();
    assert_eq!(m.get_output(0), FULL_SCALE);
    assert_eq!(m.get_output(1), 69);
    assert_eq!(m.get_output(2), 127);
    assert_eq!(m.get_output(3), FULL_SCALE);
    assert_eq!(m.get_output(4), 69);
    assert_eq!(m.get_output(5), 127);
    assert_eq!(m.get_output(6), 0);

    // a legato repeat closes its gate before opening it again
    m.update(MidiUpdate::KeyPress(71, 10));
    assert_eq!(m.get_output(0), 0);
    assert_eq!(m.get_output(7), 71);
    assert_eq!(m.get_output(8), 10);
}

#[test]
fn decodes_note_on_messages() {
    assert!(matches!(decode(&[0x90, 60, 100]), Some(MidiUpdate::KeyPress(60, 100))));
    assert!(matches!(decode(&[0x90, 60, 0]), Some(MidiUpdate::KeyRelease(60))));
    assert!(decode(&[0x80, 60, 0]).is_none());
    assert!(decode(&[0x91, 60, 10]).is_none());
    assert!(decode(&[0x90, 60]).is_none());
    assert!(decode(&[]).is_none());
}

#[test]
fn voice_new_is_fresh() {
    let v = Voice::new(false, 64, 32);
    assert!(v.on && v.pressed && v.trigger && !v.ready && !v.gate);
    assert_eq!((v.note, v.velocity), (64, 32));
}
