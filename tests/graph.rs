use cav_synth::graph::{Cable, InputMode, ModTable, ModuleKind, PatchError, UpdateError};
use cav_synth::message::{DelayUpdate, ModuleMessage, WaveShape, AnalogOscillatorUpdate};
use cav_synth::midi::MidiUpdate;

#[test]
fn stock_patch_layout() {
    let t = ModTable::new();
    assert_eq!(t.module_count(), 52);
    assert_eq!(t.cable_count(), 130);
    assert_eq!(t.sink(), 51);
    assert_eq!(t.kind(0), ModuleKind::Midi);
    assert_eq!(t.kind(1), ModuleKind::AnalogOscillator);
    assert_eq!(t.kind(16), ModuleKind::AnalogOscillator);
    assert_eq!(t.kind(17), ModuleKind::Envelope);
    assert_eq!(t.kind(33), ModuleKind::Butterworth);
    assert_eq!(t.kind(48), ModuleKind::Butterworth);
    assert_eq!(t.kind(49), ModuleKind::Chorus);
    assert_eq!(t.kind(50), ModuleKind::Delay);
    assert_eq!(t.kind(51), ModuleKind::Reverb);
    assert_eq!(t.cable(0), Cable::new(0, 3, 17, 0));
    assert_eq!(t.cable(1), Cable::new(0, 5, 17, 1));
    assert_eq!(t.cable(6), Cable::new(17, 0, 33, 1));
    assert_eq!(t.cable(7), Cable::new(33, 0, 49, 0));
    assert_eq!(t.cable(8), Cable::new(0, 6, 18, 0));
    assert_eq!(t.cable(123), Cable::new(0, 49, 16, 1));
    assert_eq!(t.cable(127), Cable::new(48, 0, 49, 0));
    assert_eq!(t.cable(128), Cable::new(49, 0, 50, 0));
    assert_eq!(t.cable(129), Cable::new(50, 0, 51, 0));
    for k in 0..t.cable_count() {
        let c = t.cable(k);
        assert!(c.source_output < t.kind(c.source_module).output_count());
        assert!(c.target_input < t.kind(c.target_module).input_count());
    }
}

#[test]
fn port_counts_and_modes() {
    assert_eq!(ModuleKind::Midi.output_count(), 51);
    assert_eq!(ModuleKind::Midi.input_count(), 0);
    assert_eq!(ModuleKind::Reverb.output_count(), 2);
    assert_eq!(ModuleKind::Lfo.output_count(), 2);
    assert_eq!(ModuleKind::Envelope.input_count(), 6);
    assert_eq!(ModuleKind::Comb.input_mode(0), InputMode::Summing);
    assert_eq!(ModuleKind::Comb.input_mode(1), InputMode::Latest);
    assert_eq!(ModuleKind::Butterworth.input_mode(1), InputMode::Summing);
    assert_eq!(ModuleKind::AnalogOscillator.input_mode(0), InputMode::Latest);
    assert_eq!(ModuleKind::Envelope.input_mode(0), InputMode::Latest);
}

#[test]
fn from_parts_checks_cables_and_sink() {
    let kinds = vec![ModuleKind::Midi, ModuleKind::Envelope, ModuleKind::AnalogOscillator, ModuleKind::Reverb];
    let good = vec![
        Cable::new(0, 3, 1, 0),
        Cable::new(1, 0, 2, 0),
        Cable::new(2, 0, 3, 0),
    ];
    let t = ModTable::from_parts(kinds.clone(), good.clone(), 3).unwrap();
    assert_eq!(t.cable_count(), 3);
    assert_eq!(t.sink(), 3);

    let mut bad = good.clone();
    bad.push(Cable::new(2, 1, 3, 0));
    bad.push(Cable::new(9, 0, 3, 0));
    assert!(matches!(ModTable::from_parts(kinds.clone(), bad, 3), Err(PatchError::BadCable(3))));

    let bad_input = vec![Cable::new(0, 3, 0, 0)];
    assert!(matches!(ModTable::from_parts(kinds.clone(), bad_input, 3), Err(PatchError::BadCable(0))));

    assert!(matches!(ModTable::from_parts(kinds.clone(), good.clone(), 2), Err(PatchError::BadSink)));
    assert!(matches!(ModTable::from_parts(kinds, good, 4), Err(PatchError::BadSink)));
}

#[test]
fn update_routing_checks_id_and_kind() {
    let t = ModTable::new();
    let key: ModuleMessage<f32> = ModuleMessage::Midi(MidiUpdate::KeyPress(60, 100));
    assert_eq!(t.update(0, &key), Ok(()));
    assert_eq!(t.update(1, &key), Err(UpdateError::WrongKind));
    assert_eq!(t.update(52, &key), Err(UpdateError::NoSuchModule));
    let shape: ModuleMessage<f32> = ModuleMessage::Analog(AnalogOscillatorUpdate::Shape(WaveShape::Saw));
    assert_eq!(t.update(1, &shape), Ok(()));
    let delay: ModuleMessage<f32> = ModuleMessage::Delay(DelayUpdate::Time(0.5));
    assert_eq!(t.update(50, &delay), Ok(()));
    assert_eq!(t.update(49, &delay), Err(UpdateError::WrongKind));
    assert_eq!(delay.kind(), ModuleKind::Delay);
}
