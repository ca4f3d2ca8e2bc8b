//! Control messages from the control thread to the audio loop. Parameter
//! values have the number type `F` of the host's DSP; the graph routes a
//! message by module id and kind and never reads its values.
use vstd::prelude::*;
use crate::graph::ModuleKind;
use crate::midi::MidiUpdate;

verus! {

#[derive(Clone, Copy, Debug, PartialEq, Eq, Structural)]
pub enum WaveShape {
    Saw,
    Sine,
    Square,
    Triangle,
}

#[derive(Clone, Copy, Debug)]
pub enum AnalogOscillatorUpdate<F> {
    SampleRate(usize),
    Frequency(F),
    Phase(F),
    Shape(WaveShape),
}

#[derive(Clone, Copy, Debug)]
pub enum LfoUpdate<F> {
    SampleRate(usize),
    Frequency(F),
    Phase(F),
    Shape(WaveShape),
}

/// Stage times in seconds; the sustain level is a fraction of full scale.
#[derive(Clone, Copy, Debug)]
pub enum EnvelopeUpdate<F> {
    Attack(F),
    Decay(F),
    Release(F),
    Sustain(F),
}

#[derive(Clone, Copy, Debug)]
pub enum ButterworthUpdate<F> {
    SampleRate(usize),
    Frequency(F),
}

#[derive(Clone, Copy, Debug)]
pub enum AllpassUpdate<F> {
    Gain(F),
    DelayTime(usize),
}

#[derive(Clone, Copy, Debug)]
pub enum CombUpdate<F> {
    Gain(F),
    DelayTime(usize),
}

/// A time in seconds, or the feedback ratio.
#[derive(Clone, Copy, Debug)]
pub enum ChorusUpdate<F> {
    Time(F),
    Ratio(F),
}

/// A time in seconds, or the feedback ratio.
#[derive(Clone, Copy, Debug)]
pub enum DelayUpdate<F> {
    Time(F),
    Ratio(F),
}

#[derive(Clone, Copy, Debug)]
pub enum ReverbUpdate<F> {
    Wet(F),
}

/// A parameter change for one module, tagged with the kind of module it is for.
#[derive(Clone, Copy, Debug)]
pub enum ModuleMessage<F> {
    Analog(AnalogOscillatorUpdate<F>),
    Lfo(LfoUpdate<F>),
    Envelope(EnvelopeUpdate<F>),
    Butterworth(ButterworthUpdate<F>),
    Allpass(AllpassUpdate<F>),
    Comb(CombUpdate<F>),
    Chorus(ChorusUpdate<F>),
    Delay(DelayUpdate<F>),
    Reverb(ReverbUpdate<F>),
    Midi(MidiUpdate),
}

pub open spec fn message_kind<F>(m: ModuleMessage<F>) -> ModuleKind {
    match m {
        ModuleMessage::Analog(_) => ModuleKind::AnalogOscillator,
        ModuleMessage::Lfo(_) => ModuleKind::Lfo,
        ModuleMessage::Envelope(_) => ModuleKind::Envelope,
        ModuleMessage::Butterworth(_) => ModuleKind::Butterworth,
        ModuleMessage::Allpass(_) => ModuleKind::Allpass,
        ModuleMessage::Comb(_) => ModuleKind::Comb,
        ModuleMessage::Chorus(_) => ModuleKind::Chorus,
        ModuleMessage::Delay(_) => ModuleKind::Delay,
        ModuleMessage::Reverb(_) => ModuleKind::Reverb,
        ModuleMessage::Midi(_) => ModuleKind::Midi,
    }
}

impl<F> ModuleMessage<F> {
    pub fn kind(&self) -> (r: ModuleKind)
        ensures
            r == message_kind(*self),
    {
        match self {
            ModuleMessage::Analog(_) => ModuleKind::AnalogOscillator,
            ModuleMessage::Lfo(_) => ModuleKind::Lfo,
            ModuleMessage::Envelope(_) => ModuleKind::Envelope,
            ModuleMessage::Butterworth(_) => ModuleKind::Butterworth,
            ModuleMessage::Allpass(_) => ModuleKind::Allpass,
            ModuleMessage::Comb(_) => ModuleKind::Comb,
            ModuleMessage::Chorus(_) => ModuleKind::Chorus,
            ModuleMessage::Delay(_) => ModuleKind::Delay,
            ModuleMessage::Reverb(_) => ModuleKind::Reverb,
            ModuleMessage::Midi(_) => ModuleKind::Midi,
        }
    }
}

/// What the control thread sends the audio loop.
#[derive(Clone, Copy, Debug)]
pub enum Input<F> {
    Close,
    UpdateSampleRate(usize),
    ModuleMessage(usize, ModuleMessage<F>),
}

} // verus!
