//! The ADSR envelope's stage machine. Time is counted in samples from the
//! entry into each stage; the level inside a stage is for the host to draw
//! from the point that each tick reports.
use vstd::prelude::*;

verus! {

#[derive(Clone, Copy, Debug, PartialEq, Eq, Structural)]
pub enum Stage {
    /// At rest: the level is exactly 0.
    Idle,
    /// Rising from the level at entry to full scale.
    Attack,
    /// Falling from full scale towards the sustain level.
    Decay,
    /// Holding exactly the sustain level.
    Sustain,
    /// Falling from the level at entry to 0.
    Release,
}

/// Where a tick finds the envelope: the stage, the samples spent in it, and
/// the stage's length in samples (0 for the stages without one).
#[derive(Clone, Copy, Debug, PartialEq, Eq, Structural)]
pub struct Point {
    pub stage: Stage,
    pub elapsed: u64,
    pub length: u64,
}

pub struct EnvelopeState {
    pub stage: Stage,
    pub elapsed: u64,
    pub attack: u64,
    pub decay: u64,
    pub release: u64,
}

/// The state with every finished stage left for the next one.
pub open spec fn settle(s: EnvelopeState) -> EnvelopeState {
    let a = if s.stage == Stage::Attack && s.elapsed >= s.attack {
        EnvelopeState { stage: Stage::Decay, elapsed: (s.elapsed - s.attack) as u64, ..s }
    } else {
        s
    };
    if a.stage == Stage::Decay && a.elapsed >= a.decay {
        EnvelopeState { stage: Stage::Sustain, elapsed: 0, ..a }
    } else if a.stage == Stage::Release && a.elapsed >= a.release {
        EnvelopeState { stage: Stage::Idle, elapsed: 0, ..a }
    } else {
        a
    }
}

pub open spec fn stage_length(s: EnvelopeState) -> u64 {
    match s.stage {
        Stage::Attack => s.attack,
        Stage::Decay => s.decay,
        Stage::Release => s.release,
        _ => 0,
    }
}

/// The point that a tick from state `s` reports.
pub open spec fn point_of(s: EnvelopeState) -> Point {
    let t = settle(s);
    Point { stage: t.stage, elapsed: t.elapsed, length: stage_length(t) }
}

/// The state after one tick from `s`.
pub open spec fn advance(s: EnvelopeState) -> EnvelopeState {
    let t = settle(s);
    match t.stage {
        Stage::Attack | Stage::Decay | Stage::Release => EnvelopeState {
            elapsed: (t.elapsed + 1) as u64,
            ..t
        },
        _ => t,
    }
}

pub open spec fn advance_n(s: EnvelopeState, n: nat) -> EnvelopeState
    decreases n,
{
    if n == 0 {
        s
    } else {
        advance(advance_n(s, (n - 1) as nat))
    }
}

/// The state after a gate input that reads `on`: a rise starts the attack from
/// rest or release, a fall starts the release from any held stage.
pub open spec fn gate_to(s: EnvelopeState, on: bool) -> EnvelopeState {
    if starts_stage(s, on) {
        EnvelopeState { stage: if on { Stage::Attack } else { Stage::Release }, elapsed: 0, ..s }
    } else {
        s
    }
}

/// A gate reading of `on` begins a stage: a rise from rest or release, or a
/// fall from a held stage.
pub open spec fn starts_stage(s: EnvelopeState, on: bool) -> bool {
    if on {
        s.stage == Stage::Idle || s.stage == Stage::Release
    } else {
        s.stage == Stage::Attack || s.stage == Stage::Decay || s.stage == Stage::Sustain
    }
}

/// The state after `n` ticks that follow a gate rise, while gate is held:
/// the attack counts up to its length, then the decay, then the sustain holds.
pub open spec fn after_rise(s: EnvelopeState, n: nat) -> EnvelopeState {
    if n <= s.attack {
        EnvelopeState { stage: Stage::Attack, elapsed: n as u64, ..s }
    } else if n <= s.attack + s.decay {
        EnvelopeState { stage: Stage::Decay, elapsed: (n - s.attack) as u64, ..s }
    } else {
        EnvelopeState { stage: Stage::Sustain, elapsed: 0, ..s }
    }
}

proof fn lemma_after_rise(s: EnvelopeState, n: nat)
    requires
        s.stage == Stage::Attack,
        s.elapsed == 0,
    ensures
        advance_n(s, n) == after_rise(s, n),
    decreases n,
{
    if n > 0 {
        lemma_after_rise(s, (n - 1) as nat);
    }
}

/// The state after `n` ticks that follow a gate fall, while gate stays off.
pub open spec fn after_fall(s: EnvelopeState, n: nat) -> EnvelopeState {
    if n <= s.release {
        EnvelopeState { stage: Stage::Release, elapsed: n as u64, ..s }
    } else {
        EnvelopeState { stage: Stage::Idle, elapsed: 0, ..s }
    }
}

proof fn lemma_after_fall(s: EnvelopeState, n: nat)
    requires
        s.stage == Stage::Release,
        s.elapsed == 0,
    ensures
        advance_n(s, n) == after_fall(s, n),
    decreases n,
{
    if n > 0 {
        lemma_after_fall(s, (n - 1) as nat);
    }
}

/// Once gate has risen and stayed up, every tick from the one that comes
/// `attack + decay` samples after the rise reports the sustain level exactly,
/// and the ticks before report the attack and then the decay.
pub proof fn law_sustain_reached(s: EnvelopeState, n: nat)
    requires
        starts_stage(s, true),
    ensures
        n >= gate_to(s, true).attack + gate_to(s, true).decay ==> point_of(
            advance_n(gate_to(s, true), n),
        ).stage == Stage::Sustain,
        n < gate_to(s, true).attack ==> point_of(advance_n(gate_to(s, true), n)) == (Point {
            stage: Stage::Attack,
            elapsed: n as u64,
            length: s.attack,
        }),
        gate_to(s, true).attack <= n < gate_to(s, true).attack + gate_to(s, true).decay ==> point_of(
            advance_n(gate_to(s, true), n),
        ) == (Point { stage: Stage::Decay, elapsed: (n - s.attack) as u64, length: s.decay }),
{
    lemma_after_rise(gate_to(s, true), n);
}

/// Once gate has fallen from a held stage and stayed down, every tick
/// from the one that comes `release` samples after the fall finds the
/// envelope at rest, at level exactly 0.
pub proof fn law_release_reaches_rest(s: EnvelopeState, n: nat)
    requires
        starts_stage(s, false),
    ensures
        n >= s.release ==> point_of(advance_n(gate_to(s, false), n)).stage == Stage::Idle,
        n < s.release ==> point_of(advance_n(gate_to(s, false), n)) == (Point {
            stage: Stage::Release,
            elapsed: n as u64,
            length: s.release,
        }),
{
    lemma_after_fall(gate_to(s, false), n);
}

pub struct Envelope {
    id: usize,
    stage: Stage,
    elapsed: u64,
    attack: u64,
    decay: u64,
    release: u64,
}

impl View for Envelope {
    type V = EnvelopeState;

    closed spec fn view(&self) -> EnvelopeState {
        EnvelopeState {
            stage: self.stage,
            elapsed: self.elapsed,
            attack: self.attack,
            decay: self.decay,
            release: self.release,
        }
    }
}

impl Envelope {
    pub closed spec fn spec_id(&self) -> usize {
        self.id
    }

    /// An envelope at rest with the given stage lengths in samples.
    pub fn new(id: usize, attack: u64, decay: u64, release: u64) -> (r: Envelope)
        ensures
            r@ == (EnvelopeState { stage: Stage::Idle, elapsed: 0, attack, decay, release }),
            r.spec_id() == id,
    {
        Envelope { id, stage: Stage::Idle, elapsed: 0, attack, decay, release }
    }

    pub fn id(&self) -> (r: usize)
        ensures
            r == self.spec_id(),
    {
        self.id
    }

    pub fn stage(&self) -> (r: Stage)
        ensures
            r == self@.stage,
    {
        self.stage
    }

    pub fn set_attack(&mut self, samples: u64)
        ensures
            final(self)@ == (EnvelopeState { attack: samples, ..old(self)@ }),
            final(self).spec_id() == old(self).spec_id(),
    {
        self.attack = samples;
    }

    pub fn set_decay(&mut self, samples: u64)
        ensures
            final(self)@ == (EnvelopeState { decay: samples, ..old(self)@ }),
            final(self).spec_id() == old(self).spec_id(),
    {
        self.decay = samples;
    }

    pub fn set_release(&mut self, samples: u64)
        ensures
            final(self)@ == (EnvelopeState { release: samples, ..old(self)@ }),
            final(self).spec_id() == old(self).spec_id(),
    {
        self.release = samples;
    }

    /// Takes a gate input; true when a stage began, whose starting level is
    /// then the envelope's current output.
    pub fn set_gate(&mut self, on: bool) -> (r: bool)
        ensures
            final(self)@ == gate_to(old(self)@, on),
            r == starts_stage(old(self)@, on),
            final(self).spec_id() == old(self).spec_id(),
    {
        if on {
            match self.stage {
                Stage::Idle | Stage::Release => {
                    self.stage = Stage::Attack;
                    self.elapsed = 0;
                    true
                },
                _ => false,
            }
        } else {
            match self.stage {
                Stage::Attack | Stage::Decay | Stage::Sustain => {
                    self.stage = Stage::Release;
                    self.elapsed = 0;
                    true
                },
                _ => false,
            }
        }
    }

    /// One tick: leaves finished stages, reports where this sample falls, and
    /// counts the sample.
    pub fn process(&mut self) -> (r: Point)
        ensures
            r == point_of(old(self)@),
            final(self)@ == advance(old(self)@),
            final(self).spec_id() == old(self).spec_id(),
    {
        if self.stage == Stage::Attack && self.elapsed >= self.attack {
            self.stage = Stage::Decay;
            self.elapsed = self.elapsed - self.attack;
        }
        if self.stage == Stage::Decay && self.elapsed >= self.decay {
            self.stage = Stage::Sustain;
            self.elapsed = 0;
        } else if self.stage == Stage::Release && self.elapsed >= self.release {
            self.stage = Stage::Idle;
            self.elapsed = 0;
        }
        let length = match self.stage {
            Stage::Attack => self.attack,
            Stage::Decay => self.decay,
            Stage::Release => self.release,
            _ => 0,
        };
        let r = Point { stage: self.stage, elapsed: self.elapsed, length };
        match self.stage {
            Stage::Attack | Stage::Decay | Stage::Release => {
                self.elapsed = self.elapsed + 1;
            },
            _ => {},
        }
        r
    }
}

} // verus!
