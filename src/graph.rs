//! The patch graph: which kind of module sits at each id, the cables between
//! their ports, and the sink whose outputs are the audible signal.
use vstd::prelude::*;
use crate::midi::POLY_VOICE_COUNT;
use crate::message::{ModuleMessage, message_kind};

verus! {

#[derive(Clone, Copy, Debug, PartialEq, Eq, Structural)]
pub enum ModuleKind {
    Midi,
    AnalogOscillator,
    Lfo,
    Envelope,
    Butterworth,
    Allpass,
    Comb,
    Chorus,
    Delay,
    Reverb,
}

/// How an input treats several writes within one tick.
#[derive(Clone, Copy, Debug, PartialEq, Eq, Structural)]
pub enum InputMode {
    /// A control signal: the last write of the tick is the value.
    Latest,
    /// Mixed audio: the writes add up, and processing clears the sum.
    Summing,
}

pub open spec fn spec_input_count(k: ModuleKind) -> nat {
    match k {
        ModuleKind::Midi => 0,
        ModuleKind::AnalogOscillator => 3,
        ModuleKind::Lfo => 3,
        ModuleKind::Envelope => 6,
        ModuleKind::Butterworth => 2,
        ModuleKind::Allpass => 1,
        ModuleKind::Comb => 2,
        ModuleKind::Chorus => 1,
        ModuleKind::Delay => 1,
        ModuleKind::Reverb => 1,
    }
}

pub open spec fn spec_output_count(k: ModuleKind) -> nat {
    match k {
        ModuleKind::Midi => (3 + 3 * POLY_VOICE_COUNT) as nat,
        ModuleKind::Lfo => 2,
        ModuleKind::Reverb => 2,
        _ => 1,
    }
}

/// Audio inputs sum; control inputs (level, pitch, phase, gate, velocity,
/// envelope times, a comb's tap offset) keep the last write.
pub open spec fn spec_input_mode(k: ModuleKind, i: nat) -> InputMode {
    match k {
        ModuleKind::Butterworth => InputMode::Summing,
        ModuleKind::Allpass | ModuleKind::Chorus | ModuleKind::Delay | ModuleKind::Reverb => {
            InputMode::Summing
        },
        ModuleKind::Comb => if i == 0 {
            InputMode::Summing
        } else {
            InputMode::Latest
        },
        _ => InputMode::Latest,
    }
}

impl ModuleKind {
    pub fn input_count(&self) -> (r: usize)
        ensures
            r == spec_input_count(*self),
    {
        match self {
            ModuleKind::Midi => 0,
            ModuleKind::AnalogOscillator => 3,
            ModuleKind::Lfo => 3,
            ModuleKind::Envelope => 6,
            ModuleKind::Butterworth => 2,
            ModuleKind::Allpass => 1,
            ModuleKind::Comb => 2,
            ModuleKind::Chorus => 1,
            ModuleKind::Delay => 1,
            ModuleKind::Reverb => 1,
        }
    }

    pub fn output_count(&self) -> (r: usize)
        ensures
            r == spec_output_count(*self),
    {
        match self {
            ModuleKind::Midi => 3 + 3 * POLY_VOICE_COUNT,
            ModuleKind::Lfo => 2,
            ModuleKind::Reverb => 2,
            _ => 1,
        }
    }

    pub fn input_mode(&self, i: usize) -> (r: InputMode)
        requires
            i < spec_input_count(*self),
        ensures
            r == spec_input_mode(*self, i as nat),
    {
        match self {
            ModuleKind::Butterworth => InputMode::Summing,
            ModuleKind::Allpass | ModuleKind::Chorus | ModuleKind::Delay | ModuleKind::Reverb => {
                InputMode::Summing
            },
            ModuleKind::Comb => if i == 0 {
                InputMode::Summing
            } else {
                InputMode::Latest
            },
            _ => InputMode::Latest,
        }
    }
}

/// A directed connection from an output port to an input port.
#[derive(Clone, Copy, Debug, PartialEq, Eq, Structural)]
pub struct Cable {
    pub source_module: usize,
    pub source_output: usize,
    pub target_module: usize,
    pub target_input: usize,
}

impl Cable {
    pub fn new(source_module: usize, source_output: usize, target_module: usize, target_input: usize) -> (r: Cable)
        ensures
            r == (Cable { source_module, source_output, target_module, target_input }),
    {
        Cable { source_module, source_output, target_input, target_module }
    }
}

/// The cable joins ports that exist among `kinds`.
pub open spec fn cable_fits(kinds: Seq<ModuleKind>, c: Cable) -> bool {
    &&& c.source_module < kinds.len()
    &&& c.target_module < kinds.len()
    &&& c.source_output < spec_output_count(kinds[c.source_module as int])
    &&& c.target_input < spec_input_count(kinds[c.target_module as int])
}

pub open spec fn patch_fits(kinds: Seq<ModuleKind>, cables: Seq<Cable>, sink: usize) -> bool {
    &&& forall|k: int| 0 <= k < cables.len() ==> cable_fits(kinds, #[trigger] cables[k])
    &&& sink < kinds.len()
    &&& spec_output_count(kinds[sink as int]) >= 2
}

/// Why a patch was refused.
#[derive(Clone, Copy, Debug, PartialEq, Eq, Structural)]
pub enum PatchError {
    /// The cable at this position names a module or a port that is not there.
    BadCable(usize),
    /// The sink is not a module with a stereo output.
    BadSink,
}

/// Why a module message was not delivered.
#[derive(Clone, Copy, Debug, PartialEq, Eq, Structural)]
pub enum UpdateError {
    NoSuchModule,
    /// The message is for another kind of module than the one at that id.
    WrongKind,
}

/// The first cable that does not fit is at position `k`.
pub open spec fn first_misfit(kinds: Seq<ModuleKind>, cables: Seq<Cable>, k: int) -> bool {
    &&& 0 <= k < cables.len()
    &&& !cable_fits(kinds, cables[k])
    &&& forall|j: int| 0 <= j < k ==> cable_fits(kinds, #[trigger] cables[j])
}

/// Layout of the stock patch: a MIDI module, then per voice an oscillator,
/// an envelope and a low-pass filter, then chorus, delay and reverb in series.
pub const OSC_BASE: usize = 1;
pub const ENV_BASE: usize = 17;
pub const FILTER_BASE: usize = 33;
pub const CHORUS_ID: usize = 49;
pub const DELAY_ID: usize = 50;
pub const REVERB_ID: usize = 51;
pub const MODULE_COUNT: usize = 52;
pub const CABLES_PER_VOICE: usize = 8;
pub const CABLE_COUNT: usize = 130;

pub open spec fn stock_kind(i: int) -> ModuleKind {
    if i == 0 {
        ModuleKind::Midi
    } else if i < ENV_BASE {
        ModuleKind::AnalogOscillator
    } else if i < FILTER_BASE {
        ModuleKind::Envelope
    } else if i < CHORUS_ID {
        ModuleKind::Butterworth
    } else if i == CHORUS_ID {
        ModuleKind::Chorus
    } else if i == DELAY_ID {
        ModuleKind::Delay
    } else {
        ModuleKind::Reverb
    }
}

pub open spec fn cable(s: int, o: int, t: int, i: int) -> Cable {
    Cable {
        source_module: s as usize,
        source_output: o as usize,
        target_module: t as usize,
        target_input: i as usize,
    }
}

/// Cable `j` of voice `v`: the voice's gate and velocity drive its envelope,
/// which sets the oscillator's level and opens the filter; the voice's note
/// tunes oscillator and filter; the filtered oscillator goes to the chorus.
pub open spec fn voice_cable(v: int, j: int) -> Cable {
    let gate = 3 + 3 * v;
    let env = ENV_BASE + v;
    let osc = OSC_BASE + v;
    let filter = FILTER_BASE + v;
    if j == 0 {
        cable(0, gate, env, 0)
    } else if j == 1 {
        cable(0, gate + 2, env, 1)
    } else if j == 2 {
        cable(env, 0, osc, 0)
    } else if j == 3 {
        cable(0, gate + 1, osc, 1)
    } else if j == 4 {
        cable(osc, 0, filter, 0)
    } else if j == 5 {
        cable(0, gate + 1, filter, 1)
    } else if j == 6 {
        cable(env, 0, filter, 1)
    } else {
        cable(filter, 0, CHORUS_ID as int, 0)
    }
}

pub open spec fn stock_cable(k: int) -> Cable {
    if k < CABLES_PER_VOICE * POLY_VOICE_COUNT {
        voice_cable(k / CABLES_PER_VOICE as int, k % CABLES_PER_VOICE as int)
    } else if k == CABLES_PER_VOICE * POLY_VOICE_COUNT {
        cable(CHORUS_ID as int, 0, DELAY_ID as int, 0)
    } else {
        cable(DELAY_ID as int, 0, REVERB_ID as int, 0)
    }
}

proof fn lemma_voice_position(v: int, j: int)
    requires
        0 <= v,
        0 <= j < CABLES_PER_VOICE,
    ensures
        (CABLES_PER_VOICE * v + j) / CABLES_PER_VOICE as int == v,
        (CABLES_PER_VOICE * v + j) % CABLES_PER_VOICE as int == j,
{
    assert((8 * v + j) / 8 == v && (8 * v + j) % 8 == j) by (nonlinear_arith)
        requires
            0 <= v,
            0 <= j < 8,
    ;
}

pub struct ModTable {
    kinds: Vec<ModuleKind>,
    cables: Vec<Cable>,
    sink: usize,
}

impl ModTable {
    pub closed spec fn spec_kinds(&self) -> Seq<ModuleKind> {
        self.kinds@
    }

    pub closed spec fn spec_cables(&self) -> Seq<Cable> {
        self.cables@
    }

    pub closed spec fn spec_sink(&self) -> usize {
        self.sink
    }

    pub open spec fn wf(&self) -> bool {
        patch_fits(self.spec_kinds(), self.spec_cables(), self.spec_sink())
    }

    fn cable_fits_exec(kinds: &Vec<ModuleKind>, c: Cable) -> (r: bool)
        ensures
            r == cable_fits(kinds@, c),
    {
        c.source_module < kinds.len() && c.target_module < kinds.len() && c.source_output
            < kinds[c.source_module].output_count() && c.target_input
            < kinds[c.target_module].input_count()
    }

    /// The stock patch: sixteen voices, each an oscillator shaped by an
    /// envelope and a low-pass filter, mixed into chorus, delay and reverb;
    /// the reverb is the sink.
    pub fn new() -> (r: ModTable)
        ensures
            r.wf(),
            r.spec_kinds() == Seq::new(MODULE_COUNT as nat, |i: int| stock_kind(i)),
            r.spec_cables() == Seq::new(CABLE_COUNT as nat, |k: int| stock_cable(k)),
            r.spec_sink() == REVERB_ID,
    {
        let mut kinds: Vec<ModuleKind> = Vec::new();
        let mut i: usize = 0;
        while i < MODULE_COUNT
            invariant
                i <= MODULE_COUNT,
                kinds@ == Seq::new(i as nat, |k: int| stock_kind(k)),
            decreases MODULE_COUNT - i,
        {
            let kind = if i == 0 {
                ModuleKind::Midi
            } else if i < ENV_BASE {
                ModuleKind::AnalogOscillator
            } else if i < FILTER_BASE {
                ModuleKind::Envelope
            } else if i < CHORUS_ID {
                ModuleKind::Butterworth
            } else if i == CHORUS_ID {
                ModuleKind::Chorus
            } else if i == DELAY_ID {
                ModuleKind::Delay
            } else {
                ModuleKind::Reverb
            };
            kinds.push(kind);
            i = i + 1;
            assert(kinds@ =~= Seq::new(i as nat, |k: int| stock_kind(k)));
        }
        let mut cables: Vec<Cable> = Vec::new();
        let mut v: usize = 0;
        while v < POLY_VOICE_COUNT
            invariant
                v <= POLY_VOICE_COUNT,
                cables@ == Seq::new((CABLES_PER_VOICE * v) as nat, |k: int| stock_cable(k)),
            decreases POLY_VOICE_COUNT - v,
        {
            let gate = 3 + 3 * v;
            let env = ENV_BASE + v;
            let osc = OSC_BASE + v;
            let filter = FILTER_BASE + v;
            cables.push(Cable::new(0, gate, env, 0));
            cables.push(Cable::new(0, gate + 2, env, 1));
            cables.push(Cable::new(env, 0, osc, 0));
            cables.push(Cable::new(0, gate + 1, osc, 1));
            cables.push(Cable::new(osc, 0, filter, 0));
            cables.push(Cable::new(0, gate + 1, filter, 1));
            cables.push(Cable::new(env, 0, filter, 1));
            cables.push(Cable::new(filter, 0, CHORUS_ID, 0));
            proof {
                assert forall|j: int| 0 <= j < CABLES_PER_VOICE implies cables@[CABLES_PER_VOICE * v
                    + j] == #[trigger] stock_cable(CABLES_PER_VOICE * v + j) by {
                    lemma_voice_position(v as int, j);
                }
            }
            v = v + 1;
            assert(cables@ =~= Seq::new((CABLES_PER_VOICE * v) as nat, |k: int| stock_cable(k)));
        }
        cables.push(Cable::new(CHORUS_ID, 0, DELAY_ID, 0));
        cables.push(Cable::new(DELAY_ID, 0, REVERB_ID, 0));
        assert(cables@ =~= Seq::new(CABLE_COUNT as nat, |k: int| stock_cable(k)));
        let r = ModTable { kinds, cables, sink: REVERB_ID };
        proof {
            assert forall|k: int| 0 <= k < CABLE_COUNT implies cable_fits(
                r.spec_kinds(),
                stock_cable(k),
            ) by {
                if k < CABLES_PER_VOICE * POLY_VOICE_COUNT {
                    let v = k / CABLES_PER_VOICE as int;
                    let j = k % CABLES_PER_VOICE as int;
                    assert(0 <= v < POLY_VOICE_COUNT && 0 <= j < CABLES_PER_VOICE);
                }
            }
        }
        r
    }

    pub fn module_count(&self) -> (r: usize)
        ensures
            r == self.spec_kinds().len(),
    {
        self.kinds.len()
    }

    pub fn kind(&self, id: usize) -> (r: ModuleKind)
        requires
            id < self.spec_kinds().len(),
        ensures
            r == self.spec_kinds()[id as int],
    {
        self.kinds[id]
    }

    pub fn cable_count(&self) -> (r: usize)
        ensures
            r == self.spec_cables().len(),
    {
        self.cables.len()
    }

    /// The cable at position `k` of the definition order.
    pub fn cable(&self, k: usize) -> (r: Cable)
        requires
            k < self.spec_cables().len(),
        ensures
            r == self.spec_cables()[k as int],
    {
        self.cables[k]
    }

    pub fn sink(&self) -> (r: usize)
        ensures
            r == self.spec_sink(),
    {
        self.sink
    }

    /// Routes a message for module `id`: it is accepted where that module
    /// exists and is of the kind the message is for, and the host then hands
    /// it to that module between two ticks.
    pub fn update<F>(&self, id: usize, msg: &ModuleMessage<F>) -> (r: Result<(), UpdateError>)
        ensures
            r == Err::<(), UpdateError>(UpdateError::NoSuchModule) <==> id >= self.spec_kinds().len(),
            r == Err::<(), UpdateError>(UpdateError::WrongKind) <==> (id < self.spec_kinds().len()
                && self.spec_kinds()[id as int] != message_kind(*msg)),
            r is Ok <==> (id < self.spec_kinds().len() && self.spec_kinds()[id as int] == message_kind(
                *msg,
            )),
    {
        if id >= self.kinds.len() {
            Err(UpdateError::NoSuchModule)
        } else if self.kinds[id] != msg.kind() {
            Err(UpdateError::WrongKind)
        } else {
            Ok(())
        }
    }

    /// A patch of the given modules, where the id of a module is its position,
    /// and cables; refused where a cable names a port that is not there or the
    /// sink has no stereo output.
    pub fn from_parts(kinds: Vec<ModuleKind>, cables: Vec<Cable>, sink: usize) -> (r: Result<
        ModTable,
        PatchError,
    >)
        ensures
            match r {
                Ok(t) => {
                    &&& patch_fits(kinds@, cables@, sink)
                    &&& t.spec_kinds() == kinds@
                    &&& t.spec_cables() == cables@
                    &&& t.spec_sink() == sink
                },
                Err(PatchError::BadCable(k)) => first_misfit(kinds@, cables@, k as int),
                Err(PatchError::BadSink) => {
                    &&& forall|j: int| 0 <= j < cables@.len() ==> cable_fits(kinds@, #[trigger] cables@[j])
                    &&& !(sink < kinds@.len() && spec_output_count(kinds@[sink as int]) >= 2)
                },
            },
    {
        let mut k: usize = 0;
        while k < cables.len()
            invariant
                k <= cables@.len(),
                forall|j: int| 0 <= j < k ==> cable_fits(kinds@, #[trigger] cables@[j]),
            decreases cables@.len() - k,
        {
            if !Self::cable_fits_exec(&kinds, cables[k]) {
                return Err(PatchError::BadCable(k));
            }
            k = k + 1;
        }
        if sink >= kinds.len() || kinds[sink].output_count() < 2 {
            return Err(PatchError::BadSink);
        }
        Ok(ModTable { kinds, cables, sink })
    }
}

} // verus!
