//! The MIDI module: a monophonic key follower and a polyphonic voice
//! allocator with a sustain pedal. Notes and velocities are kept as the MIDI
//! bytes they arrived as; an output reads as a fraction of full scale in
//! 127ths.
use std::collections::VecDeque;
use vstd::prelude::*;
use crate::voice_queue::{strip, lemma_strip_nothing, lemma_strip_contents, lemma_strip_remove};

verus! {

pub const POLY_VOICE_COUNT: usize = 16;

/// Full scale of an output: a held gate reads this much.
pub const FULL_SCALE: u8 = 127;

#[derive(Clone, Copy, Debug)]
pub enum MidiUpdate {
    KeyPress(u8, u8),
    KeyRelease(u8),
    PedalPress,
    PedalRelease,
}

/// Status byte of a note-on message on the first channel.
pub const NOTE_ON: u8 = 0x90;

/// The key event that a raw MIDI message carries: a note-on with a nonzero
/// velocity presses its key, one with velocity 0 releases it. Other messages,
/// and messages too short to hold a key and a velocity, carry none.
pub open spec fn spec_decode(message: Seq<u8>) -> Option<MidiUpdate> {
    if message.len() >= 3 && message[0] == NOTE_ON {
        if message[2] != 0 {
            Some(MidiUpdate::KeyPress(message[1], message[2]))
        } else {
            Some(MidiUpdate::KeyRelease(message[1]))
        }
    } else {
        None
    }
}

pub fn decode(message: &[u8]) -> (r: Option<MidiUpdate>)
    ensures
        r == spec_decode(message@),
{
    if message.len() >= 3 && message[0] == NOTE_ON {
        if message[2] != 0 {
            Some(MidiUpdate::KeyPress(message[1], message[2]))
        } else {
            Some(MidiUpdate::KeyRelease(message[1]))
        }
    } else {
        None
    }
}

/// One slot of the polyphonic voice table.
#[derive(Clone, Copy, Debug, PartialEq, Eq, Structural)]
pub struct Voice {
    /// The key that sounds this voice is still held down.
    pub pressed: bool,
    pub gate: bool,
    pub note: u8,
    pub velocity: u8,
    /// A press was seen; the next tick arms its gate.
    pub trigger: bool,
    /// Its gate opens on the next tick.
    pub ready: bool,
    /// The voice is allocated to a key (held, or sustained by the pedal).
    pub on: bool,
}

pub open spec fn fresh_voice(note: u8, velocity: u8) -> Voice {
    Voice { pressed: true, gate: false, note, velocity, trigger: true, ready: false, on: true }
}

pub open spec fn idle_voice() -> Voice {
    Voice { pressed: false, gate: false, note: 0, velocity: 0, trigger: false, ready: false, on: false }
}

/// A voice whose key or pedal let go: silent and free for the next press.
pub open spec fn silenced(v: Voice) -> Voice {
    Voice { ready: false, trigger: false, gate: false, on: false, pressed: false, ..v }
}

impl Voice {
    pub fn new(gate: bool, note: u8, velocity: u8) -> (r: Voice)
        ensures
            r == (Voice { gate, ..fresh_voice(note, velocity) }),
    {
        Voice { pressed: true, gate, note, velocity, trigger: true, ready: false, on: true }
    }
}

/// The whole state of the MIDI module as a mathematical value.
pub struct MidiState {
    pub gate: bool,
    pub trigger: bool,
    pub ready: bool,
    pub note: u8,
    pub velocity: u8,
    pub sustain: bool,
    pub pressed: bool,
    pub voices: Seq<Voice>,
    /// Indices of the allocated voices, oldest first.
    pub queue: Seq<usize>,
}

/// The voice table has its fixed size, and the replacement queue lists each
/// allocated voice exactly once.
pub open spec fn state_wf(s: MidiState) -> bool {
    &&& s.voices.len() == POLY_VOICE_COUNT
    &&& s.queue.no_duplicates()
    &&& forall|k: int| 0 <= k < s.queue.len() ==> s.queue[k] < POLY_VOICE_COUNT
    &&& forall|i: usize| i < POLY_VOICE_COUNT ==> (s.voices[i as int].on <==> s.queue.contains(i))
}

pub open spec fn initial_state() -> MidiState {
    MidiState {
        gate: false,
        trigger: false,
        ready: false,
        note: 0,
        velocity: 0,
        sustain: false,
        pressed: false,
        voices: Seq::new(POLY_VOICE_COUNT as nat, |i: int| idle_voice()),
        queue: Seq::empty(),
    }
}

/// `i` is the first voice of the table that no key holds.
pub open spec fn is_first_free(voices: Seq<Voice>, i: int) -> bool {
    &&& 0 <= i < voices.len()
    &&& !voices[i].on
    &&& forall|j: int| 0 <= j < i ==> voices[j].on
}

pub open spec fn has_free(voices: Seq<Voice>) -> bool {
    exists|i: int| 0 <= i < voices.len() && !voices[i].on
}

/// The slot a new key takes: the first free voice, else the oldest one.
pub open spec fn allocated_slot(s: MidiState) -> int {
    if has_free(s.voices) {
        choose|i: int| is_first_free(s.voices, i)
    } else {
        s.queue[0] as int
    }
}

pub open spec fn key_press(s: MidiState, note: u8, velocity: u8) -> MidiState {
    let slot = allocated_slot(s);
    let kept = if has_free(s.voices) {
        s.queue
    } else {
        s.queue.drop_first()
    };
    MidiState {
        pressed: true,
        gate: false,
        trigger: true,
        note,
        velocity,
        voices: s.voices.update(slot, fresh_voice(note, velocity)),
        queue: kept.push(slot as usize),
        ..s
    }
}

/// A voice of `note` lets go when the pedal does not hold it.
pub open spec fn drops_on_release(v: Voice, note: u8, sustain: bool) -> bool {
    v.note == note && v.on && !sustain
}

pub open spec fn voice_after_release(v: Voice, note: u8, sustain: bool) -> Voice {
    if v.note != note {
        v
    } else if drops_on_release(v, note, sustain) {
        silenced(v)
    } else {
        Voice { pressed: false, ..v }
    }
}

pub open spec fn released_set(s: MidiState, note: u8) -> Set<usize> {
    Set::new(
        |i: usize| i < POLY_VOICE_COUNT && drops_on_release(s.voices[i as int], note, s.sustain),
    )
}

pub open spec fn key_release(s: MidiState, note: u8) -> MidiState {
    let mono_drop = s.note == note && !s.sustain;
    MidiState {
        gate: if mono_drop { false } else { s.gate },
        ready: if mono_drop { false } else { s.ready },
        trigger: if mono_drop { false } else { s.trigger },
        pressed: if s.note == note { false } else { s.pressed },
        voices: Seq::new(
            s.voices.len(),
            |i: int| voice_after_release(s.voices[i], note, s.sustain),
        ),
        queue: strip(s.queue, released_set(s, note)),
        ..s
    }
}

/// A voice that only the pedal held lets go with the pedal.
pub open spec fn drops_on_pedal(v: Voice) -> bool {
    v.on && !v.pressed
}

pub open spec fn pedal_set(s: MidiState) -> Set<usize> {
    Set::new(|i: usize| i < POLY_VOICE_COUNT && drops_on_pedal(s.voices[i as int]))
}

pub open spec fn pedal_release(s: MidiState) -> MidiState {
    MidiState {
        sustain: false,
        gate: if !s.pressed { false } else { s.gate },
        ready: if !s.pressed { false } else { s.ready },
        trigger: if !s.pressed { false } else { s.trigger },
        voices: Seq::new(
            s.voices.len(),
            |i: int|
                if drops_on_pedal(s.voices[i]) {
                    silenced(s.voices[i])
                } else {
                    s.voices[i]
                },
        ),
        queue: strip(s.queue, pedal_set(s)),
        ..s
    }
}

pub open spec fn apply_update(s: MidiState, msg: MidiUpdate) -> MidiState {
    match msg {
        MidiUpdate::KeyPress(note, velocity) => key_press(s, note, velocity),
        MidiUpdate::KeyRelease(note) => key_release(s, note),
        MidiUpdate::PedalPress => MidiState { sustain: true, ..s },
        MidiUpdate::PedalRelease => pedal_release(s),
    }
}

/// One tick of a gate's two-step opening: a trigger arms, an armed gate opens.
pub open spec fn voice_tick(v: Voice) -> Voice {
    if v.trigger {
        Voice { ready: true, trigger: false, ..v }
    } else if v.ready {
        Voice { gate: true, ready: false, ..v }
    } else {
        v
    }
}

pub open spec fn tick(s: MidiState) -> MidiState {
    MidiState {
        ready: if s.trigger { true } else if s.ready { false } else { s.ready },
        trigger: false,
        gate: if !s.trigger && s.ready { true } else { s.gate },
        voices: Seq::new(s.voices.len(), |i: int| voice_tick(s.voices[i])),
        ..s
    }
}

/// The value of output `i`, in 127ths of full scale: 0 to 2 follow the last
/// key, then gate, note and velocity of each voice in turn.
pub open spec fn output_value(s: MidiState, i: int) -> u8 {
    let v = s.voices[(i - 3) / 3];
    if i == 0 {
        if s.gate { FULL_SCALE } else { 0 }
    } else if i == 1 {
        s.note
    } else if i == 2 {
        s.velocity
    } else if i % 3 == 0 {
        if v.gate { FULL_SCALE } else { 0 }
    } else if i % 3 == 1 {
        v.note
    } else {
        v.velocity
    }
}

pub open spec fn output_count() -> int {
    3 + 3 * POLY_VOICE_COUNT
}

pub open spec fn released_below(s: MidiState, note: u8, n: int) -> Set<usize> {
    Set::new(
        |i: usize| i < n && drops_on_release(s.voices[i as int], note, s.sustain),
    )
}

pub open spec fn pedal_below(s: MidiState, n: int) -> Set<usize> {
    Set::new(|i: usize| i < n && drops_on_pedal(s.voices[i as int]))
}

/// The number of allocated voices in a table.
pub open spec fn on_count(voices: Seq<Voice>) -> nat
    decreases voices.len(),
{
    if voices.len() == 0 {
        0
    } else {
        on_count(voices.drop_last()) + if voices.last().on { 1nat } else { 0nat }
    }
}

/// The state after pressing each key of `keys` in turn, as (note, velocity).
pub open spec fn press_all(s: MidiState, keys: Seq<(u8, u8)>) -> MidiState
    decreases keys.len(),
{
    if keys.len() == 0 {
        s
    } else {
        let k = keys.last();
        key_press(press_all(s, keys.drop_last()), k.0, k.1)
    }
}

proof fn lemma_on_count_update(v: Seq<Voice>, i: int, x: Voice)
    requires
        0 <= i < v.len(),
    ensures
        on_count(v.update(i, x)) + (if v[i].on { 1int } else { 0int }) == on_count(v) + (if x.on {
            1int
        } else {
            0int
        }),
    decreases v.len(),
{
    let w = v.update(i, x);
    if i == v.len() - 1 {
        assert(w.drop_last() =~= v.drop_last());
    } else {
        assert(w.drop_last() =~= v.drop_last().update(i, x));
        lemma_on_count_update(v.drop_last(), i, x);
    }
}

proof fn lemma_on_count_full(v: Seq<Voice>)
    requires
        !has_free(v),
    ensures
        on_count(v) == v.len(),
    decreases v.len(),
{
    if v.len() > 0 {
        assert(!has_free(v.drop_last())) by {
            if has_free(v.drop_last()) {
                let i = choose|i: int| 0 <= i < v.drop_last().len() && !v.drop_last()[i].on;
                assert(!v[i].on);
            }
        }
        lemma_on_count_full(v.drop_last());
        assert(v[v.len() - 1].on);
    }
}

proof fn lemma_on_count_initial(n: nat)
    ensures
        on_count(Seq::new(n, |i: int| idle_voice())) == 0,
    decreases n,
{
    if n > 0 {
        assert(Seq::new(n, |i: int| idle_voice()).drop_last() =~= Seq::new(
            (n - 1) as nat,
            |i: int| idle_voice(),
        ));
        lemma_on_count_initial((n - 1) as nat);
    }
}

/// Starting from a fresh module, each of up to `POLY_VOICE_COUNT` key presses
/// with no release in between takes a voice of its own: after `n` presses
/// exactly `n` voices are on.
pub proof fn law_presses_fill_voices(keys: Seq<(u8, u8)>)
    requires
        keys.len() <= POLY_VOICE_COUNT,
    ensures
        on_count(press_all(initial_state(), keys).voices) == keys.len(),
        press_all(initial_state(), keys).voices.len() == POLY_VOICE_COUNT,
    decreases keys.len(),
{
    if keys.len() == 0 {
        lemma_on_count_initial(POLY_VOICE_COUNT as nat);
    } else {
        let prev = press_all(initial_state(), keys.drop_last());
        law_presses_fill_voices(keys.drop_last());
        assert(has_free(prev.voices)) by {
            if !has_free(prev.voices) {
                lemma_on_count_full(prev.voices);
            }
        }
        let slot = allocated_slot(prev);
        let c = choose|i: int| is_first_free(prev.voices, i);
        assert(is_first_free(prev.voices, c)) by {
            let j = choose|j: int| 0 <= j < prev.voices.len() && !prev.voices[j].on;
            first_free_exists(prev.voices, j);
        }
        let k = keys.last();
        lemma_on_count_update(prev.voices, slot, fresh_voice(k.0, k.1));
    }
}

proof fn first_free_exists(v: Seq<Voice>, j: int)
    requires
        0 <= j < v.len(),
        !v[j].on,
    ensures
        exists|i: int| is_first_free(v, i),
    decreases j,
{
    if exists|k: int| 0 <= k < j && !v[k].on {
        let k = choose|k: int| 0 <= k < j && !v[k].on;
        first_free_exists(v, k);
    } else {
        assert(is_first_free(v, j));
    }
}

/// With every voice taken, a new key press takes the voice that has been on
/// longest, and that voice moves to the back of the replacement order.
pub proof fn law_full_table_evicts_oldest(s: MidiState, note: u8, velocity: u8)
    requires
        state_wf(s),
        forall|i: int| 0 <= i < s.voices.len() ==> s.voices[i].on,
    ensures
        s.queue.len() > 0,
        ({
            let oldest = s.queue[0] as int;
            let t = key_press(s, note, velocity);
            &&& t.voices[oldest] == fresh_voice(note, velocity)
            &&& forall|i: int| 0 <= i < s.voices.len() && i != oldest ==> t.voices[i] == s.voices[i]
            &&& t.queue == s.queue.drop_first().push(s.queue[0])
        }),
{
    assert(s.queue.contains(0usize));
    assert(!has_free(s.voices));
}

/// Once a full table has evicted the voice of `evicted` for another key, a
/// release of `evicted` leaves the voice table and the replacement order as
/// they are. The notes of the table are distinct, as after presses of
/// distinct keys.
pub proof fn law_release_of_evicted_note(s: MidiState, note: u8, velocity: u8)
    requires
        state_wf(s),
        forall|i: int| 0 <= i < s.voices.len() ==> s.voices[i].on,
        forall|i: int, j: int|
            0 <= i < s.voices.len() && 0 <= j < s.voices.len() && i != j ==> s.voices[i].note
                != s.voices[j].note,
        s.queue.len() > 0 ==> note != s.voices[s.queue[0] as int].note,
    ensures
        s.queue.len() > 0,
        ({
            let evicted = s.voices[s.queue[0] as int].note;
            let t = key_press(s, note, velocity);
            &&& key_release(t, evicted).voices == t.voices
            &&& key_release(t, evicted).queue == t.queue
        }),
{
    law_full_table_evicts_oldest(s, note, velocity);
    let oldest = s.queue[0] as int;
    let evicted = s.voices[oldest].note;
    let t = key_press(s, note, velocity);
    assert forall|i: int| 0 <= i < t.voices.len() implies t.voices[i].note != evicted by {
        if i != oldest {
            assert(s.voices[i].note != s.voices[oldest].note);
        }
    }
    assert(key_release(t, evicted).voices =~= t.voices);
    assert(released_set(t, evicted) =~= Set::empty());
    lemma_strip_nothing(t.queue);
}

/// With the pedal down a key release keeps every gate as it was; releasing
/// the pedal afterwards silences the voices of that key, and the mono gate
/// when it followed that key.
pub proof fn law_sustain_pedal(s: MidiState, note: u8)
    requires
        state_wf(s),
        s.sustain,
    ensures
        ({
            let held = key_release(s, note);
            let after = pedal_release(held);
            &&& held.gate == s.gate
            &&& forall|i: int|
                0 <= i < s.voices.len() ==> held.voices[i].gate == s.voices[i].gate
                    && held.voices[i].on == s.voices[i].on
            &&& forall|i: int|
                0 <= i < s.voices.len() && s.voices[i].on && s.voices[i].note == note
                    ==> !after.voices[i].gate && !after.voices[i].on
            &&& s.note == note ==> !after.gate
        }),
{
}

pub struct Midi {
    id: usize,
    gate: bool,
    trigger: bool,
    ready: bool,
    note: u8,
    velocity: u8,
    sustain: bool,
    pressed: bool,
    voices: Vec<Voice>,
    replace_queue: VecDeque<usize>,
}

impl View for Midi {
    type V = MidiState;

    closed spec fn view(&self) -> MidiState {
        MidiState {
            gate: self.gate,
            trigger: self.trigger,
            ready: self.ready,
            note: self.note,
            velocity: self.velocity,
            sustain: self.sustain,
            pressed: self.pressed,
            voices: self.voices@,
            queue: self.replace_queue@,
        }
    }
}

impl Midi {
    pub closed spec fn spec_id(&self) -> usize {
        self.id
    }

    pub open spec fn wf(&self) -> bool {
        state_wf(self@)
    }

    pub fn new(id: usize) -> (r: Midi)
        ensures
            r@ == initial_state(),
            r.spec_id() == id,
            r.wf(),
    {
        let mut voices: Vec<Voice> = Vec::new();
        let mut i: usize = 0;
        while i < POLY_VOICE_COUNT
            invariant
                i <= POLY_VOICE_COUNT,
                voices@ == Seq::new(i as nat, |k: int| idle_voice()),
            decreases POLY_VOICE_COUNT - i,
        {
            voices.push(
                Voice {
                    pressed: false,
                    gate: false,
                    note: 0,
                    velocity: 0,
                    trigger: false,
                    ready: false,
                    on: false,
                },
            );
            i = i + 1;
            assert(voices@ =~= Seq::new(i as nat, |k: int| idle_voice()));
        }
        let r = Midi {
            id,
            gate: false,
            trigger: false,
            ready: false,
            note: 0,
            velocity: 0,
            sustain: false,
            pressed: false,
            voices,
            replace_queue: VecDeque::with_capacity(POLY_VOICE_COUNT),
        };
        assert(r@ =~= initial_state());
        r
    }

    pub fn id(&self) -> (r: usize)
        ensures
            r == self.spec_id(),
    {
        self.id
    }

    /// The voice in slot `i` of the table.
    pub fn voice(&self, i: usize) -> (r: Voice)
        requires
            self.wf(),
            i < POLY_VOICE_COUNT,
        ensures
            r == self@.voices[i as int],
    {
        self.voices[i]
    }

    /// The voice indices in replacement order, oldest first.
    pub fn replacement_order(&self) -> (r: Vec<usize>)
        ensures
            r@ == self@.queue,
    {
        let mut r: Vec<usize> = Vec::new();
        let mut k: usize = 0;
        while k < self.replace_queue.len()
            invariant
                k <= self.replace_queue@.len(),
                r@ == self.replace_queue@.take(k as int),
            decreases self.replace_queue@.len() - k,
        {
            r.push(self.replace_queue[k]);
            k = k + 1;
            assert(r@ =~= self.replace_queue@.take(k as int));
        }
        assert(r@ =~= self.replace_queue@);
        r
    }

    pub fn process(&mut self)
        requires
            old(self).wf(),
        ensures
            final(self)@ == tick(old(self)@),
            final(self).wf(),
            final(self).spec_id() == old(self).spec_id(),
    {
        let ghost before = self.voices@;
        let mut i: usize = 0;
        while i < POLY_VOICE_COUNT
            invariant
                i <= POLY_VOICE_COUNT,
                self.voices@.len() == POLY_VOICE_COUNT,
                before.len() == POLY_VOICE_COUNT,
                forall|k: int| 0 <= k < i ==> self.voices@[k] == voice_tick(before[k]),
                forall|k: int| i <= k < POLY_VOICE_COUNT ==> self.voices@[k] == before[k],
                self.replace_queue@ == old(self).replace_queue@,
                self.id == old(self).id,
                self.sustain == old(self).sustain,
                self.pressed == old(self).pressed,
                self.note == old(self).note,
                self.velocity == old(self).velocity,
                self.gate == old(self).gate,
                self.trigger == old(self).trigger,
                self.ready == old(self).ready,
            decreases POLY_VOICE_COUNT - i,
        {
            let mut v = self.voices[i];
            if v.trigger {
                v.ready = true;
                v.trigger = false;
            } else if v.ready {
                v.gate = true;
                v.ready = false;
            }
            self.voices.set(i, v);
            i = i + 1;
        }
        if self.trigger {
            self.ready = true;
            self.trigger = false;
        } else if self.ready {
            self.gate = true;
            self.ready = false;
        }
        assert(self.voices@ =~= Seq::new(before.len(), |k: int| voice_tick(before[k])));
        assert(self@.voices == tick(old(self)@).voices);
    }

    /// Strikes voice `i` out of the replacement queue, which is `q0` with the
    /// voices of `r` already struck out.
    fn strike_from_queue(&mut self, i: usize, Ghost(q0): Ghost<Seq<usize>>, Ghost(r): Ghost<Set<usize>>)
        requires
            old(self).replace_queue@ == strip(q0, r),
            q0.no_duplicates(),
            q0.contains(i),
            !r.contains(i),
        ensures
            final(self).replace_queue@ == strip(q0, r.insert(i)),
            final(self).voices == old(self).voices,
            final(self).id == old(self).id,
            final(self).gate == old(self).gate,
            final(self).trigger == old(self).trigger,
            final(self).ready == old(self).ready,
            final(self).note == old(self).note,
            final(self).velocity == old(self).velocity,
            final(self).sustain == old(self).sustain,
            final(self).pressed == old(self).pressed,
    {
        proof {
            lemma_strip_contents(q0, r);
        }
        let mut p: usize = 0;
        while p < self.replace_queue.len() && self.replace_queue[p] != i
            invariant
                p <= self.replace_queue@.len(),
                self.replace_queue@.contains(i),
                forall|k: int| 0 <= k < p ==> self.replace_queue@[k] != i,
            decreases self.replace_queue@.len() - p,
        {
            p = p + 1;
        }
        proof {
            if p == self.replace_queue@.len() {
                let k = choose|k: int| 0 <= k < self.replace_queue@.len() && self.replace_queue@[k] == i;
                assert(false);
            }
            lemma_strip_remove(q0, r, p as int);
        }
        self.replace_queue.remove(p);
    }

    fn press(&mut self, note: u8, velocity: u8)
        requires
            old(self).wf(),
        ensures
            final(self)@ == key_press(old(self)@, note, velocity),
            final(self).wf(),
            final(self).spec_id() == old(self).spec_id(),
    {
        let ghost s0 = self@;
        self.pressed = true;
        self.gate = false;
        self.trigger = true;
        self.note = note;
        self.velocity = velocity;
        let mut i: usize = 0;
        while i < POLY_VOICE_COUNT && self.voices[i].on
            invariant
                i <= POLY_VOICE_COUNT,
                self.voices@ == s0.voices,
                s0.voices.len() == POLY_VOICE_COUNT,
                forall|j: int| 0 <= j < i ==> s0.voices[j].on,
            decreases POLY_VOICE_COUNT - i,
        {
            i = i + 1;
        }
        let slot: usize;
        if i < POLY_VOICE_COUNT {
            proof {
                assert(is_first_free(s0.voices, i as int));
                assert(has_free(s0.voices));
                let c = choose|c: int| is_first_free(s0.voices, c);
                assert(c == i) by {
                    if c < i {
                        assert(s0.voices[c].on);
                    } else if c > i {
                        assert(s0.voices[i as int].on);
                    }
                }
                assert(!s0.queue.contains(i));
            }
            slot = i;
        } else {
            proof {
                assert(!has_free(s0.voices));
                assert(s0.voices[0].on);
                assert(s0.queue.contains(0usize));
            }
            slot = match self.replace_queue.pop_front() {
                Some(x) => x,
                None => 0,
            };
            proof {
                assert(!self.replace_queue@.contains(slot)) by {
                    if self.replace_queue@.contains(slot) {
                        let k = choose|k: int| 0 <= k < self.replace_queue@.len() && self.replace_queue@[k] == slot;
                        assert(s0.queue[k + 1] == slot);
                        assert(s0.queue[0] == slot);
                    }
                }
            }
        }
        let ghost kept = self.replace_queue@;
        self.voices.set(slot, Voice::new(false, note, velocity));
        self.replace_queue.push_back(slot);
        proof {
            assert(self@ =~= key_press(s0, note, velocity));
            let s1 = self@;
            assert forall|k: int| 0 <= k < s1.queue.len() implies s1.queue[k] < POLY_VOICE_COUNT by {
                if k < kept.len() {
                    if !has_free(s0.voices) {
                        assert(kept[k] == s0.queue[k + 1]);
                    }
                }
            }
            assert forall|a: int, b: int| 0 <= a < s1.queue.len() && 0 <= b < s1.queue.len() && a != b
                implies s1.queue[a] != s1.queue[b] by {
                if a < kept.len() && b < kept.len() {
                    if !has_free(s0.voices) {
                        assert(kept[a] == s0.queue[a + 1]);
                        assert(kept[b] == s0.queue[b + 1]);
                    }
                } else if a < kept.len() {
                    assert(kept.contains(kept[a]));
                } else {
                    assert(kept.contains(kept[b]));
                }
            }
            assert forall|v: usize| v < POLY_VOICE_COUNT implies (s1.voices[v as int].on
                <==> s1.queue.contains(v)) by {
                if v == slot {
                    assert(s1.queue[s1.queue.len() - 1] == v);
                } else {
                    if s1.queue.contains(v) {
                        let k = choose|k: int| 0 <= k < s1.queue.len() && s1.queue[k] == v;
                        assert(kept[k] == v);
                        if !has_free(s0.voices) {
                            assert(s0.queue[k + 1] == v);
                        }
                    }
                    if s0.queue.contains(v) {
                        let k = choose|k: int| 0 <= k < s0.queue.len() && s0.queue[k] == v;
                        if has_free(s0.voices) {
                            assert(s1.queue[k] == v);
                        } else {
                            assert(k != 0);
                            assert(s1.queue[k - 1] == v);
                        }
                    }
                }
            }
        }
    }

    fn release(&mut self, note: u8)
        requires
            old(self).wf(),
        ensures
            final(self)@ == key_release(old(self)@, note),
            final(self).wf(),
            final(self).spec_id() == old(self).spec_id(),
    {
        let ghost s0 = self@;
        if self.note == note {
            if !self.sustain {
                self.gate = false;
                self.ready = false;
                self.trigger = false;
            }
            self.pressed = false;
        }
        proof {
            assert(released_below(s0, note, 0) =~= Set::empty());
            lemma_strip_nothing(s0.queue);
        }
        let mut i: usize = 0;
        while i < POLY_VOICE_COUNT
            invariant
                i <= POLY_VOICE_COUNT,
                state_wf(s0),
                self.voices@.len() == POLY_VOICE_COUNT,
                forall|k: int|
                    0 <= k < i ==> self.voices@[k] == voice_after_release(s0.voices[k], note, s0.sustain),
                forall|k: int| i <= k < POLY_VOICE_COUNT ==> self.voices@[k] == s0.voices[k],
                self.replace_queue@ == strip(s0.queue, released_below(s0, note, i as int)),
                self.sustain == s0.sustain,
                self.id == old(self).id,
                self.gate == key_release(s0, note).gate,
                self.ready == key_release(s0, note).ready,
                self.trigger == key_release(s0, note).trigger,
                self.pressed == key_release(s0, note).pressed,
                self.note == s0.note,
                self.velocity == s0.velocity,
            decreases POLY_VOICE_COUNT - i,
        {
            let v = self.voices[i];
            if v.note == note {
                if !self.sustain && v.on {
                    proof {
                        assert(s0.queue.contains(i));
                    }
                    self.strike_from_queue(i, Ghost(s0.queue), Ghost(released_below(s0, note, i as int)));
                    proof {
                        assert(released_below(s0, note, i as int).insert(i) =~= released_below(s0, note, i + 1));
                    }
                    self.voices.set(
                        i,
                        Voice { ready: false, trigger: false, gate: false, on: false, pressed: false, ..v },
                    );
                } else {
                    proof {
                        assert(released_below(s0, note, i as int) =~= released_below(s0, note, i + 1));
                    }
                    self.voices.set(i, Voice { pressed: false, ..v });
                }
            } else {
                proof {
                    assert(released_below(s0, note, i as int) =~= released_below(s0, note, i + 1));
                }
            }
            i = i + 1;
        }
        proof {
            assert(released_below(s0, note, POLY_VOICE_COUNT as int) =~= released_set(s0, note));
            assert(self.voices@ =~= key_release(s0, note).voices);
            assert(self@ =~= key_release(s0, note));
            lemma_strip_contents(s0.queue, released_set(s0, note));
            assert(self@.queue == strip(s0.queue, released_set(s0, note)));
            assert forall|k: int| 0 <= k < self@.queue.len() implies self@.queue[k] < POLY_VOICE_COUNT by {
                let x = self@.queue[k];
                assert(strip(s0.queue, released_set(s0, note)).contains(x));
                assert(s0.queue.contains(x));
                let j = choose|j: int| 0 <= j < s0.queue.len() && s0.queue[j] == x;
            }
            assert forall|v: usize| v < POLY_VOICE_COUNT implies (self@.voices[v as int].on
                <==> self@.queue.contains(v)) by {
                assert(s0.voices[v as int].on <==> s0.queue.contains(v));
            }
        }
    }

    fn release_pedal(&mut self)
        requires
            old(self).wf(),
        ensures
            final(self)@ == pedal_release(old(self)@),
            final(self).wf(),
            final(self).spec_id() == old(self).spec_id(),
    {
        let ghost s0 = self@;
        self.sustain = false;
        if !self.pressed {
            self.gate = false;
            self.ready = false;
            self.trigger = false;
        }
        proof {
            assert(pedal_below(s0, 0) =~= Set::empty());
            lemma_strip_nothing(s0.queue);
        }
        let mut i: usize = 0;
        while i < POLY_VOICE_COUNT
            invariant
                i <= POLY_VOICE_COUNT,
                state_wf(s0),
                self.voices@.len() == POLY_VOICE_COUNT,
                forall|k: int|
                    0 <= k < i ==> self.voices@[k] == (if drops_on_pedal(s0.voices[k]) {
                        silenced(s0.voices[k])
                    } else {
                        s0.voices[k]
                    }),
                forall|k: int| i <= k < POLY_VOICE_COUNT ==> self.voices@[k] == s0.voices[k],
                self.replace_queue@ == strip(s0.queue, pedal_below(s0, i as int)),
                self.sustain == false,
                self.id == old(self).id,
                self.gate == pedal_release(s0).gate,
                self.ready == pedal_release(s0).ready,
                self.trigger == pedal_release(s0).trigger,
                self.pressed == s0.pressed,
                self.note == s0.note,
                self.velocity == s0.velocity,
            decreases POLY_VOICE_COUNT - i,
        {
            let v = self.voices[i];
            if v.on && !v.pressed {
                proof {
                    assert(s0.queue.contains(i));
                }
                self.strike_from_queue(i, Ghost(s0.queue), Ghost(pedal_below(s0, i as int)));
                proof {
                    assert(pedal_below(s0, i as int).insert(i) =~= pedal_below(s0, i + 1));
                }
                self.voices.set(
                    i,
                    Voice { ready: false, trigger: false, gate: false, on: false, pressed: false, ..v },
                );
            } else {
                proof {
                    assert(pedal_below(s0, i as int) =~= pedal_below(s0, i + 1));
                }
            }
            i = i + 1;
        }
        proof {
            assert(pedal_below(s0, POLY_VOICE_COUNT as int) =~= pedal_set(s0));
            assert(self.voices@ =~= pedal_release(s0).voices);
            assert(self@ =~= pedal_release(s0));
            lemma_strip_contents(s0.queue, pedal_set(s0));
            assert(self@.queue == strip(s0.queue, pedal_set(s0)));
            assert forall|k: int| 0 <= k < self@.queue.len() implies self@.queue[k] < POLY_VOICE_COUNT by {
                let x = self@.queue[k];
                assert(strip(s0.queue, pedal_set(s0)).contains(x));
                assert(s0.queue.contains(x));
                let j = choose|j: int| 0 <= j < s0.queue.len() && s0.queue[j] == x;
            }
            assert forall|v: usize| v < POLY_VOICE_COUNT implies (self@.voices[v as int].on
                <==> self@.queue.contains(v)) by {
                assert(s0.voices[v as int].on <==> s0.queue.contains(v));
            }
        }
    }

    pub fn update(&mut self, msg: MidiUpdate)
        requires
            old(self).wf(),
        ensures
            final(self)@ == apply_update(old(self)@, msg),
            final(self).wf(),
            final(self).spec_id() == old(self).spec_id(),
    {
        match msg {
            MidiUpdate::KeyPress(note, velocity) => self.press(note, velocity),
            MidiUpdate::KeyRelease(note) => self.release(note),
            MidiUpdate::PedalPress => {
                self.sustain = true;
                proof {
                    assert(self@ =~= apply_update(old(self)@, msg));
                }
            },
            MidiUpdate::PedalRelease => self.release_pedal(),
        }
    }

    pub fn get_output(&self, target_output: usize) -> (r: u8)
        requires
            self.wf(),
            target_output < output_count(),
        ensures
            r == output_value(self@, target_output as int),
    {
        match target_output {
            0 => if self.gate { FULL_SCALE } else { 0 },
            1 => self.note,
            2 => self.velocity,
            _ => {
                let voice = (target_output - 3) / 3;
                let data_type = target_output % 3;
                let v = self.voices[voice];
                if data_type == 0 {
                    if v.gate { FULL_SCALE } else { 0 }
                } else if data_type == 1 {
                    v.note
                } else {
                    v.velocity
                }
            },
        }
    }
}

} // verus!
