use vstd::prelude::*;
use crate::noise_generator::{NoiseGenerator, NOISE_SEED, next_seed, noise_of};

verus! {

/// Number of voices in the pool.
pub const MAX_VOICES: usize = 8;

/// Note of a voice whose key was released while the sustain pedal was held.
pub const SUSTAIN: i32 = -1;

/// Number of samples between two updates of the slow modulation.
pub const LFO_MAX: i32 = 32;

/// Highest note number.
pub const MAX_NOTE: i32 = 127;

/// Whether one voice or the whole pool plays.
#[derive(Clone, Copy, Debug, PartialEq, Eq, Structural)]
pub enum PolyMode {
    Mono,
    Poly,
}

/// When the pitch slides from the previous note to a new one.
#[derive(Clone, Copy, Debug, PartialEq, Eq, Structural)]
pub enum GlideMode {
    Off,
    Legato,
    Always,
}

/// The controllers that the synthesizer responds to.
#[derive(Clone, Copy, Debug, PartialEq, Eq, Structural)]
pub enum Controller {
    /// Depth of vibrato and pulse-width modulation.
    ModWheel,
    /// Raises the filter cutoff.
    FilterUp,
    /// Lowers the filter cutoff.
    FilterDown,
    /// The sustain pedal.
    SustainPedal,
    /// Silences every voice at once.
    AllNotesOff,
    /// Any other controller, which is ignored.
    Ignored,
}

/// The controller that number `cc` stands for.
pub open spec fn controller_spec(cc: u8) -> Controller {
    if cc == 0x01 {
        Controller::ModWheel
    } else if cc == 0x4A {
        Controller::FilterUp
    } else if cc == 0x4B {
        Controller::FilterDown
    } else if cc == 0x40 {
        Controller::SustainPedal
    } else if cc == 120 || cc == 123 {
        Controller::AllNotesOff
    } else {
        Controller::Ignored
    }
}

/// What controller number `cc` does: 0x01 is the mod wheel, 0x4A and 0x4B move
/// the filter cutoff up and down, 0x40 is the sustain pedal, 120 (all sound off)
/// and 123 (all notes off) silence every voice.
pub fn controller(cc: u8) -> (r: Controller)
    ensures
        r == controller_spec(cc),
{
    if cc == 0x01 {
        Controller::ModWheel
    } else if cc == 0x4A {
        Controller::FilterUp
    } else if cc == 0x4B {
        Controller::FilterDown
    } else if cc == 0x40 {
        Controller::SustainPedal
    } else if cc == 120 || cc == 123 {
        Controller::AllNotesOff
    } else {
        Controller::Ignored
    }
}

/// What the signal path must do after a key goes down.
#[derive(Clone, Copy, Debug, PartialEq, Eq, Structural)]
pub enum NoteCommand {
    /// Start `voice` afresh on `note`, its pitch starting `glide_distance`
    /// semitones away from the note and sliding to it.
    Start { voice: usize, note: i32, glide_distance: i32 },
    /// Move the mono voice to `note` without restarting it; its pitch slides
    /// there when `glide` holds and jumps otherwise.
    Retarget { note: i32, glide: bool },
}

/// What the signal path must do after a key goes up.
pub struct NoteRelease {
    /// Where the mono voice moves to a note still held, if it does.
    pub retarget: Option<NoteCommand>,
    /// The voices whose envelopes enter their release segment.
    pub released: [bool; MAX_VOICES],
}

/// The allocator's state as a mathematical value.
pub struct SynthModel {
    pub notes: Seq<i32>,
    pub num_voices: usize,
    pub is_sustained: bool,
    pub last_note: i32,
    pub glide_mode: GlideMode,
    pub lfo_step: i32,
    pub noise_seed: u32,
}

/// A note number that a voice can carry: free (0), a key (1 to 127), or held by
/// the pedal (`SUSTAIN`).
pub open spec fn valid_voice_note(n: i32) -> bool {
    SUSTAIN <= n <= MAX_NOTE
}

impl SynthModel {
    /// Every voice carries a valid note, the mode is mono or the whole pool, and
    /// the glide reference and the modulation counter are in range.
    pub open spec fn wf(self) -> bool {
        &&& self.notes.len() == MAX_VOICES
        &&& forall|k: int| 0 <= k < MAX_VOICES ==> valid_voice_note(#[trigger] self.notes[k])
        &&& (self.num_voices == 1 || self.num_voices == MAX_VOICES)
        &&& 0 <= self.last_note <= MAX_NOTE
        &&& 0 <= self.lfo_step <= LFO_MAX
    }
}

/// Some voice sounds a key that is still down.
pub open spec fn any_held(notes: Seq<i32>) -> bool {
    exists|k: int| 0 <= k < notes.len() && #[trigger] notes[k] > 0
}

/// In the mono queue, the first slot at or after `k` that holds a key (`notes.len()` if none).
pub open spec fn first_queued(notes: Seq<i32>, k: int) -> int
    decreases notes.len() - k,
{
    if k >= notes.len() || k < 0 {
        notes.len() as int
    } else if notes[k] > 0 {
        k
    } else {
        first_queued(notes, k + 1)
    }
}

/// The mono queue pushed down by one: slot 0 is kept and each slot takes the
/// note of the slot before it; the last note leaves the queue.
pub open spec fn shifted(notes: Seq<i32>) -> Seq<i32> {
    Seq::new(notes.len(), |k: int| if k == 0 { notes[0] } else { notes[k - 1] })
}

/// The queue after the most recently queued key (the first queued slot after
/// slot 0) is taken out of it, and that key (0 if none waits).
pub open spec fn pop_queued(notes: Seq<i32>) -> (Seq<i32>, i32) {
    let k = first_queued(notes, 1);
    if k < notes.len() {
        (notes.update(k, 0), notes[k])
    } else {
        (notes, 0)
    }
}

/// Semitones from the previous note to `note` that the pitch slides across: the
/// distance when glide is on, a previous note exists and some key is held; else 0.
pub open spec fn glide_distance(mode: GlideMode, last_note: i32, held: bool, note: i32) -> i32 {
    if last_note > 0 && mode != GlideMode::Off && held {
        (note - last_note) as i32
    } else {
        0
    }
}

/// Voice `i` may be stolen and none is quieter; none before it is as quiet.
pub open spec fn is_quietest(levels: Seq<u32>, in_attack: Seq<bool>, i: int) -> bool {
    &&& 0 <= i < levels.len()
    &&& !in_attack[i]
    &&& forall|j: int| 0 <= j < levels.len() && !in_attack[j] ==> levels[i] <= #[trigger] levels[j]
    &&& forall|j: int| 0 <= j < i && !in_attack[j] ==> levels[i] < #[trigger] levels[j]
}

/// Some voice is out of its attack and may be stolen.
pub open spec fn any_stealable(levels: Seq<u32>, in_attack: Seq<bool>) -> bool {
    exists|j: int| 0 <= j < levels.len() && !#[trigger] in_attack[j]
}

/// The voice that a new note takes in the pool: the quietest voice out of its
/// attack, the first of equals; voice 0 when every voice is in its attack.
pub open spec fn quietest_voice(levels: Seq<u32>, in_attack: Seq<bool>) -> int {
    if any_stealable(levels, in_attack) {
        choose|i: int| is_quietest(levels, in_attack, i)
    } else {
        0
    }
}

/// A voice starts on `note`: it carries the note, which becomes the glide reference.
pub open spec fn start_model(m: SynthModel, voice: int, note: i32) -> (SynthModel, NoteCommand) {
    let d = glide_distance(m.glide_mode, m.last_note, any_held(m.notes), note);
    (
        SynthModel { notes: m.notes.update(voice, note), last_note: note, ..m },
        NoteCommand::Start { voice: voice as usize, note, glide_distance: d },
    )
}

/// The first voice at or after `k` that carries key `note` (`notes.len()` if none).
pub open spec fn carrier_from(notes: Seq<i32>, note: i32, k: int) -> int
    decreases notes.len() - k,
{
    if k >= notes.len() || k < 0 {
        notes.len() as int
    } else if notes[k] == note {
        k
    } else {
        carrier_from(notes, note, k + 1)
    }
}

/// The first voice that carries key `note` (`notes.len()` if none).
pub open spec fn carrier(notes: Seq<i32>, note: i32) -> int {
    carrier_from(notes, note, 0)
}

/// The mono queue with key `note` taken out of the waiting slots (slot 1 and up).
pub open spec fn unqueued(notes: Seq<i32>, note: i32) -> Seq<i32> {
    Seq::new(notes.len(), |k: int| if k >= 1 && notes[k] == note { 0i32 } else { notes[k] })
}

/// A key goes down. In mono, the key first leaves the queue if it waits there;
/// then, while the voice sounds a key, that key joins the queue and the voice
/// moves to the new one (or stays, when it already sounds it); otherwise voice 0
/// starts. In poly, a key that a voice still carries restarts that voice; any
/// other key starts the quietest stealable voice.
pub open spec fn note_on_model(m: SynthModel, note: i32, levels: Seq<u32>, in_attack: Seq<bool>) -> (
    SynthModel,
    NoteCommand,
) {
    if m.num_voices == 1 {
        let q = unqueued(m.notes, note);
        let m1 = SynthModel { notes: q, ..m };
        if q[0] > 0 {
            let notes = if q[0] == note { q } else { shifted(q).update(0, note) };
            (
                SynthModel { notes, ..m },
                NoteCommand::Retarget { note, glide: m.glide_mode != GlideMode::Off },
            )
        } else {
            start_model(m1, 0, note)
        }
    } else if note > 0 && carrier(m.notes, note) < m.notes.len() {
        start_model(m, carrier(m.notes, note), note)
    } else {
        start_model(m, quietest_voice(levels, in_attack), note)
    }
}

/// In mono, when the sounding key goes up, the voice moves to the most recently
/// queued key, if any.
pub open spec fn requeue_notes(m: SynthModel, note: i32) -> Seq<i32> {
    if m.num_voices == 1 && m.notes[0] == note {
        let (q, n) = pop_queued(m.notes);
        if n > 0 { q.update(0, n) } else { q }
    } else {
        m.notes
    }
}

/// The waiting key that the mono voice moves to when `note` goes up, if any.
pub open spec fn requeued(m: SynthModel, note: i32) -> Option<NoteCommand> {
    if m.num_voices == 1 && m.notes[0] == note && pop_queued(m.notes).1 > 0 {
        Some(NoteCommand::Retarget { note: pop_queued(m.notes).1, glide: m.glide_mode != GlideMode::Off })
    } else {
        None
    }
}

/// The notes after a key goes up: each voice left on that note is held by the
/// pedal when it is down, and freed otherwise.
pub open spec fn note_off_notes(m: SynthModel, note: i32) -> Seq<i32> {
    let q = requeue_notes(m, note);
    Seq::new(
        q.len(),
        |k: int|
            if q[k] == note {
                if m.is_sustained { SUSTAIN } else { 0 }
            } else {
                q[k]
            },
    )
}

/// The voices released when `note` goes up: those left on that note, unless the pedal is down.
pub open spec fn note_off_released(m: SynthModel, note: i32) -> Seq<bool> {
    let q = requeue_notes(m, note);
    Seq::new(q.len(), |k: int| q[k] == note && !m.is_sustained)
}

/// A key goes up, see `note_off_notes`.
pub open spec fn note_off_model(m: SynthModel, note: i32) -> SynthModel {
    SynthModel { notes: note_off_notes(m, note), ..m }
}

/// The pedal goes down or up; going up releases what it held.
pub open spec fn sustain_model(m: SynthModel, down: bool) -> SynthModel {
    let m1 = SynthModel { is_sustained: down, ..m };
    if down { m1 } else { note_off_model(m1, SUSTAIN) }
}

/// Where the mono voice moves when the pedal goes up, as for `note_off(SUSTAIN)`.
pub open spec fn sustain_requeued(m: SynthModel, down: bool) -> Option<NoteCommand> {
    if down { None } else { requeued(SynthModel { is_sustained: false, ..m }, SUSTAIN) }
}

/// The voices released when the pedal moves: those it held, when it goes up.
pub open spec fn sustain_released(m: SynthModel, down: bool) -> Seq<bool> {
    if down {
        Seq::new(MAX_VOICES as nat, |k: int| false)
    } else {
        note_off_released(SynthModel { is_sustained: false, ..m }, SUSTAIN)
    }
}

/// The voice mode and glide mode of a block: one voice in mono, the pool in poly.
pub open spec fn configure_model(m: SynthModel, poly_mode: PolyMode, glide_mode: GlideMode) -> SynthModel {
    SynthModel {
        num_voices: if poly_mode == PolyMode::Mono { 1 } else { MAX_VOICES },
        glide_mode,
        ..m
    }
}

/// One sample counted towards the next update of the slow modulation.
pub open spec fn lfo_tick_model(m: SynthModel) -> (SynthModel, bool) {
    if m.lfo_step - 1 <= 0 {
        (SynthModel { lfo_step: LFO_MAX, ..m }, true)
    } else {
        (SynthModel { lfo_step: (m.lfo_step - 1) as i32, ..m }, false)
    }
}

/// The shared noise source advanced by one value.
pub open spec fn noise_model(m: SynthModel) -> (SynthModel, i32) {
    let s = next_seed(m.noise_seed);
    (SynthModel { noise_seed: s, ..m }, noise_of(s))
}

/// Every voice free.
pub open spec fn silent_notes() -> Seq<i32> {
    Seq::new(MAX_VOICES as nat, |k: int| 0i32)
}

/// The state after a reset: voices free, pedal up, no glide reference, the
/// modulation counter and the noise at their start. The modes are kept.
pub open spec fn reset_model(m: SynthModel) -> SynthModel {
    SynthModel {
        notes: silent_notes(),
        is_sustained: false,
        last_note: 0,
        lfo_step: 0,
        noise_seed: NOISE_SEED,
        ..m
    }
}

/// The first queued slot at or after `k` lies between `k` and the end of the queue,
/// and holds a key when it is not the end.
pub proof fn lemma_first_queued_bounds(notes: Seq<i32>, k: int)
    requires
        0 <= k <= notes.len(),
    ensures
        k <= first_queued(notes, k) <= notes.len(),
        first_queued(notes, k) < notes.len() ==> notes[first_queued(notes, k)] > 0,
        forall|j: int| k <= j < first_queued(notes, k) ==> notes[j] <= 0,
    decreases notes.len() - k,
{
    if k < notes.len() && notes[k] <= 0 {
        lemma_first_queued_bounds(notes, k + 1);
    }
}

/// At most one voice is the quietest stealable one, so the choice is well defined.
pub proof fn lemma_quietest_unique(levels: Seq<u32>, in_attack: Seq<bool>, i: int)
    requires
        is_quietest(levels, in_attack, i),
    ensures
        any_stealable(levels, in_attack),
        quietest_voice(levels, in_attack) == i,
{
    assert(!in_attack[i]);
    let c = choose|c: int| is_quietest(levels, in_attack, c);
    assert(is_quietest(levels, in_attack, c));
    if c < i {
        assert(levels[i] < levels[c]);
        assert(levels[c] <= levels[i]);
    } else if i < c {
        assert(levels[c] < levels[i]);
        assert(levels[i] <= levels[c]);
    }
}

/// The quietest stealable voice among the first `n`, found by a scan that keeps the
/// first of equals; -1 when each of them is in its attack.
pub open spec fn quietest_prefix(levels: Seq<u32>, in_attack: Seq<bool>, n: int) -> int
    decreases n,
{
    if n <= 0 {
        -1
    } else {
        let b = quietest_prefix(levels, in_attack, n - 1);
        if !in_attack[n - 1] && (b < 0 || levels[n - 1] < levels[b]) {
            n - 1
        } else {
            b
        }
    }
}

proof fn lemma_quietest_prefix(levels: Seq<u32>, in_attack: Seq<bool>, n: int)
    requires
        0 <= n <= levels.len(),
        in_attack.len() == levels.len(),
    ensures
        ({
            let b = quietest_prefix(levels, in_attack, n);
            &&& -1 <= b < n
            &&& b < 0 ==> forall|j: int| 0 <= j < n ==> #[trigger] in_attack[j]
            &&& b >= 0 ==> !in_attack[b]
            &&& b >= 0 ==> forall|j: int| 0 <= j < n && !in_attack[j] ==> levels[b] <= #[trigger] levels[j]
            &&& b >= 0 ==> forall|j: int| 0 <= j < b && !in_attack[j] ==> levels[b] < #[trigger] levels[j]
        }),
    decreases n,
{
    if n > 0 {
        lemma_quietest_prefix(levels, in_attack, n - 1);
    }
}

/// When some voice is out of its attack, a quietest stealable voice exists.
pub proof fn lemma_quietest_exists(levels: Seq<u32>, in_attack: Seq<bool>)
    requires
        in_attack.len() == levels.len(),
        any_stealable(levels, in_attack),
    ensures
        is_quietest(levels, in_attack, quietest_voice(levels, in_attack)),
{
    lemma_quietest_prefix(levels, in_attack, levels.len() as int);
    let b = quietest_prefix(levels, in_attack, levels.len() as int);
    let j = choose|j: int| 0 <= j < levels.len() && !#[trigger] in_attack[j];
    assert(!in_attack[j]);
    assert(b >= 0);
    assert(is_quietest(levels, in_attack, b));
    lemma_quietest_unique(levels, in_attack, b);
}

/// Voice stealing in the pool: a new key (one that no voice carries) takes the
/// voice with the lowest envelope level among the voices out of their attack,
/// never one still in its attack; that voice carries the key, every other voice
/// keeps its note, and the key becomes the glide reference.
pub proof fn lemma_poly_steals_quietest(
    m: SynthModel,
    note: i32,
    levels: Seq<u32>,
    in_attack: Seq<bool>,
)
    requires
        m.wf(),
        m.num_voices == MAX_VOICES,
        levels.len() == MAX_VOICES,
        in_attack.len() == MAX_VOICES,
        0 <= note <= MAX_NOTE,
        forall|k: int| 0 <= k < MAX_VOICES ==> m.notes[k] != note,
        any_stealable(levels, in_attack),
    ensures
        note_on_model(m, note, levels, in_attack).1 matches NoteCommand::Start { voice, .. } && {
            let m1 = note_on_model(m, note, levels, in_attack).0;
            &&& voice < MAX_VOICES
            &&& !in_attack[voice as int]
            &&& forall|j: int| 0 <= j < MAX_VOICES && !in_attack[j] ==> levels[voice as int] <= #[trigger] levels[j]
            &&& m1.notes[voice as int] == note
            &&& forall|k: int| 0 <= k < MAX_VOICES && k != voice ==> #[trigger] m1.notes[k] == m.notes[k]
            &&& m1.last_note == note
        },
{
    lemma_quietest_exists(levels, in_attack);
    lemma_carrier_bounds(m.notes, note, 0);
}

/// Mono legato: while the voice sounds key `a`, key `b` goes down and then up with
/// the pedal up; the voice moves to `b` without restarting and then back to `a`.
pub proof fn lemma_mono_legato_returns(
    m: SynthModel,
    a: i32,
    b: i32,
    levels: Seq<u32>,
    in_attack: Seq<bool>,
)
    requires
        m.wf(),
        m.num_voices == 1,
        !m.is_sustained,
        m.notes[0] == a,
        0 < a,
        0 < b <= MAX_NOTE,
        a != b,
    ensures
        ({
            let (m1, c) = note_on_model(m, b, levels, in_attack);
            let glide = m.glide_mode != GlideMode::Off;
            &&& c == NoteCommand::Retarget { note: b, glide }
            &&& m1.notes[0] == b
            &&& requeued(m1, b) == Some(NoteCommand::Retarget { note: a, glide })
            &&& note_off_model(m1, b).notes[0] == a
            &&& !note_off_released(m1, b)[0]
        }),
{
    let m1 = note_on_model(m, b, levels, in_attack).0;
    assert(m1.notes[1] == a);
    assert(first_queued(m1.notes, 1) == 1);
    assert(requeue_notes(m1, b)[0] == a);
}

/// No two voices carry the same key that is down.
pub open spec fn keys_unique(notes: Seq<i32>) -> bool {
    forall|i: int, j: int| 0 <= i < j < notes.len() && notes[i] > 0 ==> #[trigger] notes[i] != #[trigger] notes[j]
}

/// At most one voice carries a given key that is down: a key going down, a key
/// going up, the pedal and a reset all keep it so.
pub proof fn lemma_keys_stay_unique(
    m: SynthModel,
    note: i32,
    down: bool,
    levels: Seq<u32>,
    in_attack: Seq<bool>,
)
    requires
        m.wf(),
        keys_unique(m.notes),
        levels.len() == MAX_VOICES,
        in_attack.len() == MAX_VOICES,
    ensures
        0 <= note <= MAX_NOTE ==> keys_unique(note_on_model(m, note, levels, in_attack).0.notes),
        keys_unique(note_off_model(m, note).notes),
        keys_unique(sustain_model(m, down).notes),
        keys_unique(reset_model(m).notes),
{
    if 0 <= note <= MAX_NOTE {
        lemma_note_on_keeps_unique(m, note, levels, in_attack);
    }
    lemma_note_off_keeps_unique(m, note);
    lemma_note_off_keeps_unique(SynthModel { is_sustained: false, ..m }, SUSTAIN);
}

/// The first carrier of `note` at or after `k` lies between `k` and the end, and
/// carries `note` when it is not the end.
pub proof fn lemma_carrier_bounds(notes: Seq<i32>, note: i32, k: int)
    requires
        0 <= k <= notes.len(),
    ensures
        k <= carrier_from(notes, note, k) <= notes.len(),
        carrier_from(notes, note, k) < notes.len() ==> notes[carrier_from(notes, note, k)] == note,
        forall|j: int| k <= j < carrier_from(notes, note, k) ==> notes[j] != note,
    decreases notes.len() - k,
{
    if k < notes.len() && notes[k] != note {
        lemma_carrier_bounds(notes, note, k + 1);
    }
}

proof fn lemma_note_on_keeps_unique(m: SynthModel, note: i32, levels: Seq<u32>, in_attack: Seq<bool>)
    requires
        m.wf(),
        keys_unique(m.notes),
        0 <= note <= MAX_NOTE,
        levels.len() == MAX_VOICES,
        in_attack.len() == MAX_VOICES,
    ensures
        keys_unique(note_on_model(m, note, levels, in_attack).0.notes),
{
    let n1 = note_on_model(m, note, levels, in_attack).0.notes;
    lemma_carrier_bounds(m.notes, note, 0);
    if m.num_voices == 1 {
        let q = unqueued(m.notes, note);
        assert(keys_unique(q)) by {
            assert forall|i: int, j: int| 0 <= i < j < q.len() && q[i] > 0 implies #[trigger] q[i]
                != #[trigger] q[j] by {
                assert(m.notes[i] > 0);
            }
        }
        assert forall|i: int, j: int| 0 <= i < j < n1.len() && n1[i] > 0 implies #[trigger] n1[i]
            != #[trigger] n1[j] by {
            if q[0] > 0 && q[0] != note {
                if i > 0 {
                    assert(n1[i] == q[i - 1] && n1[j] == q[j - 1]);
                } else {
                    assert(n1[j] == q[j - 1]);
                }
            }
        }
    } else {
        let c = carrier(m.notes, note);
        if note > 0 && c < m.notes.len() {
            assert(n1 =~= m.notes);
        } else {
            if any_stealable(levels, in_attack) {
                lemma_quietest_exists(levels, in_attack);
            }
            assert forall|i: int, j: int| 0 <= i < j < n1.len() && n1[i] > 0 implies #[trigger] n1[i]
                != #[trigger] n1[j] by {}
        }
    }
}

proof fn lemma_note_off_keeps_unique(m: SynthModel, note: i32)
    requires
        m.wf(),
        keys_unique(m.notes),
    ensures
        keys_unique(note_off_model(m, note).notes),
{
    let q = requeue_notes(m, note);
    lemma_first_queued_bounds(m.notes, 1);
    assert(keys_unique(q)) by {
        if m.num_voices == 1 && m.notes[0] == note {
            let k = first_queued(m.notes, 1);
            assert forall|i: int, j: int| 0 <= i < j < q.len() && q[i] > 0 implies #[trigger] q[i]
                != #[trigger] q[j] by {
                if k < MAX_VOICES && pop_queued(m.notes).1 > 0 {
                    if i == 0 {
                        assert(q[0] == m.notes[k]);
                        if j != k {
                            assert(m.notes[k] != m.notes[j]);
                        }
                    }
                }
            }
        }
    }
    let n = note_off_model(m, note).notes;
    assert forall|i: int, j: int| 0 <= i < j < n.len() && n[i] > 0 implies #[trigger] n[i] != #[trigger] n[j] by {
        assert(q[i] > 0);
    }
}

/// One operation on the allocator, with the inputs that it reads.
pub enum SynthEvent {
    NoteOn { note: i32, levels: Seq<u32>, in_attack: Seq<bool> },
    NoteOff { note: i32 },
    Sustain { down: bool },
    AllNotesOff,
    Configure { poly_mode: PolyMode, glide_mode: GlideMode },
    LfoTick,
    Noise,
    Reset,
}

/// What one operation returns.
pub enum SynthOutput {
    Command(NoteCommand),
    Release(Option<NoteCommand>, Seq<bool>),
    Tick(bool),
    Noise(i32),
    Done,
}

/// The state after one operation and what it returns, as the operation's own
/// contract states them.
pub open spec fn step(m: SynthModel, e: SynthEvent) -> (SynthModel, SynthOutput) {
    match e {
        SynthEvent::NoteOn { note, levels, in_attack } => {
            let (m1, c) = note_on_model(m, note, levels, in_attack);
            (m1, SynthOutput::Command(c))
        },
        SynthEvent::NoteOff { note } => (
            note_off_model(m, note),
            SynthOutput::Release(requeued(m, note), note_off_released(m, note)),
        ),
        SynthEvent::Sustain { down } => (
            sustain_model(m, down),
            SynthOutput::Release(sustain_requeued(m, down), sustain_released(m, down)),
        ),
        SynthEvent::AllNotesOff => (
            SynthModel { notes: silent_notes(), is_sustained: false, ..m },
            SynthOutput::Done,
        ),
        SynthEvent::Configure { poly_mode, glide_mode } => (
            configure_model(m, poly_mode, glide_mode),
            SynthOutput::Done,
        ),
        SynthEvent::LfoTick => {
            let (m1, t) = lfo_tick_model(m);
            (m1, SynthOutput::Tick(t))
        },
        SynthEvent::Noise => {
            let (m1, v) = noise_model(m);
            (m1, SynthOutput::Noise(v))
        },
        SynthEvent::Reset => (reset_model(m), SynthOutput::Done),
    }
}

/// The state after a sequence of operations and what each returned.
pub open spec fn run(m: SynthModel, events: Seq<SynthEvent>) -> (SynthModel, Seq<SynthOutput>)
    decreases events.len(),
{
    if events.len() == 0 {
        (m, Seq::empty())
    } else {
        let (m1, o) = step(m, events[0]);
        let (m2, os) = run(m1, events.drop_first());
        (m2, seq![o] + os)
    }
}

/// Determinism: after a reset, two allocators in the same voice mode and glide
/// mode that go through the same operations reach the same state
/// and return the same results, whatever each did before the reset.
pub proof fn lemma_reset_replays_identically(a: SynthModel, b: SynthModel, events: Seq<SynthEvent>)
    requires
        a.wf(),
        b.wf(),
        a.num_voices == b.num_voices,
        a.glide_mode == b.glide_mode,
    ensures
        run(reset_model(a), events) == run(reset_model(b), events),
{
    assert(reset_model(a) == reset_model(b));
}

/// The voice allocator: the note that each voice of the pool carries, the legato
/// queue of the mono mode, the sustain pedal, the glide reference, the
/// modulation counter and the noise source.
pub struct Synth {
    /// Note of each voice. In mono, voice 0 sounds and slots 1 and up queue the
    /// keys that it moved away from, the most recent first.
    pub notes: [i32; MAX_VOICES],
    pub num_voices: usize,
    pub is_sustained: bool,
    pub last_note: i32,
    pub glide_mode: GlideMode,
    pub lfo_step: i32,
    pub noise_gen: NoiseGenerator,
}

impl View for Synth {
    type V = SynthModel;

    open spec fn view(&self) -> SynthModel {
        SynthModel {
            notes: self.notes@,
            num_voices: self.num_voices,
            is_sustained: self.is_sustained,
            last_note: self.last_note,
            glide_mode: self.glide_mode,
            lfo_step: self.lfo_step,
            noise_seed: self.noise_gen.noise_seed,
        }
    }
}

impl Synth {
    pub open spec fn wf(&self) -> bool {
        self@.wf()
    }

    /// A mono allocator with every voice free.
    pub fn new() -> (r: Self)
        ensures
            r.wf(),
            r@ == (SynthModel {
                notes: silent_notes(),
                num_voices: 1,
                is_sustained: false,
                last_note: 0,
                glide_mode: GlideMode::Off,
                lfo_step: 0,
                noise_seed: NOISE_SEED,
            }),
    {
        let r = Synth {
            notes: [0i32; MAX_VOICES],
            num_voices: 1,
            is_sustained: false,
            last_note: 0,
            glide_mode: GlideMode::Off,
            lfo_step: 0,
            noise_gen: NoiseGenerator::new(),
        };
        assert(r.notes@ =~= silent_notes());
        r
    }

    /// Frees every voice, forgets the glide reference and restarts the
    /// modulation counter and the noise source.
    pub fn reset(&mut self)
        requires
            old(self).wf(),
        ensures
            final(self).wf(),
            final(self)@ == reset_model(old(self)@),
    {
        self.notes = [0i32; MAX_VOICES];
        self.noise_gen.reset();
        self.is_sustained = false;
        self.last_note = 0;
        self.lfo_step = 0;
        assert(self.notes@ =~= silent_notes());
    }

    /// Whether some voice carries a key that is still down.
    pub fn is_playing_legato_style(&self) -> (r: bool)
        ensures
            r == any_held(self.notes@),
    {
        let mut k: usize = 0;
        while k < MAX_VOICES
            invariant
                k <= MAX_VOICES,
                forall|j: int| 0 <= j < k ==> self.notes[j] <= 0,
            decreases MAX_VOICES - k,
        {
            if self.notes[k] > 0 {
                return true;
            }
            k += 1;
        }
        false
    }

    /// The voice that a new note takes in the pool: the quietest voice out of its
    /// attack, the first of equals, never one still in its attack; voice 0 when all
    /// are in their attack. `levels` orders the voices by envelope level.
    pub fn find_free_voice(levels: &[u32; MAX_VOICES], in_attack: &[bool; MAX_VOICES]) -> (r: usize)
        ensures
            r < MAX_VOICES,
            r == quietest_voice(levels@, in_attack@),
            any_stealable(levels@, in_attack@) ==> is_quietest(levels@, in_attack@, r as int),
    {
        let mut best: usize = 0;
        let mut found = false;
        let mut k: usize = 0;
        while k < MAX_VOICES
            invariant
                k <= MAX_VOICES,
                best < MAX_VOICES,
                found ==> best < k && !in_attack[best as int],
                found ==> forall|j: int| 0 <= j < k && !in_attack[j] ==> levels[best as int] <= #[trigger] levels[j],
                found ==> forall|j: int| 0 <= j < best && !in_attack[j] ==> levels[best as int] < #[trigger] levels[j],
                !found ==> best == 0 && forall|j: int| 0 <= j < k ==> #[trigger] in_attack[j],
            decreases MAX_VOICES - k,
        {
            if !in_attack[k] && (!found || levels[k] < levels[best]) {
                best = k;
                found = true;
            }
            k += 1;
        }
        proof {
            if found {
                assert(is_quietest(levels@, in_attack@, best as int));
                assert(any_stealable(levels@, in_attack@));
                lemma_quietest_unique(levels@, in_attack@, best as int);
            } else {
                assert(!any_stealable(levels@, in_attack@));
            }
        }
        best
    }

    /// Pushes the mono queue down by one slot: each slot from 1 up takes the note
    /// of the slot before it, slot 0 keeps its note and the last note leaves.
    pub fn shift_queued_notes(&mut self)
        requires
            old(self).wf(),
        ensures
            final(self).wf(),
            final(self)@ == (SynthModel { notes: shifted(old(self)@.notes), ..old(self)@ }),
    {
        let mut k: usize = MAX_VOICES - 1;
        while k > 0
            invariant
                k < MAX_VOICES,
                self.num_voices == old(self).num_voices,
                self.is_sustained == old(self).is_sustained,
                self.last_note == old(self).last_note,
                self.glide_mode == old(self).glide_mode,
                self.lfo_step == old(self).lfo_step,
                self.noise_gen == old(self).noise_gen,
                forall|j: int| 0 <= j <= k ==> self.notes[j] == old(self).notes[j],
                forall|j: int| k < j < MAX_VOICES ==> self.notes[j] == old(self).notes[j - 1],
            decreases k,
        {
            self.notes[k] = self.notes[k - 1];
            k -= 1;
        }
        assert(self.notes@ =~= shifted(old(self)@.notes));
    }

    /// Takes the most recently queued key out of the mono queue (the first slot
    /// after slot 0 that holds a key) and returns it; returns 0 when no key waits.
    pub fn next_queued_note(&mut self) -> (r: i32)
        requires
            old(self).wf(),
        ensures
            final(self).wf(),
            (final(self)@.notes, r) == pop_queued(old(self)@.notes),
            final(self)@ == (SynthModel { notes: final(self)@.notes, ..old(self)@ }),
    {
        let mut held: usize = 0;
        let mut k: usize = MAX_VOICES;
        while k > 1
            invariant
                1 <= k <= MAX_VOICES,
                self.notes@.len() == MAX_VOICES,
                held == (if first_queued(self.notes@, k as int) < MAX_VOICES {
                    first_queued(self.notes@, k as int)
                } else {
                    0
                }),
            decreases k,
        {
            k -= 1;
            if self.notes[k] > 0 {
                held = k;
            }
        }
        proof {
            lemma_first_queued_bounds(self.notes@, 1);
        }
        if held > 0 {
            let note = self.notes[held];
            self.notes[held] = 0;
            note
        } else {
            0
        }
    }

    /// Starts `voice` on `note`, which becomes the glide reference.
    pub fn start_voice(&mut self, voice: usize, note: i32) -> (r: NoteCommand)
        requires
            old(self).wf(),
            voice < MAX_VOICES,
            0 <= note <= MAX_NOTE,
        ensures
            final(self).wf(),
            (final(self)@, r) == start_model(old(self)@, voice as int, note),
    {
        let held = self.is_playing_legato_style();
        let glide_distance: i32 = if self.last_note > 0 && self.glide_mode != GlideMode::Off && held {
            note - self.last_note
        } else {
            0
        };
        self.last_note = note;
        self.notes[voice] = note;
        NoteCommand::Start { voice, note, glide_distance }
    }

    /// The first voice that carries `note`, or `MAX_VOICES` when none does.
    pub fn find_carrier(&self, note: i32) -> (r: usize)
        ensures
            r == carrier(self.notes@, note),
    {
        let mut k: usize = 0;
        while k < MAX_VOICES
            invariant
                k <= MAX_VOICES,
                self.notes@.len() == MAX_VOICES,
                carrier_from(self.notes@, note, k as int) == carrier(self.notes@, note),
            decreases MAX_VOICES - k,
        {
            if self.notes[k] == note {
                return k;
            }
            k += 1;
        }
        MAX_VOICES
    }

    /// Takes `note` out of the waiting slots of the mono queue.
    pub fn unqueue(&mut self, note: i32)
        requires
            old(self).wf(),
        ensures
            final(self).wf(),
            final(self)@ == (SynthModel { notes: unqueued(old(self)@.notes, note), ..old(self)@ }),
    {
        let mut k: usize = 1;
        while k < MAX_VOICES
            invariant
                1 <= k <= MAX_VOICES,
                self.wf(),
                self@ == (SynthModel { notes: self.notes@, ..old(self)@ }),
                forall|j: int| 0 <= j < k ==> self.notes[j] == unqueued(old(self)@.notes, note)[j],
                forall|j: int| k <= j < MAX_VOICES ==> self.notes[j] == old(self).notes[j],
            decreases MAX_VOICES - k,
        {
            if self.notes[k] == note {
                self.notes[k] = 0;
            }
            k += 1;
        }
        assert(self.notes@ =~= unqueued(old(self)@.notes, note));
    }

    /// A key goes down. In mono, the key first leaves the queue if it waits
    /// there; then, while the voice sounds a key, that key joins the queue and the
    /// voice moves to `note` (legato), or stays when it sounds `note` already;
    /// otherwise voice 0 starts. In poly, a key that a voice still carries restarts
    /// that voice, so that no two voices carry one key; any other key starts the
    /// quietest voice out of its attack, see `find_free_voice`.
    pub fn note_on(&mut self, note: i32, levels: &[u32; MAX_VOICES], in_attack: &[bool; MAX_VOICES]) -> (r: NoteCommand)
        requires
            old(self).wf(),
            0 <= note <= MAX_NOTE,
        ensures
            final(self).wf(),
            (final(self)@, r) == note_on_model(old(self)@, note, levels@, in_attack@),
            keys_unique(old(self)@.notes) ==> keys_unique(final(self)@.notes),
    {
        proof {
            if keys_unique(old(self)@.notes) {
                lemma_note_on_keeps_unique(old(self)@, note, levels@, in_attack@);
            }
        }
        if self.num_voices == 1 {
            self.unqueue(note);
            if self.notes[0] > 0 {
                if self.notes[0] != note {
                    self.shift_queued_notes();
                    self.notes[0] = note;
                }
                return NoteCommand::Retarget { note, glide: self.glide_mode != GlideMode::Off };
            }
            self.start_voice(0, note)
        } else {
            let held = if note > 0 { self.find_carrier(note) } else { MAX_VOICES };
            if held < MAX_VOICES {
                self.start_voice(held, note)
            } else {
                let voice = Synth::find_free_voice(levels, in_attack);
                self.start_voice(voice, note)
            }
        }
    }

    /// A key goes up. In mono, when it is the key that the voice sounds, the voice
    /// moves to the most recently queued key, if any. Then each voice left on the key is
    /// held by the pedal (`SUSTAIN`) when the pedal is down, and else released and
    /// freed.
    pub fn note_off(&mut self, note: i32) -> (r: NoteRelease)
        requires
            old(self).wf(),
        ensures
            final(self).wf(),
            final(self)@ == note_off_model(old(self)@, note),
            r.retarget == requeued(old(self)@, note),
            r.released@ == note_off_released(old(self)@, note),
    {
        let ghost m = self@;
        let mut retarget: Option<NoteCommand> = None;
        if self.num_voices == 1 && self.notes[0] == note {
            let queued = self.next_queued_note();
            proof {
                lemma_first_queued_bounds(m.notes, 1);
                if first_queued(m.notes, 1) < MAX_VOICES {
                    assert(valid_voice_note(m.notes[first_queued(m.notes, 1)]));
                }
            }
            if queued > 0 {
                self.notes[0] = queued;
                retarget = Some(NoteCommand::Retarget { note: queued, glide: self.glide_mode != GlideMode::Off });
            }
        }
        let ghost q = self.notes@;
        assert(q == requeue_notes(m, note));
        let mut released = [false; MAX_VOICES];
        let mut k: usize = 0;
        while k < MAX_VOICES
            invariant
                k <= MAX_VOICES,
                q.len() == MAX_VOICES,
                q == requeue_notes(m, note),
                m.wf(),
                self.wf(),
                self@ == (SynthModel { notes: self.notes@, ..m }),
                forall|j: int| 0 <= j < k ==> self.notes[j] == note_off_notes(m, note)[j],
                forall|j: int| k <= j < MAX_VOICES ==> self.notes[j] == q[j],
                forall|j: int| 0 <= j < k ==> released[j] == note_off_released(m, note)[j],
                forall|j: int| k <= j < MAX_VOICES ==> !released[j],
            decreases MAX_VOICES - k,
        {
            if self.notes[k] == note {
                if self.is_sustained {
                    self.notes[k] = SUSTAIN;
                } else {
                    self.notes[k] = 0;
                    released[k] = true;
                }
            }
            k += 1;
        }
        assert(self.notes@ =~= note_off_notes(m, note));
        assert(released@ =~= note_off_released(m, note));
        NoteRelease { retarget, released }
    }

    /// The sustain pedal goes down or up. When it goes up, every voice that it
    /// held is released, as by `note_off(SUSTAIN)`.
    pub fn set_sustain(&mut self, down: bool) -> (r: NoteRelease)
        requires
            old(self).wf(),
        ensures
            final(self).wf(),
            final(self)@ == sustain_model(old(self)@, down),
            r.retarget == sustain_requeued(old(self)@, down),
            r.released@ == sustain_released(old(self)@, down),
    {
        self.is_sustained = down;
        if down {
            let r = NoteRelease { retarget: None, released: [false; MAX_VOICES] };
            assert(r.released@ =~= Seq::new(MAX_VOICES as nat, |k: int| false));
            r
        } else {
            self.note_off(SUSTAIN)
        }
    }

    /// Frees every voice at once and lifts the pedal.
    pub fn all_notes_off(&mut self)
        requires
            old(self).wf(),
        ensures
            final(self).wf(),
            final(self)@ == (SynthModel { notes: silent_notes(), is_sustained: false, ..old(self)@ }),
    {
        self.notes = [0i32; MAX_VOICES];
        self.is_sustained = false;
        assert(self.notes@ =~= silent_notes());
    }

    /// Takes the voice mode and the glide mode of the current block.
    pub fn configure(&mut self, poly_mode: PolyMode, glide_mode: GlideMode)
        requires
            old(self).wf(),
        ensures
            final(self).wf(),
            final(self)@ == configure_model(old(self)@, poly_mode, glide_mode),
    {
        self.num_voices = match poly_mode {
            PolyMode::Mono => 1,
            PolyMode::Poly => MAX_VOICES,
        };
        self.glide_mode = glide_mode;
    }

    /// Counts one sample; returns whether the slow modulation updates at it, which
    /// happens once every `LFO_MAX` samples, starting with the first sample after
    /// a reset.
    pub fn lfo_tick(&mut self) -> (r: bool)
        requires
            old(self).wf(),
        ensures
            final(self).wf(),
            (final(self)@, r) == lfo_tick_model(old(self)@),
    {
        self.lfo_step = self.lfo_step - 1;
        if self.lfo_step <= 0 {
            self.lfo_step = LFO_MAX;
            true
        } else {
            false
        }
    }

    /// The next value of the shared noise source, see `NoiseGenerator::next_value`.
    pub fn next_noise(&mut self) -> (r: i32)
        requires
            old(self).wf(),
        ensures
            final(self).wf(),
            (final(self)@, r) == noise_model(old(self)@),
    {
        self.noise_gen.next_value()
    }
}

} // verus!
