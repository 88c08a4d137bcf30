use rx11::synth::{
    controller, Controller, GlideMode, NoteCommand, PolyMode, Synth, LFO_MAX, MAX_VOICES, SUSTAIN,
};

const QUIET: [u32; MAX_VOICES] = [0; MAX_VOICES];
const NONE_ATTACKING: [bool; MAX_VOICES] = [false; MAX_VOICES];

fn poly() -> Synth {
    let mut s = Synth::new();
    s.configure(PolyMode::Poly, GlideMode::Off);
    s
}

#[test]
fn mono_legato_returns_to_held_note() {
    let mut s = Synth::new();
    assert_eq!(s.note_on(60, &QUIET, &NONE_ATTACKING), NoteCommand::Start { voice: 0, note: 60, glide_distance: 0 });
    assert_eq!(s.note_on(64, &QUIET, &NONE_ATTACKING), NoteCommand::Retarget { note: 64, glide: false });
    assert_eq!(s.notes[0], 64);
    assert_eq!(s.notes[1], 60);
    let r = s.note_off(64);
    assert_eq!(r.retarget, Some(NoteCommand::Retarget { note: 60, glide: false }));
    assert_eq!(s.notes[0], 60);
    assert_eq!(r.released, [false; MAX_VOICES]);
    let r = s.note_off(60);
    assert_eq!(r.retarget, None);
    assert!(r.released[0]);
    assert_eq!(s.notes, [0; MAX_VOICES]);
}

#[test]
fn mono_queue_returns_through_three_keys() {
    let mut s = Synth::new();
    s.configure(PolyMode::Mono, GlideMode::Legato);
    s.note_on(60, &QUIET, &NONE_ATTACKING);
    s.note_on(62, &QUIET, &NONE_ATTACKING);
    s.note_on(64, &QUIET, &NONE_ATTACKING);
    assert_eq!(&s.notes[..3], &[64, 62, 60]);
    let r = s.note_off(64);
    assert_eq!(r.retarget, Some(NoteCommand::Retarget { note: 62, glide: true }));
    assert_eq!(s.notes[0], 62);
    // A queued key that goes up leaves the queue.
    s.note_off(60);
    assert_eq!(s.next_queued_note(), 0);
}

#[test]
fn shift_and_pop_queue() {
    let mut s = Synth::new();
    s.notes = [5, 4, 3, 2, 1, 0, 7, 9];
    s.shift_queued_notes();
    assert_eq!(s.notes, [5, 5, 4, 3, 2, 1, 0, 7]);
    s.notes = [5, 0, SUSTAIN, 8, 6, 0, 0, 0];
    assert_eq!(s.next_queued_note(), 8);
    assert_eq!(s.notes, [5, 0, SUSTAIN, 0, 6, 0, 0, 0]);
}

#[test]
fn poly_steals_quietest_voice_not_in_attack() {
    let mut s = poly();
    for (i, n) in [60, 61, 62, 63, 64, 65, 66, 67].iter().enumerate() {
        assert_eq!(s.note_on(*n, &QUIET, &[true; MAX_VOICES]), NoteCommand::Start { voice: 0, note: *n, glide_distance: 0 }.clone());
        s.notes[i] = *n;
    }
    let levels: [u32; MAX_VOICES] = [50, 10, 5, 30, 10, 70, 2, 40];
    let attack = [false, false, false, false, false, false, true, false];
    match s.note_on(72, &levels, &attack) {
        NoteCommand::Start { voice, note, .. } => {
            assert_eq!(voice, 2);
            assert_eq!(note, 72);
        }
        other => panic!("unexpected {:?}", other),
    }
    assert_eq!(s.notes[2], 72);
}

#[test]
fn find_free_voice_prefers_first_of_equals() {
    let levels: [u32; MAX_VOICES] = [9, 3, 3, 9, 9, 9, 9, 3];
    assert_eq!(Synth::find_free_voice(&levels, &NONE_ATTACKING), 1);
    let attack = [false, true, false, false, false, false, false, false];
    assert_eq!(Synth::find_free_voice(&levels, &attack), 2);
}

#[test]
fn find_free_voice_all_in_attack_gives_voice_zero() {
    let levels: [u32; MAX_VOICES] = [9, 3, 3, 9, 9, 9, 9, 1];
    assert_eq!(Synth::find_free_voice(&levels, &[true; MAX_VOICES]), 0);
}

#[test]
fn f32_levels_order_as_their_bits() {
    let levels_f = [0.5f32, 0.0001, 1.2, 0.00002, 0.9, 0.3, 0.7, 0.25];
    let mut levels = [0u32; MAX_VOICES];
    for i in 0..MAX_VOICES {
        levels[i] = levels_f[i].to_bits();
    }
    assert_eq!(Synth::find_free_voice(&levels, &NONE_ATTACKING), 3);
}

#[test]
fn glide_distance_needs_a_held_key() {
    let mut s = Synth::new();
    s.configure(PolyMode::Poly, GlideMode::Always);
    assert_eq!(s.note_on(60, &QUIET, &NONE_ATTACKING), NoteCommand::Start { voice: 0, note: 60, glide_distance: 0 });
    let levels: [u32; MAX_VOICES] = [9, 0, 9, 9, 9, 9, 9, 9];
    assert_eq!(s.note_on(67, &levels, &NONE_ATTACKING), NoteCommand::Start { voice: 1, note: 67, glide_distance: 7 });
    s.note_off(60);
    s.note_off(67);
    assert!(!s.is_playing_legato_style());
    assert_eq!(s.note_on(55, &QUIET, &NONE_ATTACKING), NoteCommand::Start { voice: 0, note: 55, glide_distance: 0 });
}

#[test]
fn glide_off_gives_no_distance() {
    let mut s = poly();
    s.note_on(60, &QUIET, &NONE_ATTACKING);
    let levels: [u32; MAX_VOICES] = [9, 0, 9, 9, 9, 9, 9, 9];
    assert_eq!(s.note_on(48, &levels, &NONE_ATTACKING), NoteCommand::Start { voice: 1, note: 48, glide_distance: 0 });
    assert_eq!(s.last_note, 48);
}

#[test]
fn sustain_pedal_holds_and_releases() {
    let mut s = poly();
    s.note_on(60, &QUIET, &NONE_ATTACKING);
    assert!(s.set_sustain(true).released.iter().all(|r| !r));
    let r = s.note_off(60);
    assert_eq!(r.released, [false; MAX_VOICES]);
    assert_eq!(s.notes[0], SUSTAIN);
    let r = s.set_sustain(false);
    assert!(r.released[0]);
    assert_eq!(r.released.iter().filter(|r| **r).count(), 1);
    assert_eq!(s.notes[0], 0);
    assert!(!s.is_sustained);
}

#[test]
fn all_notes_off_frees_every_voice() {
    let mut s = poly();
    s.note_on(60, &QUIET, &NONE_ATTACKING);
    s.set_sustain(true);
    s.all_notes_off();
    assert_eq!(s.notes, [0; MAX_VOICES]);
    assert!(!s.is_sustained);
}

#[test]
fn lfo_ticks_every_lfo_max_samples() {
    let mut s = Synth::new();
    assert!(s.lfo_tick());
    for _ in 1..LFO_MAX {
        assert!(!s.lfo_tick());
    }
    assert!(s.lfo_tick());
}

fn script(s: &mut Synth) -> Vec<String> {
    let mut out = Vec::new();
    let levels: [u32; MAX_VOICES] = [3, 1, 4, 1, 5, 9, 2, 6];
    out.push(format!("{:?}", s.note_on(60, &levels, &NONE_ATTACKING)));
    out.push(format!("{:?}", s.note_on(64, &levels, &NONE_ATTACKING)));
    out.push(format!("{:?}", s.note_off(60).released));
    for _ in 0..40 {
        out.push(format!("{} {}", s.lfo_tick(), s.next_noise()));
    }
    out
}

#[test]
fn reset_then_same_events_reproduces_output() {
    let mut a = poly();
    let mut b = poly();
    b.note_on(70, &QUIET, &NONE_ATTACKING);
    for _ in 0..13 {
        b.lfo_tick();
        b.next_noise();
    }
    a.reset();
    b.reset();
    assert_eq!(script(&mut a), script(&mut b));
    assert_eq!(a.notes, b.notes);
}

#[test]
fn controllers_are_recognised() {
    assert_eq!(controller(0x01), Controller::ModWheel);
    assert_eq!(controller(0x4A), Controller::FilterUp);
    assert_eq!(controller(0x4B), Controller::FilterDown);
    assert_eq!(controller(0x40), Controller::SustainPedal);
    assert_eq!(controller(120), Controller::AllNotesOff);
    assert_eq!(controller(123), Controller::AllNotesOff);
    assert_eq!(controller(0x07), Controller::Ignored);
}

#[test]
fn start_voice_sets_note_and_glide_reference() {
    let mut s = Synth::new();
    s.configure(PolyMode::Poly, GlideMode::Legato);
    assert_eq!(s.start_voice(3, 62), NoteCommand::Start { voice: 3, note: 62, glide_distance: 0 });
    assert_eq!(s.notes[3], 62);
    assert_eq!(s.last_note, 62);
    assert!(s.is_playing_legato_style());
    assert_eq!(s.start_voice(5, 57), NoteCommand::Start { voice: 5, note: 57, glide_distance: -5 });
}

#[test]
fn poly_keys_stay_unique_across_steals() {
    let mut s = poly();
    for n in 40..60 {
        let mut levels = [0u32; MAX_VOICES];
        for (k, l) in levels.iter_mut().enumerate() {
            *l = ((k as i32 * 5 + n) % 8) as u32;
        }
        s.note_on(n, &levels, &NONE_ATTACKING);
        let keys: Vec<i32> = s.notes.iter().copied().filter(|n| *n > 0).collect();
        let mut sorted = keys.clone();
        sorted.sort();
        sorted.dedup();
        assert_eq!(sorted.len(), keys.len());
    }
}

#[test]
fn poly_key_pressed_again_restarts_its_voice() {
    let mut s = poly();
    assert_eq!(s.note_on(60, &QUIET, &NONE_ATTACKING), NoteCommand::Start { voice: 0, note: 60, glide_distance: 0 });
    // Voice 0 is still in its attack; voice 1 is the quietest other voice.
    let levels: [u32; MAX_VOICES] = [9, 0, 9, 9, 9, 9, 9, 9];
    let attack = [true, false, false, false, false, false, false, false];
    assert_eq!(s.note_on(60, &levels, &attack), NoteCommand::Start { voice: 0, note: 60, glide_distance: 0 });
    assert_eq!(s.notes.iter().filter(|n| **n == 60).count(), 1);
}

#[test]
fn mono_key_pressed_again_is_not_queued_twice() {
    let mut s = Synth::new();
    s.note_on(60, &QUIET, &NONE_ATTACKING);
    s.note_on(64, &QUIET, &NONE_ATTACKING);
    // 60 waits in the queue; pressing it again takes it out of the queue.
    assert_eq!(s.note_on(60, &QUIET, &NONE_ATTACKING), NoteCommand::Retarget { note: 60, glide: false });
    assert_eq!(&s.notes[..3], &[60, 64, 0]);
    // Pressing the sounding key again leaves the queue alone.
    assert_eq!(s.note_on(60, &QUIET, &NONE_ATTACKING), NoteCommand::Retarget { note: 60, glide: false });
    assert_eq!(&s.notes[..3], &[60, 64, 0]);
    let r = s.note_off(60);
    assert_eq!(r.retarget, Some(NoteCommand::Retarget { note: 64, glide: false }));
    assert_eq!(s.notes[0], 64);
}

#[test]
fn reset_lifts_the_sustain_pedal() {
    let mut a = poly();
    let mut b = poly();
    b.set_sustain(true);
    a.reset();
    b.reset();
    assert!(!b.is_sustained);
    a.note_on(60, &QUIET, &NONE_ATTACKING);
    b.note_on(60, &QUIET, &NONE_ATTACKING);
    assert_eq!(a.note_off(60).released, b.note_off(60).released);
    assert_eq!(a.notes, b.notes);
}
