//! The keys of a piano.

use std::collections::HashSet;
use vstd::prelude::*;

verus! {

broadcast use vstd::std_specs::hash::group_hash_axioms;

/// A key by its MIDI number.
pub type NoteId = u8;

/// Whether a MIDI note is played on a black key: the second, fourth, seventh, ninth and
/// eleventh semitone of each octave.
pub open spec fn black_key(midi_note: u8) -> bool {
    let pitch = midi_note % 12;
    pitch == 1 || pitch == 3 || pitch == 6 || pitch == 8 || pitch == 10
}

/// Tells whether a MIDI note is played on a black key.
pub fn is_black_key(midi_note: u8) -> (black: bool)
    ensures
        black == black_key(midi_note),
{
    let pitch: u8 = midi_note % 12;
    pitch == 1 || pitch == 3 || pitch == 6 || pitch == 8 || pitch == 10
}

/// The velocity with which a guide light of a note is switched on; it tells the light its
/// color.
pub open spec fn guide_velocity(midi_note: u8) -> u8 {
    if black_key(midi_note) {
        120
    } else {
        80
    }
}

/// The velocity for the guide light of a note.
pub(crate) fn exec_guide_velocity(midi_note: u8) -> (vel: u8)
    ensures
        vel == guide_velocity(midi_note),
{
    if is_black_key(midi_note) {
        120
    } else {
        80
    }
}

/// The keys that the instrument of the user has. Its view is the set of them.
#[derive(Debug)]
pub struct KeyboardRange {
    keys: HashSet<NoteId>,
}

impl View for KeyboardRange {
    type V = Set<NoteId>;

    closed spec fn view(&self) -> Set<NoteId> {
        self.keys@
    }
}

impl KeyboardRange {
    /// The range made up of `keys`.
    pub fn new(keys: HashSet<NoteId>) -> (range: KeyboardRange)
        ensures
            range@ == keys@,
    {
        KeyboardRange { keys }
    }

    /// Tells whether the instrument has a key.
    pub fn contains(&self, note_id: NoteId) -> (contained: bool)
        ensures
            contained == self@.contains(note_id),
    {
        self.keys.contains(&note_id)
    }
}

/// The colors repeat with every octave: counted from its first key, the black ones are those
/// after one, three, six, eight and ten semitones. The guide of a black key is lit at velocity
/// 120, that of a white key at 80.
pub proof fn law_colors_repeat_with_every_octave(midi_note: u8, octave: int, semitones: int)
    requires
        midi_note == 12 * octave + semitones,
        0 <= semitones < 12,
    ensures
        black_key(midi_note) <==> {
            semitones == 1 || semitones == 3 || semitones == 6 || semitones == 8 || semitones == 10
        },
        black_key(midi_note) ==> guide_velocity(midi_note) == 120,
        !black_key(midi_note) ==> guide_velocity(midi_note) == 80,
{
}

} // verus!
