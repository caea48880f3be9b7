//! Notes on the horses of a card, and the notes that a card starts with.

use vstd::prelude::*;
use vstd::string::StringExecFns;
use crate::text::{number_text, number_text_spec, string_of};

verus! {

/// A note on a horse of a race.
#[derive(Debug, Clone)]
pub struct Note {
    pub race: u32,
    pub horse: u32,
    pub content: String,
}

/// A note with its content as characters.
pub struct NoteView {
    pub race: u32,
    pub horse: u32,
    pub content: Seq<char>,
}

impl View for Note {
    type V = NoteView;

    open spec fn view(&self) -> NoteView {
        NoteView { race: self.race, horse: self.horse, content: self.content@ }
    }
}

/// What a note says before anyone has written it: `Race`, the number of
/// the race, `Horse`, the number of the horse.
pub open spec fn default_content(race: u32, horse: u32) -> Seq<char> {
    "Race "@ + number_text_spec(race as nat) + " Horse "@ + number_text_spec(horse as nat)
}

/// The note that a horse of a race starts with.
pub open spec fn default_note_spec(race: u32, horse: u32) -> NoteView {
    NoteView { race, horse, content: default_content(race, horse) }
}

/// The digits of `n`.
pub fn number_chars(n: u32) -> (digits: Vec<char>)
    ensures
        digits@ == number_text_spec(n as nat),
{
    number_text(n as u64)
}

/// The note that the horse `horse` of the race `race` starts with.
pub fn default_note(race: u32, horse: u32) -> (note: Note)
    ensures
        note@ == default_note_spec(race, horse),
{
    let race_text = string_of(&number_chars(race));
    let horse_text = string_of(&number_chars(horse));
    let mut content = String::from_str("Race ");
    content.append(race_text.as_str());
    content.append(" Horse ");
    content.append(horse_text.as_str());
    Note { race, horse, content }
}

/// The notes that a card starts with: one for each pair of a race and a
/// horse, in the order of the pairs.
pub fn default_notes(races: &Vec<(u32, u32)>) -> (notes: Vec<Note>)
    ensures
        notes@.len() == races@.len(),
        forall|i: int|
            0 <= i < notes@.len() ==> (#[trigger] notes@[i])@ == default_note_spec(
                races@[i].0,
                races@[i].1,
            ),
{
    let mut notes: Vec<Note> = Vec::new();
    let mut i: usize = 0;
    while i < races.len()
        invariant
            i <= races@.len(),
            notes@.len() == i,
            forall|k: int|
                0 <= k < i ==> (#[trigger] notes@[k])@ == default_note_spec(
                    races@[k].0,
                    races@[k].1,
                ),
        decreases races@.len() - i,
    {
        let pair = races[i];
        notes.push(default_note(pair.0, pair.1));
        i += 1;
    }
    notes
}

} // verus!
