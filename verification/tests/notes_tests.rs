use railbreaker::notes::{default_note, default_notes, number_chars, Note};

#[test]
fn a_note_names_its_race_and_horse() {
    let note = Note { race: 3, horse: 7, content: "wide trip".to_string() };
    assert_eq!(note.race, 3);
    assert_eq!(note.horse, 7);
    assert_eq!(note.content, "wide trip");
}

#[test]
fn numbers_in_decimal_digits() {
    for n in [0u32, 1, 9, 10, 11, 99, 100, 101, 1320, 65535, 4_294_967_295] {
        let got: String = number_chars(n).into_iter().collect();
        assert_eq!(got, n.to_string());
    }
}

#[test]
fn a_fresh_note_names_race_and_horse_in_words() {
    let note = default_note(3, 12);
    assert_eq!(note.race, 3);
    assert_eq!(note.horse, 12);
    assert_eq!(note.content, "Race 3 Horse 12");
    assert_eq!(default_note(0, u32::MAX).content, "Race 0 Horse 4294967295");
}

#[test]
fn a_card_starts_with_one_note_for_each_horse() {
    let notes = default_notes(&vec![(1, 1), (1, 2), (2, 1)]);
    let contents: Vec<&str> = notes.iter().map(|n| n.content.as_str()).collect();
    assert_eq!(contents, vec!["Race 1 Horse 1", "Race 1 Horse 2", "Race 2 Horse 1"]);
    assert_eq!(notes[2].race, 2);
    assert_eq!(notes[2].horse, 1);
    assert!(default_notes(&Vec::new()).is_empty());
}
