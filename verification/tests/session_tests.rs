use memoradical::card::{default_cards, Card, Face};
use memoradical::random::SplitMixSource;
use memoradical::session::{Command, Effect, Mode, Session};

fn deck(n: usize) -> Vec<Card> {
    let mut v = Vec::new();
    for i in 0..n {
        v.push(Card::new(&format!("front {}", i), &format!("back {}", i)));
    }
    v
}

fn study_session(n: usize) -> (Session, SplitMixSource) {
    let mut s = Session::new(deck(n));
    let mut source = SplitMixSource::new(1234);
    s.ensure_current(&mut source);
    (s, source)
}

#[test]
fn new_session_selects_on_first_step() {
    let (s, _) = study_session(4);
    let current = s.scheduler.current.expect("study mode selects a card");
    assert!(current < 4);
    assert_eq!(s.mode, Mode::Study);
    assert_eq!(s.flags.prefer_missed, true);
    assert_eq!(s.flags.prefer_neglected, false);
    assert_eq!(s.flags.reverse_mode, false);
}

#[test]
fn hit_records_on_current_card_and_stores() {
    let (mut s, mut source) = study_session(3);
    let current = s.scheduler.current.unwrap();
    let (effects, redraw) = s.update(Command::Hit, &mut source);
    assert!(redraw);
    assert_eq!(s.cards[current].hits, 1);
    assert_eq!(s.cards[current].misses, 0);
    assert!(matches!(effects[0], Effect::StoreCards));
    assert!(matches!(s.visible_face, Face::Prompt));
}

#[test]
fn miss_in_reverse_mode_records_reverse_count() {
    let (mut s, mut source) = study_session(3);
    s.update(Command::ReverseModeToggle, &mut source);
    let current = s.scheduler.current.unwrap();
    s.update(Command::Miss, &mut source);
    assert_eq!(s.cards[current].reverse_misses, 1);
    assert_eq!(s.cards[current].misses, 0);
}

#[test]
fn next_then_prev_returns_to_the_shown_card() {
    let (mut s, mut source) = study_session(6);
    let first = s.scheduler.current.unwrap();
    s.update(Command::Next, &mut source);
    let second = s.scheduler.current.unwrap();
    assert_ne!(first, second, "immediate repeat");
    s.update(Command::Prev, &mut source);
    assert_eq!(s.scheduler.current, Some(first));
}

#[test]
fn flip_toggles_the_visible_face() {
    let (mut s, mut source) = study_session(2);
    assert!(matches!(s.visible_face, Face::Prompt));
    s.update(Command::Flip, &mut source);
    assert!(matches!(s.visible_face, Face::Response));
    s.update(Command::Flip, &mut source);
    assert!(matches!(s.visible_face, Face::Prompt));
}

#[test]
fn delete_needs_arming_then_removes() {
    let (mut s, mut source) = study_session(4);
    s.scheduler.current = Some(3);
    let (effects, _) = s.update(Command::DeleteCard(1), &mut source);
    assert_eq!(s.cards.len(), 4, "first request only arms");
    assert!(effects.is_empty());
    assert_eq!(s.deletion_target, Some(1));
    let (effects, _) = s.update(Command::DeleteCard(1), &mut source);
    assert_eq!(s.cards.len(), 3);
    assert!(matches!(effects[0], Effect::StoreCards));
    assert_eq!(s.deletion_target, None);
    // The current position above the deletion slid down by one.
    assert_eq!(s.scheduler.current, Some(2));
}

#[test]
fn delete_rearms_on_a_different_position() {
    let (mut s, mut source) = study_session(4);
    s.update(Command::DeleteCard(1), &mut source);
    s.update(Command::DeleteCard(2), &mut source);
    assert_eq!(s.cards.len(), 4);
    assert_eq!(s.deletion_target, Some(2));
}

#[test]
fn add_card_appends_from_entry_texts() {
    let (mut s, mut source) = study_session(2);
    s.update(Command::AddMode, &mut source);
    s.update(Command::UpdateNewFrontText("new front".to_string()), &mut source);
    s.update(Command::UpdateNewBackText("new back".to_string()), &mut source);
    let (effects, _) = s.update(Command::AddCard, &mut source);
    assert_eq!(s.cards.len(), 3);
    assert_eq!(s.cards[2].prompt, "new front");
    assert_eq!(s.cards[2].response, "new back");
    assert_eq!(s.cards[2].hits, 0);
    assert!(matches!(effects[0], Effect::StoreCards));
    assert_eq!(s.new_front_text, "");
    assert_eq!(s.new_back_text, "");
}

#[test]
fn edit_command_replaces_texts_of_current_card() {
    let (mut s, mut source) = study_session(3);
    s.update(Command::EditCard(Some(1)), &mut source);
    assert_eq!(s.mode, Mode::Edit);
    assert_eq!(s.scheduler.current, Some(1));
    assert_eq!(s.new_front_text, "front 1");
    s.update(Command::UpdateNewFrontText("edited".to_string()), &mut source);
    s.update(Command::AddCard, &mut source);
    assert_eq!(s.cards.len(), 3, "editing replaces, not appends");
    assert_eq!(s.cards[1].prompt, "edited");
    assert_eq!(s.mode, Mode::Study);
}

#[test]
fn import_replaces_collection_and_reselects() {
    let (mut s, mut source) = study_session(2);
    let text = r#"[{"prompt": "x", "response": "y", "hits": 0, "misses": 0}]"#;
    let (effects, _) = s.update(Command::StoreNewCards(text.to_string()), &mut source);
    assert_eq!(s.cards.len(), 1);
    assert_eq!(s.cards[0].prompt, "x");
    assert_eq!(s.scheduler.current, Some(0));
    assert!(matches!(effects[0], Effect::StoreCards));
    assert!(s.upload_error.is_none());
}

#[test]
fn malformed_import_changes_nothing() {
    // A malformed upload leaves the collection and the current position
    // exactly as they were and reports the error.
    let (mut s, mut source) = study_session(3);
    let cards_before: Vec<(String, String, u32, u32)> = s
        .cards
        .iter()
        .map(|c| (c.prompt.clone(), c.response.clone(), c.hits, c.misses))
        .collect();
    let current_before = s.scheduler.current;
    let (effects, redraw) = s.update(
        Command::StoreNewCards("this is not a card array".to_string()),
        &mut source,
    );
    assert!(redraw);
    assert!(matches!(effects[0], Effect::ScheduleUploadErrorClear));
    assert!(s.upload_error.is_some());
    assert_eq!(s.scheduler.current, current_before);
    let cards_after: Vec<(String, String, u32, u32)> = s
        .cards
        .iter()
        .map(|c| (c.prompt.clone(), c.response.clone(), c.hits, c.misses))
        .collect();
    assert_eq!(cards_before, cards_after);
}

#[test]
fn copy_cards_exports_pretty_text() {
    let (mut s, mut source) = study_session(1);
    let (effects, _) = s.update(Command::CopyCards, &mut source);
    match &effects[0] {
        Effect::CopyText(text) => {
            assert!(text.starts_with("[\n  {\n"));
            assert!(text.contains("\"prompt\": \"front 0\""));
        },
        _ => panic!("expected CopyText"),
    }
}

#[test]
fn upload_accepts_exactly_one_file() {
    let (mut s, mut source) = study_session(1);
    let (effects, _) = s.update(Command::UploadCards(2), &mut source);
    assert!(matches!(effects[0], Effect::ScheduleUploadErrorClear));
    assert!(s.upload_error.is_some());
    let (effects, _) = s.update(Command::UploadCards(1), &mut source);
    assert!(matches!(effects[0], Effect::ReadUploadedFile));
}

#[test]
fn toggles_flip_exactly_one_flag() {
    let (mut s, mut source) = study_session(1);
    s.update(Command::ChooseMissedToggle, &mut source);
    assert_eq!(s.flags.prefer_missed, false);
    assert_eq!(s.flags.prefer_neglected, false);
    s.update(Command::ChooseNeglectedToggle, &mut source);
    assert_eq!(s.flags.prefer_neglected, true);
    assert_eq!(s.flags.prefer_missed, false);
}

#[test]
fn help_mode_fetches_once() {
    let (mut s, mut source) = study_session(1);
    let (effects, _) = s.update(Command::HelpMode, &mut source);
    assert!(matches!(effects[0], Effect::FetchHelp));
    s.update(Command::SetHelp("<p>help</p>".to_string()), &mut source);
    let (effects, _) = s.update(Command::HelpMode, &mut source);
    assert!(effects.is_empty(), "help already fetched");
}

#[test]
fn default_deck_session_works_end_to_end() {
    let mut s = Session::new(default_cards());
    let mut source = SplitMixSource::new(9);
    s.ensure_current(&mut source);
    for _ in 0..20 {
        let cur = s.scheduler.current.unwrap();
        assert!(cur < s.cards.len());
        s.update(Command::Hit, &mut source);
        s.update(Command::Next, &mut source);
    }
    let total: u64 = s.cards.iter().map(|c| c.hits as u64).sum();
    assert_eq!(total, 20);
}
