use memoradical::card::{default_cards, Card};
use memoradical::json::parse_cards;
use memoradical::render::{cards_to_json, cards_to_json_pretty};

#[test]
fn parses_a_plain_collection() {
    let text = r#"[
        {"prompt": "a", "response": "b", "hits": 3, "misses": 1},
        {"prompt": "c", "response": "d", "hits": 0, "misses": 0,
         "reverse_hits": 2, "reverse_misses": null}
    ]"#;
    let cards = parse_cards(text).expect("well-formed");
    assert_eq!(cards.len(), 2);
    assert_eq!(cards[0].prompt, "a");
    assert_eq!(cards[0].response, "b");
    assert_eq!(cards[0].hits, 3);
    assert_eq!(cards[0].misses, 1);
    assert_eq!(cards[0].reverse_hits, 0);
    assert_eq!(cards[0].reverse_misses, 0);
    assert_eq!(cards[1].reverse_hits, 2);
    assert_eq!(cards[1].reverse_misses, 0);
}

#[test]
fn parses_empty_array() {
    assert_eq!(parse_cards("[]").unwrap().len(), 0);
    assert_eq!(parse_cards("  [ ]  ").unwrap().len(), 0);
}

#[test]
fn parses_string_escapes() {
    let text = r#"[{"prompt": "a\"b\\c\nd\teA", "response": "é and 😀",
                    "hits": 0, "misses": 0}]"#;
    let cards = parse_cards(text).expect("escapes are well-formed");
    assert_eq!(cards[0].prompt, "a\"b\\c\nd\teA");
    assert_eq!(cards[0].response, "\u{e9} and \u{1F600}");
}

#[test]
fn ignores_unknown_members() {
    let text = r#"[{"prompt": "a", "response": "b", "hits": 1, "misses": 2,
                    "notes": {"nested": [1, 2.5, -3e4, true, null, "x"], "deep": {"k": []}},
                    "starred": false}]"#;
    let cards = parse_cards(text).expect("unknown members are skipped");
    assert_eq!(cards[0].hits, 1);
    assert_eq!(cards[0].misses, 2);
}

#[test]
fn rejects_malformed_texts() {
    let bad = [
        "",
        "not json",
        "{}",
        "[",
        "[{]",
        r#"[{"prompt": "a", "response": "b", "hits": 1}]"#,  // missing misses
        r#"[{"prompt": "a", "response": "b", "hits": 1, "misses": -1}]"#,  // negative count
        r#"[{"prompt": "a", "response": "b", "hits": 01, "misses": 0}]"#,  // leading zero
        r#"[{"prompt": "a", "response": "b", "hits": 4294967296, "misses": 0}]"#,  // over ceiling
        r#"[{"prompt": "a", "response": "b", "hits": 1.5, "misses": 0}]"#,  // not an integer
        r#"[{"prompt": "a", "prompt": "b", "response": "c", "hits": 0, "misses": 0}]"#,  // duplicate
        r#"[{"prompt": "a", "response": "b", "hits": 0, "misses": 0}] trailing"#,
        r#"[{"prompt": "a", "response": "b", "hits": null, "misses": 0}]"#,  // null forward count
        r#"[{"prompt": "unterminated, "response": "b", "hits": 0, "misses": 0}]"#,
        r#"[{"prompt": "\ud800 lone surrogate", "response": "b", "hits": 0, "misses": 0}]"#,
        r#"[{"prompt": "bad \q escape", "response": "b", "hits": 0, "misses": 0}]"#,
    ];
    for text in bad {
        assert!(parse_cards(text).is_err(), "accepted: {}", text);
    }
}

#[test]
fn accepts_count_at_ceiling() {
    let text = r#"[{"prompt": "a", "response": "b", "hits": 4294967295, "misses": 0}]"#;
    let cards = parse_cards(text).expect("ceiling fits");
    assert_eq!(cards[0].hits, u32::MAX);
}

#[test]
fn renders_compact_exactly() {
    let mut c = Card::new("a\"b", "line\nbreak");
    c.hits = 12;
    c.misses = 0;
    let json = cards_to_json(&vec![c]);
    assert_eq!(
        json,
        "[{\"prompt\":\"a\\\"b\",\"response\":\"line\\nbreak\",\"hits\":12,\"misses\":0,\"reverse_hits\":0,\"reverse_misses\":0}]"
    );
}

#[test]
fn renders_empty_collection() {
    assert_eq!(cards_to_json(&Vec::new()), "[]");
    assert_eq!(cards_to_json_pretty(&Vec::new()), "[]");
}

#[test]
fn renders_pretty_layout() {
    let c = Card::new("a", "b");
    let json = cards_to_json_pretty(&vec![c]);
    let expected = "[\n  {\n    \"prompt\": \"a\",\n    \"response\": \"b\",\n    \"hits\": 0,\n    \"misses\": 0,\n    \"reverse_hits\": 0,\n    \"reverse_misses\": 0\n  }\n]";
    assert_eq!(json, expected);
}

#[test]
fn renders_control_characters_as_hex_escapes() {
    let c = Card::new("bell\u{7}", "form\u{c}feed");
    let json = cards_to_json(&vec![c]);
    assert!(json.contains("bell\\u0007"));
    assert!(json.contains("form\\ffeed"));
}

#[test]
fn render_then_parse_round_trips() {
    let mut cards = default_cards();
    cards[0].hits = 5;
    cards[1].misses = 7;
    cards[2].reverse_hits = 11;
    cards.push(Card::new("esc \" \\ \n \t \u{8} \u{1f} é 😀", "値"));
    for text in [cards_to_json(&cards), cards_to_json_pretty(&cards)] {
        let back = parse_cards(&text).expect("own output parses");
        assert_eq!(back.len(), cards.len());
        for (a, b) in cards.iter().zip(back.iter()) {
            assert_eq!(a.prompt, b.prompt);
            assert_eq!(a.response, b.response);
            assert_eq!(a.hits, b.hits);
            assert_eq!(a.misses, b.misses);
            assert_eq!(a.reverse_hits, b.reverse_hits);
            assert_eq!(a.reverse_misses, b.reverse_misses);
        }
    }
}
