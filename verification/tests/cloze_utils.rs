use repeater::card::{Card, CardContent, ClozeRange};
use repeater::cloze_utils::{build_user_prompt, cloze_user_prompt, find_cloze_ranges, mask_cloze_text};

#[test]
fn mask_cloze_text_handles_unicode_and_bad_ranges() {
    let text = "Capital of 日本 is [東京]";

    let cloze_idxs = find_cloze_ranges(text);
    let range: ClozeRange = cloze_idxs
        .first()
        .map(|(start, end)| ClozeRange::new(*start, *end))
        .transpose()
        .unwrap()
        .unwrap();
    let masked = mask_cloze_text(text, &range);
    assert_eq!(masked, "Capital of 日本 is [___]");

    let text = "Capital of 日本 is [longer text is in this bracket]";

    let cloze_idxs = find_cloze_ranges(text);
    let range: ClozeRange = cloze_idxs
        .first()
        .map(|(start, end)| ClozeRange::new(*start, *end))
        .transpose()
        .unwrap()
        .unwrap();
    let masked = mask_cloze_text(text, &range);
    assert_eq!(
        masked,
        "Capital of 日本 is [______________________________]"
    );
}

#[test]
fn test_user_prompt() {
    let card_text = "the moon revolves around the earth";
    let user_prompt = build_user_prompt(1, card_text);
    assert_eq!(
        user_prompt,
        "\n\u{1b}[36mrepeater\u{1b}[0m found \u{1b}[33m1\u{1b}[0m cloze card missing bracketed deletions.\n\n\u{1b}[2mExample needing a Cloze:\u{1b}[0m\nthe moon revolves around the earth\n\n\u{1b}[36mrepeater\u{1b}[0m can send this text to an LLM to generate a Cloze for you.\n"
    );

    let user_prompt = build_user_prompt(3, card_text);
    assert_eq!(
        user_prompt,
        "\n\u{1b}[36mrepeater\u{1b}[0m found \u{1b}[33m3\u{1b}[0m cloze cards missing bracketed deletions.\n\n\u{1b}[2mExample needing a Cloze:\u{1b}[0m\nthe moon revolves around the earth\n\n\u{1b}[36mrepeater\u{1b}[0m can send this text along with \u{1b}[33m2\u{1b}[0m other cards to an LLM to generate a Cloze for you.\n"
    )
}

#[test]
fn find_cloze_ranges_counts_bytes_and_ignores_nested_openers() {
    assert_eq!(find_cloze_ranges("a [b] c"), vec![(2, 5)]);
    assert_eq!(find_cloze_ranges("é[x]"), vec![(2, 5)]);
    assert_eq!(find_cloze_ranges("[a [b] c] ]"), vec![(0, 6)]);
    assert_eq!(find_cloze_ranges("[a] [b]"), vec![(0, 3), (4, 7)]);
    assert_eq!(find_cloze_ranges("] [ no end"), Vec::<(usize, usize)>::new());
}

#[test]
fn mask_cloze_text_leaves_text_on_bad_span() {
    let text = "日本 [x]";
    assert_eq!(mask_cloze_text(text, &ClozeRange { start: 1, end: 4 }), text);
    assert_eq!(mask_cloze_text(text, &ClozeRange { start: 7, end: 40 }), text);
    assert_eq!(mask_cloze_text(text, &ClozeRange { start: 8, end: 7 }), text);
    assert_eq!(mask_cloze_text(text, &ClozeRange { start: 7, end: 10 }), "日本 [___]");
    assert_eq!(mask_cloze_text("[[abcd]]", &ClozeRange { start: 0, end: 8 }), "[____]");
}

#[test]
fn cloze_range_new_refuses_empty_spans() {
    assert_eq!(ClozeRange::new(2, 5), Ok(ClozeRange { start: 2, end: 5 }));
    assert!(ClozeRange::new(5, 5).is_err());
    assert!(ClozeRange::new(6, 5).is_err());
}

fn cloze_card(text: &str, start: usize, end: usize) -> Card {
    Card {
        file_path: "deck.md".to_string(),
        file_card_range: (0, 1),
        content: CardContent::Cloze { text: text.to_string(), start, end },
        card_hash: text.to_string(),
    }
}

#[test]
fn cloze_user_prompt_counts_cards_without_deletion() {
    let basic = Card {
        file_path: "deck.md".to_string(),
        file_card_range: (0, 1),
        content: CardContent::Basic { question: "q".to_string(), answer: "a".to_string() },
        card_hash: "h".to_string(),
    };
    let whole = cloze_card("sun [star]", 4, 9);
    assert_eq!(cloze_user_prompt(&[basic.clone(), whole.clone()]), None);
    assert_eq!(cloze_user_prompt(&[]), None);

    let first = cloze_card("the moon", 0, 0);
    let second = cloze_card("the sea", 0, 0);
    let prompt = cloze_user_prompt(&[basic, first, whole, second]).unwrap();
    assert_eq!(prompt, build_user_prompt(2, "the moon"));
    assert!(prompt.contains("along with \u{1b}[33m1\u{1b}[0m other card to an LLM"));
}
