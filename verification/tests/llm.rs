use repeater::card::{Card, CardContent};
use repeater::llm::{
    cloze_request, cloze_suggestions, first_text, get_cloze_prompt, rephrase_request, wants_cloze,
};
use repeater::question_utils::{
    basic_questions, build_user_prompt, rephrase_offer, replace_question,
};

fn basic(hash: &str, question: &str, answer: &str) -> Card {
    Card {
        file_path: "deck.md".to_string(),
        file_card_range: (0, 1),
        content: CardContent::Basic { question: question.to_string(), answer: answer.to_string() },
        card_hash: hash.to_string(),
    }
}

fn cloze(hash: &str) -> Card {
    Card {
        file_path: "deck.md".to_string(),
        file_card_range: (0, 1),
        content: CardContent::Cloze { text: "a [b]".to_string(), start: 2, end: 4 },
        card_hash: hash.to_string(),
    }
}

fn question_of(card: &Card) -> String {
    match &card.content {
        CardContent::Basic { question, .. } => question.clone(),
        CardContent::Cloze { text, .. } => text.clone(),
    }
}

#[test]
fn cloze_prompt_wraps_the_text() {
    assert_eq!(
        get_cloze_prompt("the sun"),
        "There is a Cloze text in your collection that doesn't have a valid cloze []:\n\nthe sun\nIf you'd like to use an LLM to turn this into a Cloze, we can send your text to an LLM to generate a Cloze.\n\n"
    );
    assert_eq!(
        cloze_request("the sun"),
        "Turn the following text into a Cloze card by inserting [] around the hidden portion:\nthe sun"
    );
    assert!(wants_cloze(" x "));
    assert!(!wants_cloze(" \n\t"));
    assert!(!wants_cloze(""));
}

#[test]
fn suggestions_are_lines_without_marks() {
    let answers = vec![
        "- The [sun] is a star\n* -- The sun is a [star]\r\n\n  -  \n".to_string(),
        "plain [line]".to_string(),
        String::new(),
    ];
    assert_eq!(
        cloze_suggestions(&answers),
        vec![
            "The [sun] is a star".to_string(),
            "-- The sun is a [star]".to_string(),
            "plain [line]".to_string(),
        ]
    );
    assert!(cloze_suggestions(&vec![]).is_empty());
}

#[test]
fn rephrase_request_and_first_text() {
    assert_eq!(
        rephrase_request("why?", "because"),
        "Rewrite the question below so it is clearer, but keep the meaning the same.\nReturn only the rewritten question.\n\nQuestion: why?\nAnswer (for context; do not reveal): because"
    );
    assert_eq!(
        first_text(&vec!["  ".to_string(), " Why so? \n".to_string(), "later".to_string()]),
        Some("Why so?".to_string())
    );
    assert_eq!(first_text(&vec![" ".to_string(), String::new()]), None);
    assert_eq!(first_text(&vec![]), None);
}

#[test]
fn rephrase_offer_counts_basic_questions() {
    assert_eq!(
        build_user_prompt(1, "why?"),
        "\n\u{1b}[36mrepeater\u{1b}[0m can rephrase \u{1b}[33m1\u{1b}[0m basic question before this drill session.\n\n\u{1b}[2mExample question:\u{1b}[0m\nwhy?\n"
    );
    assert_eq!(
        build_user_prompt(12, "why?"),
        "\n\u{1b}[36mrepeater\u{1b}[0m can rephrase \u{1b}[33m12\u{1b}[0m basic questions before this drill session.\n\n\u{1b}[2mExample question:\u{1b}[0m\nwhy?\n"
    );
    let cards = vec![cloze("c"), basic("a", "first?", "1"), basic("b", "second?", "2")];
    let questions = basic_questions(&cards);
    assert_eq!(questions.len(), 2);
    assert_eq!(questions[0].card_hash, "a");
    assert_eq!(questions[0].question, "first?");
    assert_eq!(questions[1].answer, "2");
    assert_eq!(rephrase_offer(&questions), Some(build_user_prompt(2, "first?")));
    assert_eq!(rephrase_offer(&basic_questions(&[cloze("c")])), None);
}

#[test]
fn replace_question_rewrites_the_last_card_of_the_identity() {
    let mut cards = vec![basic("a", "old a", "1"), cloze("c"), basic("a", "old a again", "1")];
    replace_question(&mut cards, &"a".to_string(), "new a".to_string());
    assert_eq!(question_of(&cards[0]), "old a");
    assert_eq!(question_of(&cards[2]), "new a");
    replace_question(&mut cards, &"c".to_string(), "ignored".to_string());
    assert_eq!(question_of(&cards[1]), "a [b]");
    replace_question(&mut cards, &"zz".to_string(), "ignored".to_string());
    assert_eq!(cards.len(), 3);
    assert_eq!(question_of(&cards[0]), "old a");
}
