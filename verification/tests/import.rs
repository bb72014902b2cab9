use repeater::import::{
    basic_entry, build_exports, chars_le, clean_field, cloze_entry, convert_cloze, deck_components,
    deck_info, format_section, is_package_extension, model_kind, parse_decks, parse_models,
    plan_exports, rewrite_matches, sanitize_component, split_fields, CardRecord, DeckCards,
    ModelKind,
};
use std::collections::HashMap;

#[test]
fn clean_field_strips_markup_and_decodes_entities() {
    let input = "<div>Hello &amp; <strong>world</strong></div>";
    assert_eq!(clean_field(input), "Hello & world");
}

#[test]
fn basic_entry_swaps_fields_on_reverse_cards() {
    let fields: Vec<String> = vec!["Front".into(), "Back".into()];
    let forward = basic_entry(&fields, 0).unwrap();
    assert!(forward.contains("Q: Front"));
    assert!(forward.contains("A: Back"));

    let reverse = basic_entry(&fields, 1).unwrap();
    assert!(reverse.contains("Q: Back"));
    assert!(reverse.contains("A: Front"));

    assert!(basic_entry(&["Only".into()], 0).is_none());
}

#[test]
fn convert_cloze_rewrites_all_cloze_blocks() {
    let text = "Capital {{c1::Tokyo}} and {{c2::Kyoto::hint}}";
    assert_eq!(convert_cloze(text), "Capital [Tokyo] and [Kyoto]");
}

#[test]
fn deck_components_sanitizes_segments_and_falls_back() {
    assert_eq!(
        deck_components("Data Science::/ETL?:"),
        vec!["Data Science".to_string(), "-ETL--".to_string()]
    );
    assert_eq!(deck_components(""), vec!["Deck".to_string()]);
}

#[test]
fn clean_field_turns_breaks_into_lines() {
    assert_eq!(
        clean_field("one<br>two<br />three\r\nfour<p>five</p><ul><li>six</li><li>seven</li></ul>"),
        "one\ntwo\nthree\nfour\nfive\n\n- six\n- seven"
    );
    assert_eq!(clean_field("  <b></b> "), "");
    assert_eq!(clean_field("a < b and c > d"), "a  d");
    assert_eq!(clean_field("x <> y &lt;tag&gt; &#233;"), "x <> y <tag> é");
    assert_eq!(clean_field("日本<SPAN\nclass='x'>語</SPAN>"), "日本語");
}

#[test]
fn split_fields_cleans_each_field() {
    assert_eq!(
        split_fields("Front<br>\u{1f} <i>Back</i> \u{1f}"),
        vec!["Front".to_string(), "Back".to_string(), String::new()]
    );
    assert_eq!(split_fields(""), vec![String::new()]);
}

#[test]
fn convert_cloze_trims_and_keeps_other_text() {
    assert_eq!(convert_cloze("no cloze here"), "no cloze here");
    assert_eq!(convert_cloze("{{c1:: 東京 }}は{{c12::首都\nです::ヒント}}"), "[東京]は[首都\nです]");
    assert_eq!(convert_cloze("{{c1::}} {{cx::no}}"), "[] {{cx::no}}");
}

#[test]
fn rewrite_matches_passes_over_bad_spans() {
    let text = "aé<b>c";
    // the tag lies at bytes 3..6; 2 cuts the two-byte letter
    assert_eq!(rewrite_matches(text, &vec![(3, 6, None)], false), "aéc");
    assert_eq!(rewrite_matches(text, &vec![(2, 6, None)], false), text);
    assert_eq!(rewrite_matches(text, &vec![(3, 6, None), (0, 1, None)], false), "aéc");
    assert_eq!(rewrite_matches(text, &vec![(6, 3, None), (3, 60, None)], false), text);
    assert_eq!(rewrite_matches(text, &vec![(3, 6, Some((4, 5)))], true), "aé[b]c");
    assert_eq!(rewrite_matches(text, &vec![(3, 6, Some((2, 5)))], true), "aé[]c");
    assert_eq!(rewrite_matches(text, &vec![(0, 1, None), (1, 3, Some((1, 3)))], true), "[][é]<b>c");
    assert_eq!(rewrite_matches(text, &vec![], true), text);
}

#[test]
fn sanitize_component_replaces_reserved_characters() {
    assert_eq!(sanitize_component("  ..hidden "), "hidden");
    assert_eq!(sanitize_component("a/b\\c:d*e?f\"g<h>i|j"), "a-b-c-d-e-f-g-h-i-j");
    assert_eq!(sanitize_component(" . "), "");
    assert_eq!(sanitize_component(". x"), "x");
    assert_eq!(sanitize_component("..."), "");
    assert_eq!(deck_components(":: ::.::"), vec!["Deck".to_string()]);
    assert_eq!(deck_components("a:::b"), vec!["a".to_string(), "-b".to_string()]);
}

#[test]
fn entries_have_the_file_layout() {
    let fields: Vec<String> = vec![" Front ".into(), "Back\n".into()];
    assert_eq!(basic_entry(&fields, 0).unwrap(), "Q: Front\nA: Back\n\n");
    assert_eq!(basic_entry(&fields, -1).unwrap(), "Q: Back\nA: Front\n\n");
    assert_eq!(basic_entry(&fields, -2).unwrap(), "Q: Front\nA: Back\n\n");
    assert_eq!(basic_entry(&fields, i64::MIN).unwrap(), "Q: Front\nA: Back\n\n");
    assert_eq!(basic_entry(&fields, i64::MAX).unwrap(), "Q: Back\nA: Front\n\n");
    assert!(basic_entry(&["x".into(), "  ".into()], 0).is_none());
    assert!(basic_entry(&["  ".into(), "x".into()], 0).is_none());
    assert_eq!(
        cloze_entry(&["The {{c1::sun}} is a {{c2::star::kind}} ".to_string()]).unwrap(),
        "C: The [sun] is a [star]\n\n"
    );
    assert!(cloze_entry(&[]).is_none());
    assert!(cloze_entry(&["   ".to_string()]).is_none());
    assert_eq!(format_section("Q", "  why? "), Some("Q: why?\n".to_string()));
    assert_eq!(format_section("Q", " \n"), None);
}

fn record(deck_id: i64, model_id: i64, card_order: i64, fields: &[&str]) -> CardRecord {
    CardRecord {
        deck_id,
        model_id,
        card_order,
        fields: fields.iter().map(|f| f.to_string()).collect(),
    }
}

#[test]
fn build_exports_groups_by_deck_and_drops_duplicates() {
    let mut models = HashMap::new();
    models.insert(1, ModelKind::Basic);
    models.insert(2, ModelKind::Cloze);
    let cards = vec![
        record(20, 1, 0, &["What is a star?", "A sun"]),
        record(10, 2, 0, &["The {{c1::moon}} orbits"]),
        record(20, 9, 0, &["unknown", "model"]),
        record(20, 1, 0, &["  what is A STAR ", "a sun!"]),
        record(20, 1, 1, &["What is a star?", "A sun"]),
        record(10, 1, 0, &["only one field"]),
        record(30, 1, 0, &["the", "of"]),
        record(10, 2, 0, &["Mars is [red]"]),
    ];
    let exports = build_exports(cards, &models);
    assert_eq!(exports.duplicates, 1);
    assert_eq!(exports.unknown_models, vec![9]);
    let per_deck: Vec<(i64, Vec<String>)> =
        exports.per_deck.iter().map(|d| (d.deck_id, d.cards.clone())).collect();
    assert_eq!(
        per_deck,
        vec![
            (
                20,
                vec![
                    "Q: What is a star?\nA: A sun\n\n".to_string(),
                    "Q: A sun\nA: What is a star?\n\n".to_string(),
                ]
            ),
            (
                10,
                vec!["C: The [moon] orbits\n\n".to_string(), "C: Mars is [red]\n\n".to_string()]
            ),
            (30, vec!["Q: the\nA: of\n\n".to_string()]),
        ]
    );
    let nothing = build_exports(vec![], &models);
    assert!(nothing.per_deck.is_empty());
    assert_eq!(nothing.duplicates, 0);
}

#[test]
fn models_and_decks_are_read_by_id() {
    assert_eq!(model_kind(Some(1)), ModelKind::Cloze);
    assert_eq!(model_kind(Some(0)), ModelKind::Basic);
    assert_eq!(model_kind(Some(7)), ModelKind::Basic);
    assert_eq!(model_kind(None), ModelKind::Basic);
    let models = parse_models(&vec![
        (Some(5), Some(1)),
        (None, Some(1)),
        (Some(6), None),
        (Some(5), Some(0)),
    ]);
    assert_eq!(models.len(), 2);
    assert_eq!(models[&5], ModelKind::Basic);
    assert_eq!(models[&6], ModelKind::Basic);

    let decks = parse_decks(&vec![
        (Some(1), Some("Data Science::stats".to_string())),
        (None, Some("lost".to_string())),
        (Some(2), None),
    ]);
    assert_eq!(decks.len(), 2);
    assert_eq!(decks[&1].name, "Data Science::stats");
    assert_eq!(decks[&1].components, vec!["Data Science".to_string(), "stats".to_string()]);
    assert_eq!(decks[&2].name, "Deck");
    assert_eq!(decks[&2].components, vec!["Deck".to_string()]);
    assert_eq!(deck_info(Some("a::b::c")).components.len(), 3);
}

#[test]
fn texts_are_ordered_character_by_character() {
    let le = |a: &str, b: &str| chars_le(&a.chars().collect(), &b.chars().collect());
    assert!(le("", ""));
    assert!(le("", "a"));
    assert!(!le("a", ""));
    assert!(le("abc", "abc"));
    assert!(le("abc", "abd"));
    assert!(!le("abd", "abc"));
    assert!(le("ab", "abc"));
    assert!(!le("abc", "ab"));
    assert!(le("Z", "a"));
    assert!(le("z", "é"));
    for (a, b) in [("Data", "Default"), ("x", "x"), ("日本", "本"), ("b", "a")] {
        assert_eq!(le(a, b), a <= b);
    }
}

#[test]
fn exports_are_planned_by_deck_name() {
    let decks = parse_decks(&vec![
        (Some(1), Some("Zoology".to_string())),
        (Some(2), Some("Data Science::stats".to_string())),
        (Some(3), Some("Data Science::stats".to_string())),
        (Some(4), Some("Empty".to_string())),
        (Some(5), Some("::".to_string())),
    ]);
    let cards = |id: i64, texts: &[&str]| DeckCards {
        deck_id: id,
        cards: texts.iter().map(|t| t.to_string()).collect(),
    };
    let plan = plan_exports(
        &decks,
        vec![
            cards(1, &["Q: z\nA: z\n\n"]),
            cards(3, &["C: [later]\n\n"]),
            cards(4, &[]),
            cards(2, &["Q: a\nA: b\n\n", "C: [c]\n\n"]),
            cards(5, &["C: [x]\n\n"]),
        ],
    );
    assert_eq!(plan.missing, None);
    let files: Vec<(i64, Vec<String>, String, String, usize)> = plan
        .files
        .iter()
        .map(|f| (f.deck_id, f.directories.clone(), f.file_name.clone(), f.content.clone(), f.cards))
        .collect();
    assert_eq!(
        files,
        vec![
            (5, vec![], "Deck.md".to_string(), "C: [x]\n\n".to_string(), 1),
            (
                3,
                vec!["Data Science".to_string()],
                "stats.md".to_string(),
                "C: [later]\n\n".to_string(),
                1
            ),
            (
                2,
                vec!["Data Science".to_string()],
                "stats.md".to_string(),
                "Q: a\nA: b\n\nC: [c]\n\n".to_string(),
                2
            ),
            (1, vec![], "Zoology.md".to_string(), "Q: z\nA: z\n\n".to_string(), 1),
        ]
    );

    let plan = plan_exports(
        &decks,
        vec![cards(1, &["a"]), cards(77, &["b"]), cards(5, &["c"]), cards(78, &["d"])],
    );
    // decks that are not known sort first, under no name
    assert_eq!(plan.missing, Some(77));
    assert!(plan.files.is_empty());
    assert!(plan_exports(&decks, vec![]).files.is_empty());
}

#[test]
fn package_extension_is_apkg() {
    assert!(is_package_extension(Some("apkg")));
    assert!(!is_package_extension(Some("APKG")));
    assert!(!is_package_extension(Some("zip")));
    assert!(!is_package_extension(None));
}
