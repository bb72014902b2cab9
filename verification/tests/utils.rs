use repeater::card::CardContent;
use repeater::utils::{
    cards_from_dir, cards_from_files, cards_from_md, content_to_card, get_hash, is_markdown,
    is_markdown_extension, parse_card_lines, trim_line, validate_file_can_be_card, CardError,
    PathError,
};

const TEST_MD: &str = "Q: What is the capital of France?\nA: Paris\n\nC: The [mitochondria] is the powerhouse of the cell.\n\nQ: What does\nFSRS stand for?\nA: Free Spaced\nRepetition Scheduler\n\nC:\nRegion: [`us-east-2`]\n\nLocation: Ohio\n";

#[test]
fn test_card_parsing() {
    let contents = "C:\nRegion: [`us-east-2`]\n\nLocation: [Ohio]\n\n---\n\n";
    let (question, _, cloze) = parse_card_lines(contents);
    assert!(question.is_none());
    assert_eq!(
        "Region: [`us-east-2`]\nLocation: [Ohio]\n---",
        cloze.unwrap()
    );
}

#[test]
fn basic_qa() {
    let card_path = "test.md";

    let card = content_to_card(card_path, "", 1, 1);
    assert!(card.is_err());

    let card = content_to_card(card_path, "what am i doing here", 1, 1);
    assert!(card.is_err());

    let content = "Q: what?\nA: yes\n\n";
    let card = content_to_card(card_path, content, 1, 1);
    if let CardContent::Basic { question, answer } = &card.expect("should be basic").content {
        assert_eq!(question, "what?");
        assert_eq!(answer, "yes");
    } else {
        panic!("Expected CardContent::Basic");
    }

    let content = "Q: what?\nA: \n\n";
    let card = content_to_card(card_path, content, 1, 1);
    assert!(card.is_err());
}

#[test]
fn basic_cloze() {
    let card_path = "test.md";

    let content = "C: ping? [pong]";
    let card = content_to_card(card_path, content, 1, 1);
    if let CardContent::Cloze { text, start, end } = &card.expect("should be basic").content {
        assert_eq!(text, "ping? [pong]");
        assert_eq!(*start, 6_usize);
        assert_eq!(*end, 11_usize);
    } else {
        panic!("Expected CardContent::Cloze");
    }
}

#[test]
fn test_file_capture() {
    let cards = cards_from_md("test_data/test.md", TEST_MD).expect("should be ok");

    assert_eq!(cards.len(), 4);
}

#[test]
fn collects_cards_from_directory() {
    let listing = vec![
        ("test_data/notes.txt".to_string(), "Q: not markdown\nA: skipped\n".to_string()),
        ("test_data/test.md".to_string(), TEST_MD.to_string()),
    ];
    let cards = cards_from_dir(&listing).expect("should collect cards");
    assert_eq!(cards.len(), 4);
    assert!(cards
        .iter()
        .all(|card| card.file_path.ends_with("test_data/test.md")));
}

#[test]
fn content_to_card_reports_each_error() {
    assert_eq!(content_to_card("a.md", "   ", 0, 1).unwrap_err(), CardError::Unhashable);
    assert_eq!(content_to_card("a.md", "the and of", 0, 1).unwrap_err(), CardError::Unhashable);
    assert_eq!(
        content_to_card("a.md", "C: no brackets here", 0, 1).unwrap_err(),
        CardError::MissingCloze
    );
    assert_eq!(
        content_to_card("a.md", "C: empty [] brackets", 0, 1).unwrap_err(),
        CardError::MissingCloze
    );
    assert_eq!(
        content_to_card("a.md", "just some prose", 0, 1).unwrap_err(),
        CardError::Unrecognized
    );
    assert_eq!(CardError::Unhashable.message(), "Unable to hash contents");
    assert_eq!(
        CardError::MissingCloze.message(),
        "Card is a cloze but can't find cloze text in []"
    );
    assert_eq!(CardError::Unrecognized.message(), "Unable to create card");
}

#[test]
fn content_to_card_carries_path_range_and_identity() {
    let card = content_to_card("deck/a.md", "Q: Hello,  World?\nA: yes\n", 3, 5).unwrap();
    assert_eq!(card.file_path, "deck/a.md");
    assert_eq!(card.file_card_range, (3, 5));
    assert_eq!(
        Some(card.card_hash),
        repeater::hash::get_hash("q hello world? a: YES")
    );
}

#[test]
fn cards_from_md_gives_line_ranges() {
    let cards = cards_from_md("test_data/test.md", TEST_MD).unwrap();
    let ranges: Vec<(usize, usize)> = cards.iter().map(|c| c.file_card_range).collect();
    assert_eq!(ranges, vec![(0, 3), (3, 5), (5, 10), (10, 14)]);
    match &cards[2].content {
        CardContent::Basic { question, answer } => {
            assert_eq!(question, "What does\nFSRS stand for?");
            assert_eq!(answer, "Free Spaced\nRepetition Scheduler");
        }
        _ => panic!("expected a basic card"),
    }
    assert!(cards_from_md("x.md", "").unwrap().is_empty());
    assert_eq!(
        cards_from_md("x.md", "Q: a\nA: b\nC: nothing hidden\n").unwrap_err(),
        CardError::MissingCloze
    );
    assert_eq!(
        cards_from_md("x.md", "Q: fine\r\nA: too\r\n").unwrap().len(),
        1
    );
}

#[test]
fn cards_from_files_keeps_file_order_and_first_error() {
    let good = ("a.md".to_string(), "Q: one\nA: two\n".to_string());
    let other = ("b.md".to_string(), "C: three [four]\n".to_string());
    let bad = ("c.md".to_string(), "Q: lonely question\n".to_string());
    let cards = cards_from_files(&vec![good.clone(), other.clone()]).unwrap();
    assert_eq!(cards.len(), 2);
    assert_eq!(cards[0].file_path, "a.md");
    assert_eq!(cards[1].file_path, "b.md");
    assert_eq!(
        cards_from_files(&vec![good, bad, other]).unwrap_err(),
        CardError::Unrecognized
    );
    assert!(cards_from_files(&vec![]).unwrap().is_empty());
}

#[test]
fn trim_line_drops_blank_lines() {
    assert_eq!(trim_line("  a b \t\n"), Some("a b".to_string()));
    assert_eq!(trim_line(" \u{3000}\t "), None);
    assert_eq!(trim_line(""), None);
    assert_eq!(trim_line("x"), Some("x".to_string()));
}

#[test]
fn raw_hash_is_of_trimmed_text() {
    assert_eq!(get_hash("  Hello  "), get_hash("Hello"));
    assert_ne!(get_hash("Hello"), get_hash("hello"));
    assert_eq!(get_hash("   "), None);
    assert_eq!(
        get_hash("abc").unwrap(),
        "6437b3ac38465133ffb63b75273a8db548c558465d79db03fd359c6cd5bd9d85"
    );
}

#[test]
fn markdown_is_told_by_extension() {
    assert!(is_markdown("notes.md"));
    assert!(is_markdown("dir/Notes.MD"));
    assert!(!is_markdown("notes.txt"));
    assert!(!is_markdown("md"));
    assert!(!is_markdown(".md"));
    assert!(is_markdown_extension(Some("mD")));
    assert!(!is_markdown_extension(Some("mdx")));
    assert!(!is_markdown_extension(Some("m")));
    assert!(!is_markdown_extension(None));
}

#[test]
fn validate_file_refuses_in_order() {
    assert_eq!(validate_file_can_be_card("   ".to_string(), true), Err(PathError::Empty));
    assert_eq!(
        validate_file_can_be_card(" cards ".to_string(), true),
        Err(PathError::Directory)
    );
    assert_eq!(
        validate_file_can_be_card("cards.txt".to_string(), false),
        Err(PathError::NotMarkdown)
    );
    assert_eq!(
        validate_file_can_be_card("  cards.md\n".to_string(), false),
        Ok("cards.md".to_string())
    );
    assert_eq!(PathError::Empty.message(), "Card path cannot be empty");
    assert_eq!(PathError::Directory.message(), "Card path cannot be a directory");
    assert_eq!(PathError::NotMarkdown.message(), "Card path must be a markdown file");
}

#[test]
fn markdown_paths_hold_a_dot_and_md() {
    let paths = [
        "notes.md", "a/b/Notes.Md", "notes.md/", "x.tar.md", "notes.markdown", "notes.md.txt",
        "dir.md/file", "md", ".md", "..", "a.mD", "", "notes.", "日本.md", "a.m d",
    ];
    for path in paths {
        if is_markdown(path) {
            let lower = path.to_lowercase();
            assert!(lower.contains(".md"), "{path}");
        }
    }
    assert!(is_markdown("x.tar.md"));
    assert!(is_markdown("日本.md"));
    assert!(!is_markdown("notes.md.txt"));
    assert!(!is_markdown("dir.md/file"));
    assert!(!is_markdown("notes.markdown"));
    assert!(!is_markdown(""));
    assert!(!is_markdown(".."));
}
