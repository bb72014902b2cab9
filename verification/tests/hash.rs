use repeater::hash::get_hash;

#[test]
fn test_hash() {
    let a = "Hello,  world.\nIt's  2+2 - 1.";
    let b = "hello world its 2+2-1";
    let c = "  HELLO\tWORLD\tIT'S\t2+2 - 1  ";
    let d = "hello world 2+2-1";

    let ha = get_hash(a);
    let hb = get_hash(b);
    let hc = get_hash(c);
    let hd = get_hash(d);

    assert_eq!(ha, hb);
    assert_eq!(ha, hc);
    assert_eq!(ha, hd);
}

#[test]
fn invalid_hash() {
    let a = "this that";
    let ha = get_hash(a);
    assert!(ha.is_none());

    let a = "this that science";
    let ha = get_hash(a);
    assert!(ha.is_some());
}

#[test]
fn blank_and_punctuation_have_no_identity() {
    assert_eq!(get_hash(""), None);
    assert_eq!(get_hash(" \t\n"), None);
    assert_eq!(get_hash("... ?!"), None);
    assert_eq!(get_hash("'’ʼ"), None);
    assert_eq!(get_hash("The AND of"), None);
}

#[test]
fn signs_are_tokens_of_their_own() {
    assert_eq!(get_hash("2+2 - 1"), get_hash("2+2-1"));
    assert_ne!(get_hash("2+2"), get_hash("22"));
    assert_ne!(get_hash("a-b"), get_hash("a+b"));
    assert!(get_hash("+").is_some());
    assert_eq!(get_hash("the + the"), get_hash("+"));
}

#[test]
fn apostrophes_join_and_case_folds_beyond_ascii() {
    assert_eq!(get_hash("don’t stop"), get_hash("dont stop"));
    assert_eq!(get_hash("it＇s here"), get_hash("here"));
    assert_eq!(get_hash("ÉCOLE [Ünïcode]"), get_hash("école ünïcode"));
    assert_eq!(get_hash("日本[東京]"), get_hash("日本 東京"));
    assert_ne!(get_hash("日本"), get_hash("東京"));
    assert_ne!(get_hash("alpha beta"), get_hash("beta alpha"));
}

#[test]
fn fingerprint_is_the_digest_of_the_token_stream() {
    // the tokens of "Hello, the World!" are "hello" and "world", fed without a gap
    let expected = repeater::utils::get_hash("helloworld");
    assert_eq!(get_hash("Hello, the World!"), expected);
    assert_eq!(get_hash("Hello, the World!").unwrap().len(), 64);
}
