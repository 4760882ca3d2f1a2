use rs_type::text::split_whitespace_of;
use rs_type::wording::{CodeDict, Enemies, KTouchParser, WordProducer};

fn word_of(e: Enemies) -> String {
    match e {
        Enemies::Word(w) => w,
        Enemies::LevelComplete => panic!("level complete where a word was expected"),
        Enemies::GameComplete => panic!("game complete where a word was expected"),
    }
}

#[test]
fn code_dict_words_cycle_from_the_dictionary() {
    let mut d = CodeDict;
    assert_eq!(word_of(d.next_word(0, 0)), "jj");
    assert_eq!(word_of(d.next_word(1, 1)), "ff");
    assert_eq!(word_of(d.next_word(2, 4)), "jjj");
    assert_eq!(word_of(d.next_word(2, 9)), "jff");
}

#[test]
fn code_dict_level_and_game_boundaries() {
    let mut d = CodeDict;
    assert!(matches!(d.next_word(0, 10), Enemies::LevelComplete));
    assert!(matches!(d.next_word(2, 35), Enemies::LevelComplete));
    assert!(matches!(d.next_word(3, 0), Enemies::GameComplete));
    assert!(matches!(d.next_word(7, 99), Enemies::GameComplete));
}

#[test]
fn ktouch_parser_reads_lessons() {
    let doc = "<course><lessons>\
        <lesson><title>one</title><text>alfa bravo  charlie</text></lesson>\
        <lesson><text>delta</text></lesson>\
        </lessons></course>";
    let mut p = KTouchParser::new(doc).expect("well-formed lesson document");
    assert_eq!(word_of(p.next_word(0, 0)), "alfa");
    assert_eq!(word_of(p.next_word(0, 1)), "bravo");
    assert_eq!(word_of(p.next_word(0, 2)), "charlie");
    assert!(matches!(p.next_word(0, 3), Enemies::LevelComplete));
    assert_eq!(word_of(p.next_word(1, 0)), "delta");
    assert!(matches!(p.next_word(1, 1), Enemies::LevelComplete));
    assert!(matches!(p.next_word(2, 0), Enemies::GameComplete));
}

#[test]
fn ktouch_parser_takes_at_most_three_lessons() {
    let doc = "<course><lessons>\
        <lesson><text>a</text></lesson>\
        <lesson><text>b</text></lesson>\
        <lesson><text>c</text></lesson>\
        <lesson><text>d</text></lesson>\
        </lessons></course>";
    let mut p = KTouchParser::new(doc).unwrap();
    assert_eq!(word_of(p.next_word(2, 0)), "c");
    assert!(matches!(p.next_word(3, 0), Enemies::GameComplete));
}

#[test]
fn ktouch_parser_rejects_bad_documents() {
    assert!(KTouchParser::new("not xml at all <").is_none());
    assert!(KTouchParser::new("<course></course>").is_none());
    assert!(KTouchParser::new("<course><lessons><lesson></lesson></lessons></course>").is_none());
    assert!(
        KTouchParser::new("<course><lessons><lesson><text></text></lesson></lessons></course>")
            .is_none()
    );
}

#[test]
fn split_whitespace_collapses_separators() {
    let words = split_whitespace_of("  alfa\tbravo\n\ncharlie  ");
    assert_eq!(words, vec!["alfa".to_owned(), "bravo".to_owned(), "charlie".to_owned()]);
    assert_eq!(split_whitespace_of("   "), Vec::<String>::new());
    assert_eq!(split_whitespace_of("solo"), vec!["solo".to_owned()]);
}

#[test]
fn split_whitespace_covers_unicode_whitespace() {
    let words = split_whitespace_of("alfa\u{A0}bravo\u{2003}charlie\u{3000}");
    assert_eq!(words, vec!["alfa".to_owned(), "bravo".to_owned(), "charlie".to_owned()]);
}
