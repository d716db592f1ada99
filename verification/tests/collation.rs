use thanks::collation::{
    char_order_of, code_point_order_of, display_key_of, display_order_of, key_order_of,
    key_order_positions, letter_of, letter_order_of, sort_for_display, strip_marks_of, DisplayKeys,
    Letter, Precedence,
};

fn chars(s: &str) -> Vec<char> {
    s.chars().collect()
}

fn letter(c: char, fold: &str) -> Letter {
    Letter { c, fold: chars(fold) }
}

fn key(s: &str) -> Vec<Letter> {
    s.chars().map(|c| letter(c, &c.to_lowercase().to_string())).collect()
}

#[test]
fn combining_marks_are_stripped() {
    assert_eq!(strip_marks_of(&chars("e\u{301}a\u{300}\u{36f}b")), chars("eab"));
    assert_eq!(strip_marks_of(&chars("\u{2ff}\u{300}\u{36f}\u{370}")), chars("\u{2ff}\u{370}"));
    assert_eq!(strip_marks_of(&Vec::new()), Vec::<char>::new());
}

#[test]
fn letters_carry_their_folding() {
    let l = letter_of('A');
    assert_eq!((l.c, l.fold), ('A', chars("a")));
    let l = letter_of('\u{df}');
    assert_eq!((l.c, l.fold), ('\u{df}', chars("ss")));
    let l = letter_of('7');
    assert_eq!((l.c, l.fold), ('7', chars("7")));
}

#[test]
fn display_key_is_decomposed_stripped_and_folded() {
    let key = display_key_of("\u{c9}a\u{fb01}");
    let cs: Vec<char> = key.iter().map(|l| l.c).collect();
    let folds: Vec<String> = key.iter().map(|l| l.fold.iter().collect()).collect();
    // the decomposition is canonical: the ligature stays one character
    assert_eq!(cs, chars("Ea\u{fb01}"));
    assert_eq!(folds, vec!["e", "a", "fi"]);
}

#[test]
fn texts_are_ordered_by_code_point() {
    assert_eq!(code_point_order_of(&chars("abc"), &chars("abd")), Precedence::Before);
    assert_eq!(code_point_order_of(&chars("b"), &chars("abd")), Precedence::After);
    assert_eq!(code_point_order_of(&chars("ab"), &chars("abd")), Precedence::Before);
    assert_eq!(code_point_order_of(&chars("ab"), &chars("ab")), Precedence::Same);
    assert_eq!(code_point_order_of(&chars(""), &chars("")), Precedence::Same);
    assert_eq!(code_point_order_of(&chars("z"), &chars("\u{e9}")), Precedence::Before);
}

#[test]
fn letters_are_ordered_by_folding_then_against_code_point() {
    assert_eq!(letter_order_of(&letter('A', "a"), &letter('a', "a")), Precedence::After);
    assert_eq!(letter_order_of(&letter('a', "a"), &letter('A', "a")), Precedence::Before);
    assert_eq!(letter_order_of(&letter('a', "a"), &letter('a', "a")), Precedence::Same);
    assert_eq!(letter_order_of(&letter('Z', "z"), &letter('a', "a")), Precedence::After);
    assert_eq!(letter_order_of(&letter('B', "b"), &letter('c', "c")), Precedence::Before);
    // the same folding, but not to one small letter: the letters are the same in order
    assert_eq!(letter_order_of(&letter('\u{df}', "ss"), &letter('S', "ss")), Precedence::Same);
    assert_eq!(letter_order_of(&letter('1', "1"), &letter('2', "1")), Precedence::Same);
    assert_eq!(letter_order_of(&letter('\u{c9}', "\u{e9}"), &letter('\u{e9}', "\u{e9}")), Precedence::Same);
    assert_eq!(letter_order_of(&letter('x', ""), &letter('y', "")), Precedence::Same);
}

#[test]
fn characters_are_ordered_as_letters() {
    assert_eq!(char_order_of('A', 'a'), Precedence::After);
    assert_eq!(char_order_of('a', 'B'), Precedence::Before);
    assert_eq!(char_order_of('\u{df}', 's'), Precedence::After);
}

#[test]
fn keys_are_ordered_letter_by_letter() {
    assert_eq!(key_order_of(&key("ab"), &key("abc")), Precedence::Before);
    assert_eq!(key_order_of(&key("aB"), &key("ab")), Precedence::After);
    assert_eq!(key_order_of(&key("Ab"), &key("aa")), Precedence::After);
    assert_eq!(key_order_of(&key("b"), &key("Abc")), Precedence::After);
    assert_eq!(key_order_of(&key(""), &key("")), Precedence::Same);
    assert_eq!(display_order_of("Zo\u{eb}", "zoe"), Precedence::After);
    assert_eq!(display_order_of("zo\u{eb}", "zoe"), Precedence::Same);
}

#[test]
fn keys_are_read_in_stable_order() {
    let keys = DisplayKeys { keys: vec![key("b"), key("a"), key("B"), key("a"), key("")] };
    assert_eq!(key_order_positions(&keys), vec![4, 1, 3, 0, 2]);
    assert_eq!(key_order_positions(&DisplayKeys { keys: Vec::new() }), Vec::<usize>::new());
}

#[test]
fn sort_for_display_leaves_the_names_as_given() {
    let names = vec!["b".to_string(), "a".to_string()];
    assert_eq!(sort_for_display(&names), vec!["a".to_string(), "b".to_string()]);
    assert_eq!(names, vec!["b".to_string(), "a".to_string()]);
}
