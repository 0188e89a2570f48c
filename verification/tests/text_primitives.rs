use file_backup::text::{
    chars_of, find, find_char, is_whitespace_char, matches_at, nth_field, same_chars, same_text,
    split_nonempty_lines, starts_with, string_of, strip_leading_slashes, trim,
};

fn cs(s: &str) -> Vec<char> {
    s.chars().collect()
}

#[test]
fn characters_and_strings_convert_both_ways() {
    assert_eq!(chars_of("a\u{e9}\u{4e2d}"), vec!['a', '\u{e9}', '\u{4e2d}']);
    assert_eq!(string_of(&['x', '\u{e9}', 'y']), "x\u{e9}y");
    assert_eq!(string_of(&chars_of("pool/ds@snap")), "pool/ds@snap");
    assert_eq!(string_of(&[]), "");
}

#[test]
fn first_position_of_a_character() {
    assert_eq!(find_char(&cs("a\tb\tc"), '\t'), 1);
    assert_eq!(find_char(&cs("abc"), '\t'), 3);
    assert_eq!(find_char(&cs(""), 'x'), 0);
}

#[test]
fn first_occurrence_of_a_pattern() {
    assert_eq!(find(&cs("a -> b -> c"), &cs(" -> ")), Some(1));
    assert_eq!(find(&cs("abc"), &cs("cd")), None);
    assert_eq!(find(&cs("abc"), &cs("")), Some(0));
    assert_eq!(find(&cs(""), &cs("")), Some(0));
    assert_eq!(find(&cs("aab"), &cs("ab")), Some(1));
    assert!(matches_at(&cs("abc"), &cs("bc"), 1));
    assert!(!matches_at(&cs("abc"), &cs("bc"), 2));
    assert!(!matches_at(&cs("abc"), &cs("a"), 7));
    assert!(starts_with(&cs("*deleting   x"), &cs("*deleting")));
    assert!(!starts_with(&cs("del"), &cs("deleting")));
}

#[test]
fn white_space_is_trimmed_at_both_ends() {
    assert_eq!(string_of(trim(&cs("  yes\n"))), "yes");
    assert_eq!(string_of(trim(&cs("\t a b \r\n"))), "a b");
    assert_eq!(string_of(trim(&cs(" \n\t "))), "");
    assert_eq!(string_of(trim(&cs(""))), "");
    assert_eq!(string_of(trim(&cs("\u{a0}x\u{3000}"))), "x");
    for c in [' ', '\t', '\n', '\r', '\u{b}', '\u{c}', '\u{85}', '\u{2003}', '\u{2028}'] {
        assert!(is_whitespace_char(c));
        assert!(c.is_whitespace());
    }
    for c in ['a', '0', '/', '\u{200b}', '\u{feff}'] {
        assert!(!is_whitespace_char(c));
        assert!(!c.is_whitespace());
    }
}

#[test]
fn lines_that_are_empty_are_passed_over() {
    assert_eq!(split_nonempty_lines(&cs("a\n\nb\r\nc")), vec!["a", "b", "c"]);
    assert_eq!(split_nonempty_lines(&cs("\n\n")), Vec::<String>::new());
    assert_eq!(split_nonempty_lines(&cs("")), Vec::<String>::new());
    assert_eq!(split_nonempty_lines(&cs("last\r")), vec!["last\r"]);
    assert_eq!(split_nonempty_lines(&cs("\r\nx\n")), vec!["x"]);
}

#[test]
fn fields_are_parted_by_the_separator() {
    let line = cs("pool/ds\tmounted\tyes\t-");
    assert_eq!(nth_field(&line, '\t', 0).map(string_of), Some("pool/ds".to_string()));
    assert_eq!(nth_field(&line, '\t', 2).map(string_of), Some("yes".to_string()));
    assert_eq!(nth_field(&line, '\t', 3).map(string_of), Some("-".to_string()));
    assert_eq!(nth_field(&line, '\t', 4), None);
    assert_eq!(nth_field(&cs(""), '\t', 0).map(string_of), Some(String::new()));
    assert_eq!(nth_field(&cs("a\t"), '\t', 1).map(string_of), Some(String::new()));
}

#[test]
fn texts_are_compared_by_their_characters() {
    assert!(same_text("restic", "restic"));
    assert!(!same_text("restic", "restic "));
    assert!(same_chars(&cs(""), &cs("")));
    assert!(!same_chars(&cs("ab"), &cs("ba")));
}

#[test]
fn slashes_at_the_start_are_stripped() {
    assert_eq!(string_of(strip_leading_slashes(&cs("//a/b"))), "a/b");
    assert_eq!(string_of(strip_leading_slashes(&cs("a/b/"))), "a/b/");
    assert_eq!(string_of(strip_leading_slashes(&cs("///"))), "");
}

#[test]
fn white_space_is_what_the_standard_library_says() {
    for code in 0..=0x10ffffu32 {
        if let Some(c) = char::from_u32(code) {
            assert_eq!(is_whitespace_char(c), c.is_whitespace(), "U+{:04X}", code);
        }
    }
}

/// A small deterministic generator of texts over an alphabet that brings out
/// the edge cases.
fn sample_texts() -> Vec<String> {
    let alphabet = ['a', 'b', ' ', '\t', '\n', '\r', '/', '-', '>', '@', '\u{e9}'];
    let mut state: u64 = 0x2545_f491_4f6c_dd1d;
    let mut texts = vec![String::new()];
    for _ in 0..3000 {
        state ^= state << 13;
        state ^= state >> 7;
        state ^= state << 17;
        let len = (state % 12) as usize;
        let mut text = String::new();
        let mut pick = state >> 8;
        for _ in 0..len {
            text.push(alphabet[(pick % alphabet.len() as u64) as usize]);
            pick = pick / 11 + (state >> 3);
        }
        texts.push(text);
    }
    texts
}

#[test]
fn primitives_agree_with_the_standard_library() {
    for text in sample_texts() {
        let chars = cs(&text);
        assert_eq!(string_of(&chars), text);
        assert_eq!(chars_of(&text), chars);
        assert_eq!(string_of(trim(&chars)), text.trim());
        let lines: Vec<String> =
            text.lines().filter(|l| !l.is_empty()).map(|l| l.to_string()).collect();
        assert_eq!(split_nonempty_lines(&chars), lines, "{:?}", text);
        for n in 0..4 {
            let field = text.split('\t').nth(n).map(|f| f.to_string());
            assert_eq!(nth_field(&chars, '\t', n).map(string_of), field, "{:?}", text);
        }
        let arrow = cs(" -> ");
        let found = text.find(" -> ").map(|at| text[..at].chars().count());
        assert_eq!(find(&chars, &arrow), found, "{:?}", text);
        assert_eq!(starts_with(&chars, &cs("a/")), text.starts_with("a/"));
        assert_eq!(
            string_of(strip_leading_slashes(&chars)),
            text.trim_start_matches('/'),
            "{:?}",
            text
        );
        let first_tab = text.chars().position(|c| c == '\t').unwrap_or(chars.len());
        assert_eq!(find_char(&chars, '\t'), first_tab);
        assert!(same_text(&text, &text.clone()));
    }
}
