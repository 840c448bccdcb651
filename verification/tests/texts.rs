use cuda_monitor::estimate::{parameter_count, parameter_digits};
use cuda_monitor::text::{
    chars_of, dedup, find_from, in_order, join, last_piece, lines, piece, sort, space, split_text,
    trim,
};

fn owned(list: &[&str]) -> Vec<String> {
    list.iter().map(|s| s.to_string()).collect()
}

#[test]
fn the_parameter_count_is_read_from_the_name() {
    assert_eq!(parameter_count("gemma4:9b"), "9");
    assert_eq!(parameter_count("gemma4:12b-tool"), "12");
    assert_eq!(parameter_count("Llama-14B-Q4"), "14");
    assert_eq!(parameter_count("a:70b + c:7b"), "70");
    assert_eq!(parameter_count("qwen:0.5b"), "5");
    assert_eq!(parameter_count("0070b"), "0070");
}

#[test]
fn the_parameter_count_falls_back_to_seven() {
    assert_eq!(parameter_count(""), "7");
    assert_eq!(parameter_count("idle — no model"), "7");
    assert_eq!(parameter_count("mistral"), "7");
    assert_eq!(parameter_count("x:00b y:3b"), "7");
    assert_eq!(parameter_count("12"), "7");
    assert_eq!(parameter_count("modèle-É8B"), "8");
}

#[test]
fn only_small_letters_count_once_lowered() {
    assert_eq!(parameter_digits("9B"), "7");
    assert_eq!(parameter_digits("9b"), "9");
}

#[test]
fn splitting_and_joining_agree_with_std() {
    for text in ["", ",", "a", "a,b", ",a,,b,", "é,—,", "no separator"] {
        let pieces = split_text(text, ',');
        let expected: Vec<&str> = text.split(',').collect();
        assert_eq!(pieces, expected);
        assert_eq!(join(&pieces, ","), text);
    }
    assert_eq!(join(&Vec::new(), " + "), "");
    assert_eq!(join(&owned(&["x"]), " + "), "x");
    assert_eq!(join(&owned(&["x", "y", "z"]), " + "), "x + y + z");
}

#[test]
fn lines_agree_with_std() {
    for text in ["", "\n", "a", "a\n", "a\r\nb", "a\r", "a\r\r\n", "\r\n\r\n", "a\n\nb\r\n", "é\n—"] {
        let expected: Vec<&str> = text.lines().collect();
        assert_eq!(lines(text), expected);
    }
}

#[test]
fn trimming_agrees_with_std() {
    for text in ["", " ", "a", " a b\t", "\u{2003}x\u{3000}\n", "\u{200b}y\u{85}", "\u{feff}z"] {
        assert_eq!(trim(text), text.trim());
        assert_eq!(trim(&trim(text)), trim(text));
    }
}

#[test]
fn white_space_agrees_with_std() {
    for code in 0..=0x10ffffu32 {
        if let Some(c) = char::from_u32(code) {
            assert_eq!(space(c), c.is_whitespace(), "{code:x}");
        }
    }
}

#[test]
fn sorting_agrees_with_std() {
    let list = owned(&["zeta", "", "alpha", "Alpha", "alp", "é", "\u{ffff}", "\u{10000}", "alpha"]);
    let mut expected = list.clone();
    expected.sort();
    let sorted = sort(&list);
    assert_eq!(sorted, expected);
    expected.dedup();
    assert_eq!(dedup(&sorted), expected);
    assert!(in_order("a", "a"));
    assert!(in_order("", "a"));
    assert!(in_order("a", "ab"));
    assert!(!in_order("b", "ab"));
    assert!(!in_order("a", ""));
}

#[test]
fn runs_of_equal_entries_are_cut() {
    assert_eq!(dedup(&owned(&["a", "a", "b", "a", "a", "a"])), owned(&["a", "b", "a"]));
    assert_eq!(dedup(&Vec::new()), Vec::<String>::new());
}

#[test]
fn the_leftmost_place_is_found() {
    let hay = chars_of("abcabcé");
    assert_eq!(find_from(&hay, 0, &chars_of("bc")), Some(1));
    assert_eq!(find_from(&hay, 2, &chars_of("bc")), Some(2));
    assert_eq!(find_from(&hay, 0, &chars_of("é")), Some(6));
    assert_eq!(find_from(&hay, 0, &chars_of("cb")), None);
    assert_eq!(find_from(&hay, 7, &chars_of("a")), None);
    assert_eq!(find_from(&hay, 7, &Vec::new()), Some(0));
    assert_eq!(find_from(&chars_of("aab"), 0, &chars_of("ab")), Some(1));
}

#[test]
fn what_follows_the_last_separator() {
    assert_eq!(last_piece("/usr/bin/python", '/'), "python");
    assert_eq!(last_piece("python", '/'), "python");
    assert_eq!(last_piece("dir/", '/'), "");
    assert_eq!(last_piece("", '/'), "");
    assert_eq!(piece("aébc", 1, 3), "éb");
}
