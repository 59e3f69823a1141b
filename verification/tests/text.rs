use swarm_activity_ledger::lines::lines_of;
use swarm_activity_ledger::text::{contains_part, decimal_text, lower, same_text, trim};

#[test]
fn texts_are_trimmed_of_white_space() {
    for code in 0..=0x3100_u32 {
        if let Some(c) = char::from_u32(code) {
            let text = format!("{c}{c}a{c}b{c}");
            assert_eq!(trim(&text), text.trim(), "{code:x}");
        }
    }
    assert_eq!(trim(" \u{3000}\n"), "");
    assert_eq!(trim(""), "");
}

#[test]
fn only_ascii_letters_are_lowered() {
    let text = "AZaz@[`{0 É\u{130}\u{212a}";
    assert_eq!(lower(text), text.to_ascii_lowercase());
    assert_eq!(lower("TOKEN"), "token");
}

#[test]
fn parts_of_texts_are_found() {
    for (whole, part) in [
        ("monkey", "key"),
        ("monkey", "mon"),
        ("monkey", ""),
        ("", ""),
        ("", "a"),
        ("ke", "key"),
        ("aab", "ab"),
        ("éa日", "日"),
        ("monkey", "keys"),
    ] {
        assert_eq!(contains_part(whole, part), whole.contains(part));
    }
}

#[test]
fn texts_are_the_same_character_by_character() {
    assert!(same_text("é", "é"));
    assert!(!same_text("e\u{301}", "é"));
    assert!(!same_text("a", "ab"));
    assert!(same_text("", ""));
}

#[test]
fn numbers_are_written_in_decimal() {
    for n in [0, 7, 10, 99, 100, 12_345, u64::MAX] {
        assert_eq!(decimal_text(n), n.to_string());
    }
}

#[test]
fn texts_are_divided_into_lines() {
    for text in [
        "",
        "\n",
        "a",
        "a\n",
        "a\n\n",
        "\na",
        "a\r\nb",
        "a\r\r\nb\n",
        "a\rb\n",
        "\r\n\r\n",
        "é\n日本",
    ] {
        let expected: Vec<&str> = text.lines().collect();
        assert_eq!(lines_of(text), expected, "{text:?}");
    }
}
