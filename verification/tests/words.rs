use rex::args::{parse_args, put_setting, read_setting, Setting};
use rex::numbers::{parse_u64, parse_usize};
use rex::text::{
    chars_of, contains_text, matches_at, str_contains, str_ends_with, str_starts_with, string_of,
};
use rex::words::{space, split_words, trim_chars};

fn strings(list: &[&str]) -> Vec<String> {
    list.iter().map(|s| s.to_string()).collect()
}

fn pairs(table: &[Setting]) -> Vec<(String, String)> {
    table.iter().map(|s| (s.key.clone(), s.value.clone())).collect()
}

fn pair(key: &str, value: &str) -> (String, String) {
    (key.to_string(), value.to_string())
}

#[test]
fn white_space_is_what_the_standard_library_says() {
    let mut code = 0u32;
    while code <= 0x3100 {
        if let Some(c) = char::from_u32(code) {
            assert_eq!(space(c), c.is_whitespace(), "U+{:04X}", code);
        }
        code += 1;
    }
    assert!(!space('\u{200b}'));
    assert!(!space('\u{feff}'));
}

#[test]
fn words_are_runs_without_white_space() {
    for text in ["", " ", "a", " a ", "a b", "a  b\tc\n", "\u{a0}x\u{3000}y", "v=spf1 ~all"] {
        let expected: Vec<String> = text.split_whitespace().map(|w| w.to_string()).collect();
        assert_eq!(split_words(text), expected, "{:?}", text);
    }
    assert_eq!(split_words("  one   two "), strings(&["one", "two"]));
}

#[test]
fn trimming_cuts_both_ends() {
    for text in ["", " ", "a", "  a b \n", "\t\tx", "x\r\n", " \u{2003}é "] {
        let trimmed = string_of(&trim_chars(&chars_of(text)));
        assert_eq!(trimmed, text.trim(), "{:?}", text);
    }
}

#[test]
fn substrings() {
    assert!(str_contains("hello world", "lo w"));
    assert!(str_contains("hello", ""));
    assert!(str_contains("", ""));
    assert!(!str_contains("", "a"));
    assert!(!str_contains("hello", "world"));
    assert!(str_contains("aab", "ab"));
    assert!(!str_contains("ab", "abc"));
    assert!(str_starts_with("loop0", "loop"));
    assert!(!str_starts_with("lo", "loop"));
    assert!(str_ends_with("~all", "all"));
    assert!(str_ends_with("all", "all"));
    assert!(!str_ends_with("al", "all"));
    assert!(!str_ends_with("alll ", "all"));
    let hay = chars_of("abcabc");
    let needle = chars_of("bc");
    assert!(matches_at(&hay, &needle, 1));
    assert!(matches_at(&hay, &needle, 4));
    assert!(!matches_at(&hay, &needle, 0));
    assert!(!matches_at(&hay, &needle, 5));
    assert!(!matches_at(&hay, &needle, 7));
    assert!(contains_text(&hay, &needle));
    for (hay, needle) in [("éa", "a"), ("ab", "b"), ("abab", "bab"), ("x", "xx")] {
        assert_eq!(str_contains(hay, needle), hay.contains(needle));
    }
}

#[test]
fn numbers_are_read_as_the_standard_library_reads_them() {
    let texts = [
        "0", "7", "100", "+5", "007", "", "+", "-1", "1 ", " 1", "1a", "++1", "1+",
        "18446744073709551615", "18446744073709551616", "99999999999999999999999", "٣",
        "4294967295", "4294967296",
    ];
    for text in texts {
        assert_eq!(parse_u64(text), text.parse::<u64>().ok(), "{:?}", text);
        assert_eq!(parse_usize(text), text.parse::<usize>().ok(), "{:?}", text);
    }
    assert_eq!(parse_u64("1048576"), Some(1_048_576));
    assert_eq!(parse_usize("+42"), Some(42));
}

#[test]
fn settings_are_read_from_arguments() {
    let s = read_setting("--path=/tmp/x");
    assert_eq!((s.key.as_str(), s.value.as_str()), ("path", "/tmp/x"));
    let s = read_setting("--help");
    assert_eq!((s.key.as_str(), s.value.as_str()), ("help", ""));
    let s = read_setting("--a=b=c");
    assert_eq!((s.key.as_str(), s.value.as_str()), ("a", "b=c"));
    let s = read_setting("----deep=1");
    assert_eq!((s.key.as_str(), s.value.as_str()), ("deep", "1"));
    let s = read_setting("---odd=");
    assert_eq!((s.key.as_str(), s.value.as_str()), ("-odd", ""));
    let s = read_setting("--=v");
    assert_eq!((s.key.as_str(), s.value.as_str()), ("", "v"));
    let s = read_setting("--");
    assert_eq!((s.key.as_str(), s.value.as_str()), ("", ""));
}

#[test]
fn later_settings_replace_earlier_ones() {
    let mut table: Vec<Setting> = Vec::new();
    put_setting(&mut table, "a".to_string(), "1".to_string());
    put_setting(&mut table, "b".to_string(), "2".to_string());
    put_setting(&mut table, "a".to_string(), "3".to_string());
    assert_eq!(pairs(&table), vec![pair("a", "3"), pair("b", "2")]);
}

#[test]
fn arguments_are_put_into_their_parts() {
    let args = parse_args(strings(&[
        "webcrawl",
        "--base-url=https://example.org/?a=b",
        "plain",
        "--thread=4",
        "--help",
        "--thread=8",
        "-x=1",
    ]));
    assert_eq!(args.command, "webcrawl");
    assert_eq!(
        args.raw,
        "webcrawl --base-url=https://example.org/?a=b plain --thread=4 --help --thread=8 -x=1"
    );
    assert_eq!(args.array.len(), 7);
    assert_eq!(
        pairs(&args.tabled),
        vec![pair("base-url", "https://example.org/?a=b"), pair("thread", "8"), pair("help", "")]
    );
    assert!(args.contains_key("help"));
    assert!(!args.contains_key("x"));
    assert!(!args.contains_key("plain"));
    assert_eq!(args.get("thread"), Some("8"));
    assert_eq!(args.get("help"), Some(""));
    assert_eq!(args.get("missing"), None);
}

#[test]
fn no_arguments_at_all() {
    let args = parse_args(Vec::new());
    assert_eq!(args.command, "");
    assert_eq!(args.raw, "");
    assert!(args.array.is_empty());
    assert!(args.tabled.is_empty());
    let args = parse_args(strings(&["only"]));
    assert_eq!(args.raw, "only");
    assert_eq!(args.command, "only");
}
