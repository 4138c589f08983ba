use detector::text::comes_before;
use detector::text::contains;
use detector::text::decimal_text;
use detector::text::ends_with;
use detector::text::join3;
use detector::text::lowercase;
use detector::text::parse_u64;
use detector::text::same_ignoring_case;
use detector::text::split;
use detector::text::split_once;
use detector::text::starts_with;
use detector::text::strip;
use detector::text::strip_back;
use detector::text::trim;
use detector::text::uppercase;
use detector::text::Margin;

fn texts() -> Vec<&'static str> {
    vec![
        "", " ", "a", "A", "abc", "ABC", " abc ", "\t\n abc\u{3000}", "USDC/USD", "usdc/usd", "Ünïcode",
        "\"quoted\"", "https://host//", "a,b,,c", "a=b=c", "zß", "ab", "abd", "\u{10ffff}", "\u{ffff}",
        "\u{2028}x\u{85}", "\u{feff}x",
    ]
}

#[test]
fn white_space_is_that_of_the_standard_library() {
    for n in 0..0x11_0000u32 {
        if let Some(c) = char::from_u32(n) {
            let text = c.to_string();
            assert_eq!(trim(&text).is_empty(), c.is_whitespace(), "U+{n:04X}");
        }
    }
    for text in texts() {
        assert_eq!(trim(text), text.trim());
    }
}

#[test]
fn case_is_that_of_ascii() {
    for text in texts() {
        assert_eq!(lowercase(text), text.to_ascii_lowercase());
        assert_eq!(uppercase(text), text.to_ascii_uppercase());
        for other in texts() {
            assert_eq!(same_ignoring_case(text, other), text.eq_ignore_ascii_case(other));
        }
    }
}

#[test]
fn parts_are_found_as_in_the_standard_library() {
    for text in texts() {
        for part in texts() {
            assert_eq!(starts_with(text, part), text.starts_with(part));
            assert_eq!(ends_with(text, part), text.ends_with(part));
            assert_eq!(contains(text, part), text.contains(part));
            assert_eq!(comes_before(text, part), text < part, "{text:?} and {part:?}");
        }
    }
}

#[test]
fn texts_are_split_as_in_the_standard_library() {
    for text in texts() {
        assert_eq!(split(text, ','), text.split(',').map(str::to_string).collect::<Vec<_>>());
        assert_eq!(
            split_once(text, '='),
            text.split_once('=').map(|(a, b)| (a.to_string(), b.to_string()))
        );
    }
}

#[test]
fn margins_are_cut_off() {
    assert_eq!(strip(Margin::Quote, "\"quoted\""), "quoted");
    assert_eq!(strip_back(Margin::Slash, "https://host//"), "https://host");
    assert_eq!(strip_back(Margin::Slash, "///"), "");
    assert_eq!(join3("a", ":", "b"), "a:b");
}

#[test]
fn natural_numbers_are_written_and_read() {
    for n in [0u64, 7, 10, 4096, 18446744073709551615] {
        assert_eq!(decimal_text(n), n.to_string());
        assert_eq!(parse_u64(&n.to_string()), Some(n));
    }
    for text in ["", "-1", "+", "+5", "18446744073709551616", "1x", " 1"] {
        assert_eq!(parse_u64(text), text.parse::<u64>().ok(), "{text}");
    }
}
