//! Text, numbers and the clock.

use peaboard::clock::{elapsed_secs, hhmm, now_secs};
use peaboard::numeral::{hexid, push_decimal, push_two_digits};
use peaboard::text::{is_before, is_white, push_line, same_text, split_first_word, trim, utf8_text};

#[test]
fn white_space_is_unicode_white_space() {
    for c in '\0'..=char::MAX {
        assert_eq!(is_white(c), c.is_whitespace(), "{:?}", c);
    }
}

#[test]
fn trim_cuts_both_ends() {
    for s in [
        "", " ", "\t \n", "a", " a", "a ", "  a b  ", "\u{3000}é\u{a0}", "a\u{2028}", "\u{85}x\u{1680}",
        "\u{200b}zero width\u{200b}",
    ] {
        assert_eq!(trim(s), s.trim(), "{:?}", s);
        assert_eq!(trim(trim(s)), trim(s));
    }
}

#[test]
fn first_word_and_the_rest() {
    assert_eq!(split_first_word("join rust"), ("join", "rust"));
    assert_eq!(split_first_word("join"), ("join", ""));
    assert_eq!(split_first_word(""), ("", ""));
    assert_eq!(split_first_word(" rust"), ("", "rust"));
    assert_eq!(split_first_word("join   two words  "), ("join", "two words"));
    assert_eq!(split_first_word("join\trust"), ("join", "rust"));
    assert_eq!(split_first_word("join\u{3000}rust"), ("join", "rust"));
    assert_eq!(split_first_word("join "), ("join", ""));
    for s in ["a b c", "é ü", "\u{85}", "x\u{a0}\u{a0}y ", "nowhite", " ", "  a"] {
        let expected = match s.split_once(char::is_whitespace) {
            Some((head, rest)) => (head, rest.trim()),
            None => (s, ""),
        };
        assert_eq!(split_first_word(s), expected, "{:?}", s);
    }
}

#[test]
fn texts_are_ordered_by_their_bytes() {
    let names = ["", "a", "aa", "ab", "b", "Z", "é", "z", "日本", "🦀", "\u{ffff}"];
    for a in names {
        for b in names {
            assert_eq!(is_before(a, b), a < b, "{:?} {:?}", a, b);
            assert_eq!(same_text(a, b), a == b, "{:?} {:?}", a, b);
        }
    }
}

#[test]
fn utf8_text_reads_valid_bytes_only() {
    assert_eq!(utf8_text("h\u{e9}llo".as_bytes()).unwrap(), "héllo");
    assert_eq!(utf8_text(&[]).unwrap(), "");
    assert!(utf8_text(&[0xff]).is_none());
    assert!(utf8_text(&[0xc3]).is_none());
    assert!(utf8_text(&[0xed, 0xa0, 0x80]).is_none());
    assert!(utf8_text(&[0xc0, 0x80]).is_none());
}

#[test]
fn lines_are_appended() {
    let mut out: Vec<String> = vec!["one".to_string()];
    push_line(&mut out, "two");
    assert_eq!(out, vec!["one".to_string(), "two".to_string()]);
}

#[test]
fn decimal_numbers() {
    for n in [0u64, 7, 10, 99, 100, 450, 65_535, u64::MAX] {
        let mut out = String::from("n=");
        push_decimal(&mut out, n);
        assert_eq!(out, format!("n={}", n));
    }
    let mut out = String::new();
    push_two_digits(&mut out, 5);
    push_two_digits(&mut out, 42);
    assert_eq!(out, "0542");
}

#[test]
fn message_ids_in_hex() {
    assert_eq!(hexid(&[]), "");
    assert_eq!(hexid(&[0xb8, 0xde, 0x5d, 0x00, 0x0f]), "b8de5d000f");
    let all: Vec<u8> = (0..=255).collect();
    let expected: String = all.iter().map(|b| format!("{:02x}", b)).collect();
    assert_eq!(hexid(&all), expected);
    assert_ne!(hexid(&[1, 0x23]), hexid(&[0x12, 3]));
}

#[test]
fn time_of_day() {
    assert_eq!(hhmm(0), "00:00");
    assert_eq!(hhmm(59), "00:00");
    assert_eq!(hhmm(60), "00:01");
    assert_eq!(hhmm(3_599), "00:59");
    assert_eq!(hhmm(3_600), "01:00");
    assert_eq!(hhmm(86_399), "23:59");
    assert_eq!(hhmm(86_400), "00:00");
    assert_eq!(hhmm(15 * 3_600 + 45 * 60), "15:45");
    assert_eq!(hhmm(1_700_000_000), "22:13");
    assert_eq!(hhmm(u64::MAX), "07:00");
    assert_eq!(hhmm(1_700_000_000 + 86_400), hhmm(1_700_000_000));
}

#[test]
fn whole_seconds_since_the_epoch() {
    let epoch = std::time::UNIX_EPOCH;
    let later = epoch + std::time::Duration::from_millis(90_900);
    let elapsed = |from: std::time::SystemTime, to: std::time::SystemTime| {
        to.duration_since(from).map(|d| (d.as_secs(), d.subsec_nanos()))
    };
    assert_eq!(elapsed_secs(elapsed(epoch, later)), 90);
    assert_eq!(elapsed_secs(Ok((90, 999_999_999))), 90);
    assert_eq!(elapsed_secs(elapsed(epoch, epoch)), 0);
    assert_eq!(elapsed_secs(Ok((u64::MAX, 0))), u64::MAX);
}

#[test]
fn clock_before_the_epoch_counts_as_the_epoch() {
    let epoch = std::time::UNIX_EPOCH;
    let later = epoch + std::time::Duration::from_secs(90);
    match epoch.duration_since(later) {
        Ok(_) => panic!("no error"),
        Err(error) => assert_eq!(elapsed_secs(Err(error)), 0),
    }
}

#[test]
fn clock_shows_seconds_since_the_epoch() {
    let before = std::time::SystemTime::now()
        .duration_since(std::time::UNIX_EPOCH)
        .unwrap()
        .as_secs();
    let now = now_secs();
    assert!(before <= now && now <= before + 60);
}
