use price_sampler::config::{parse_duration, parse_mode, parse_unsigned, Mode, DEFAULT_DURATION};

#[test]
fn the_two_modes_are_selected_by_their_words() {
    assert_eq!(parse_mode("cache"), Some(Mode::Collect));
    assert_eq!(parse_mode("read"), Some(Mode::ReadBack));
}

#[test]
fn other_words_select_no_mode() {
    for word in ["", "Cache", "CACHE", "cache ", " cache", "reads", "rea", "write", "cacheread", "r\u{e9}ad"] {
        assert_eq!(parse_mode(word), None, "{word:?}");
    }
}

#[test]
fn a_decimal_number_is_the_duration() {
    assert_eq!(parse_duration("1"), 1);
    assert_eq!(parse_duration("30"), 30);
    assert_eq!(parse_duration("0"), 0);
    assert_eq!(parse_duration("007"), 7);
    assert_eq!(parse_duration("+15"), 15);
    assert_eq!(parse_duration("18446744073709551615"), u64::MAX);
    assert_eq!(parse_duration("00018446744073709551615"), u64::MAX);
}

#[test]
fn a_text_that_is_no_number_gives_the_default_duration() {
    assert_eq!(DEFAULT_DURATION, 1);
    for text in [
        "",
        "+",
        "-",
        "-5",
        "++5",
        "5+",
        " 5",
        "5 ",
        "5.0",
        "1e3",
        "1_000",
        "ten",
        "0x10",
        "18446744073709551616",
        "99999999999999999999999999",
        "184467440737095516150",
        "٣",
        "5\u{e9}",
    ] {
        assert_eq!(parse_duration(text), DEFAULT_DURATION, "{text:?}");
    }
}

#[test]
fn unsigned_numbers_are_read_as_the_standard_library_reads_them() {
    let texts = [
        "", "0", "1", "9", "10", "42", "+0", "+42", "+", "-", "-0", "-1", "00", "0009", "12a", "a12", "1 2", " ", "\n", "1\n",
        "18446744073709551614", "18446744073709551615", "18446744073709551616", "18446744073709551620",
        "28446744073709551615", "+18446744073709551615", "+18446744073709551616", "000000000000000000000000000001",
        "100000000000000000000", "1844674407370955161", "1.5", "1e2", "１２", "+-1", "/", ":", "0/", "0:",
    ];
    for text in texts {
        assert_eq!(parse_unsigned(text), text.parse::<u64>().ok(), "{text:?}");
        assert_eq!(parse_duration(text), text.parse::<u64>().unwrap_or(1), "{text:?}");
    }
}

#[test]
fn generated_texts_are_read_as_the_standard_library_reads_them() {
    let alphabet: [char; 8] = ['0', '1', '9', '+', '-', ' ', '5', 'x'];
    let mut state: u64 = 99;
    for round in 0..5_000 {
        let mut text = String::new();
        for _ in 0..(round % 24) {
            state = state.wrapping_mul(6364136223846793005).wrapping_add(1442695040888963407);
            let pick = (state >> 33) as usize % 40;
            text.push(if pick < 8 { alphabet[pick] } else { alphabet[pick % 3] });
        }
        assert_eq!(parse_unsigned(&text), text.parse::<u64>().ok(), "{text:?}");
    }
    for value in [0_u64, 1, 9, 10, 99, 1_000, u64::MAX / 10, u64::MAX / 10 + 1, u64::MAX - 1, u64::MAX] {
        assert_eq!(parse_unsigned(&value.to_string()), Some(value));
        assert_eq!(parse_unsigned(&format!("+{value}")), Some(value));
        assert_eq!(parse_unsigned(&format!("{value}0")), format!("{value}0").parse::<u64>().ok());
    }
}
