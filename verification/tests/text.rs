use simpletron::compiler::table_entry::TableEntryType;
use simpletron::compiler::utils::{classify, read_symbol, to_symbol};
use simpletron::simulator::{read_number, read_word};
use simpletron::text::{
    is_white, parse_i32, parse_u32, parse_word, same_text, split_at, to_decimal, to_hex,
    to_hex_padded, trim, word_to_hex,
};
use simpletron::types::{ErrorKind, MyError};

#[test]
fn parse_i32_reads_signed_decimals() {
    assert_eq!(parse_i32("0", 10), Some(0));
    assert_eq!(parse_i32("42", 10), Some(42));
    assert_eq!(parse_i32("+5", 10), Some(5));
    assert_eq!(parse_i32("-5", 10), Some(-5));
    assert_eq!(parse_i32("-0", 10), Some(0));
    assert_eq!(parse_i32("007", 10), Some(7));
    assert_eq!(parse_i32("2147483647", 10), Some(i32::MAX));
    assert_eq!(parse_i32("-2147483648", 10), Some(i32::MIN));
    assert_eq!(parse_i32("0000000000000000000000000000012", 10), Some(12));
}

#[test]
fn parse_i32_refuses_what_is_no_integer() {
    assert_eq!(parse_i32("", 10), None);
    assert_eq!(parse_i32("+", 10), None);
    assert_eq!(parse_i32("-", 10), None);
    assert_eq!(parse_i32("2147483648", 10), None);
    assert_eq!(parse_i32("-2147483649", 10), None);
    assert_eq!(parse_i32("99999999999999999999999999", 10), None);
    assert_eq!(parse_i32(" 5", 10), None);
    assert_eq!(parse_i32("5 ", 10), None);
    assert_eq!(parse_i32("1_000", 10), None);
    assert_eq!(parse_i32("--5", 10), None);
    assert_eq!(parse_i32("+-5", 10), None);
    assert_eq!(parse_i32("a", 10), None);
    assert_eq!(parse_i32("5a", 10), None);
    assert_eq!(parse_i32("é", 10), None);
}

#[test]
fn parse_i32_agrees_with_the_standard_library() {
    let texts = [
        "", "+", "-", "0", "-0", "+0", "12", "-12", "+12", "0012", "2147483647", "2147483648",
        "-2147483648", "-2147483649", "ff", "FF", "-fF", "7fffffff", "80000000", "-80000000",
        "g", "1g", " 1", "1 ", "0x10", "１", "4294967296",
    ];
    for text in texts {
        assert_eq!(parse_i32(text, 10), text.parse::<i32>().ok(), "{:?}", text);
        assert_eq!(parse_i32(text, 16), i32::from_str_radix(text, 16).ok(), "{:?}", text);
        assert_eq!(parse_u32(text), text.parse::<u32>().ok(), "{:?}", text);
    }
}

#[test]
fn parse_i32_reads_hexadecimal_in_either_case() {
    assert_eq!(parse_i32("ff", 16), Some(255));
    assert_eq!(parse_i32("FF", 16), Some(255));
    assert_eq!(parse_i32("-10", 16), Some(-16));
    assert_eq!(parse_i32("7fffffff", 16), Some(i32::MAX));
    assert_eq!(parse_i32("80000000", 16), None);
    assert_eq!(parse_i32("g", 16), None);
}

#[test]
fn parse_u32_reads_unsigned_decimals() {
    assert_eq!(parse_u32("10"), Some(10));
    assert_eq!(parse_u32("+10"), Some(10));
    assert_eq!(parse_u32("4294967295"), Some(u32::MAX));
    assert_eq!(parse_u32("4294967296"), None);
    assert_eq!(parse_u32("-1"), None);
    assert_eq!(parse_u32("-0"), None);
    assert_eq!(parse_u32(""), None);
    assert_eq!(parse_u32("ten"), None);
}

#[test]
fn parse_word_reads_the_bits_of_a_word() {
    assert_eq!(parse_word("00004300", 16), Some(0x4300));
    assert_eq!(parse_word("ffffffff", 16), Some(-1));
    assert_eq!(parse_word("80000000", 16), Some(i32::MIN));
    assert_eq!(parse_word("7fffffff", 16), Some(i32::MAX));
    assert_eq!(parse_word("-1", 16), Some(-1));
    assert_eq!(parse_word("+a", 16), Some(10));
    assert_eq!(parse_word("100000000", 16), None);
    assert_eq!(parse_word("-80000001", 16), None);
    assert_eq!(parse_word("", 16), None);
    assert_eq!(parse_word("xyz", 16), None);
}

#[test]
fn word_to_hex_writes_eight_digits() {
    assert_eq!(word_to_hex(0), "00000000");
    assert_eq!(word_to_hex(0x4300), "00004300");
    assert_eq!(word_to_hex(255), "000000ff");
    assert_eq!(word_to_hex(-1), "ffffffff");
    assert_eq!(word_to_hex(-5), "fffffffb");
    assert_eq!(word_to_hex(i32::MIN), "80000000");
    assert_eq!(word_to_hex(i32::MAX), "7fffffff");
}

#[test]
fn what_is_written_is_read_back() {
    for word in [0, 1, -1, 14, 0x4300, -10000, i32::MIN, i32::MAX, 65535, -65536] {
        assert_eq!(parse_word(&word_to_hex(word), 16), Some(word));
    }
}

#[test]
fn to_hex_keeps_the_last_digits() {
    assert_eq!(to_hex(0x1234, 2), "34");
    assert_eq!(to_hex(0x1234, 6), "001234");
    assert_eq!(to_hex(7, 0), "");
}

#[test]
fn to_hex_padded_pads_short_numbers_only() {
    assert_eq!(to_hex_padded(0, 4), "0000");
    assert_eq!(to_hex_padded(0xab, 4), "00ab");
    assert_eq!(to_hex_padded(0xabcde, 4), "abcde");
    assert_eq!(to_hex_padded(0xffffffff, 4), "ffffffff");
    assert_eq!(to_hex_padded(5, 1), "5");
    assert_eq!(to_hex_padded(0, 0), "0");
    assert_eq!(to_hex_padded(0x1f, 2), format!("{:0>2x}", 0x1f));
}

#[test]
fn to_decimal_writes_the_sign() {
    assert_eq!(to_decimal(0), "0");
    assert_eq!(to_decimal(7), "7");
    assert_eq!(to_decimal(1230), "1230");
    assert_eq!(to_decimal(-42), "-42");
    assert_eq!(to_decimal(i32::MAX), "2147483647");
    assert_eq!(to_decimal(i32::MIN), "-2147483648");
}

#[test]
fn same_text_compares_character_by_character() {
    assert!(same_text("END", "END"));
    assert!(same_text("", ""));
    assert!(!same_text("END", "end"));
    assert!(!same_text("END", "EN"));
    assert!(!same_text("", "x"));
}

#[test]
fn a_single_letter_is_a_variable() {
    assert_eq!(read_symbol("A"), Some(('A' as i32, TableEntryType::Variable)));
    assert_eq!(read_symbol("z"), Some(('z' as i32, TableEntryType::Variable)));
    assert_eq!(read_symbol("é"), Some(('é' as i32, TableEntryType::Variable)));
}

#[test]
fn an_integer_is_a_constant() {
    assert_eq!(read_symbol("7"), Some((7, TableEntryType::Constant)));
    assert_eq!(read_symbol("-12"), Some((-12, TableEntryType::Constant)));
    assert_eq!(read_symbol("+3"), Some((3, TableEntryType::Constant)));
    assert_eq!(read_symbol("10"), Some((10, TableEntryType::Constant)));
}

#[test]
fn anything_else_names_nothing() {
    assert_eq!(read_symbol(""), None);
    assert_eq!(read_symbol("AB"), None);
    assert_eq!(read_symbol("+"), None);
    assert_eq!(read_symbol("("), None);
    assert_eq!(read_symbol("?"), None);
    assert_eq!(read_symbol("1.5"), None);
}

#[test]
fn classify_goes_by_the_flag_it_is_given() {
    assert_eq!(classify("A", true), Some((65, TableEntryType::Variable)));
    assert_eq!(classify("A", false), None);
    assert_eq!(classify("7", true), Some((55, TableEntryType::Variable)));
    assert_eq!(classify("7", false), Some((7, TableEntryType::Constant)));
    assert_eq!(classify("77", true), Some((77, TableEntryType::Constant)));
}

#[test]
fn to_symbol_reports_an_invalid_symbol() {
    assert_eq!(to_symbol("B".to_string()).unwrap(), (66, TableEntryType::Variable));
    let error = to_symbol("B2".to_string()).unwrap_err();
    assert_eq!(error.kind, ErrorKind::Syntax);
    assert_eq!(error.details, "Invalid symbol");
    assert_eq!(error.line, None);
}

#[test]
fn read_word_ignores_the_white_space_around_a_word() {
    assert_eq!(read_word("000000ff"), Some(255));
    assert_eq!(read_word("  ff \r\n"), Some(255));
    assert_eq!(read_word("\tffffffff\n"), Some(-1));
    assert_eq!(read_word("f f"), None);
    assert_eq!(read_word("   "), None);
}

#[test]
fn read_number_reads_a_typed_decimal() {
    assert_eq!(read_number("7\n"), Some(7));
    assert_eq!(read_number(" -12 \n"), Some(-12));
    assert_eq!(read_number("ff\n"), None);
    assert_eq!(read_number("\n"), None);
}

#[test]
fn errors_are_built_from_their_parts() {
    let error = MyError::new(ErrorKind::Runtime, "Attempt to divide by zero");
    assert_eq!(error.kind, ErrorKind::Runtime);
    assert_eq!(error.details, "Attempt to divide by zero");
    assert_eq!(error.line, None);

    let error = MyError::with_token(ErrorKind::Syntax, "Unexpected token ", "?").at_line(3);
    assert_eq!(error.details, "Unexpected token ?");
    assert_eq!(error.line, Some(3));

    let error = MyError::around_token(ErrorKind::Link, "a", "b", "c");
    assert_eq!(error.details, "abc");

    assert_eq!(MyError::new(ErrorKind::Syntax, "x").located(9).line, Some(9));
    assert_eq!(MyError::new(ErrorKind::Resource, "x").located(9).line, None);
}

#[test]
fn white_space_is_what_the_standard_library_calls_white_space() {
    for code in 0..=0x10ffffu32 {
        if let Some(c) = char::from_u32(code) {
            assert_eq!(is_white(c), c.is_whitespace(), "{:x}", code);
        }
    }
}

#[test]
fn trim_agrees_with_the_standard_library() {
    let texts = [
        "", " ", "   ", "a", " a", "a ", " a ", "\t\r\n a b \n", "a  b", "\u{a0}x\u{3000}",
        "\u{2003}\u{2028}", "x\u{200b}", "\u{feff}x", " é ", "000000ff\n", "\n\n",
    ];
    for text in texts {
        assert_eq!(trim(text), text.trim(), "{:?}", text);
    }
}

#[test]
fn trim_leaves_the_digits_of_a_word_alone() {
    for word in [0, 1, -1, 0x4300, i32::MIN, i32::MAX] {
        let text = word_to_hex(word);
        assert_eq!(trim(&text), text);
    }
}

#[test]
fn split_at_splits_at_any_character() {
    assert_eq!(split_at("a\nb\n", '\n'), vec!["a", "b", ""]);
    assert_eq!(split_at("", '\n'), vec![""]);
    assert_eq!(split_at("a b", '\n'), vec!["a b"]);
    assert_eq!(split_at("a,,b", ','), vec!["a", "", "b"]);
}
