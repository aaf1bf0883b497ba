use chimera_text::numeral::{decode_numeral, get_chapter_number, NumeralKind, NumeralMatch};

#[test]
fn decodes_arabic_heading() {
    assert_eq!(get_chapter_number("Chapter 12"), Some(12));
}

#[test]
fn decodes_roman_heading() {
    assert_eq!(get_chapter_number("Chapter XII"), Some(12));
    assert_eq!(get_chapter_number("chapter iv"), Some(4));
}

#[test]
fn decodes_single_ideographic_digit() {
    assert_eq!(get_chapter_number("第五章"), Some(5));
    assert_eq!(get_chapter_number("第 五 章"), Some(5));
    assert_eq!(get_chapter_number("第一五四章"), Some(154));
}

#[test]
fn heading_without_numeral_has_no_number() {
    assert_eq!(get_chapter_number("Preface"), None);
    assert_eq!(get_chapter_number("Afterword"), None);
    assert_eq!(get_chapter_number(""), None);
}

#[test]
fn arabic_precedes_roman_in_one_heading() {
    assert_eq!(get_chapter_number("Part 3 Chapter IX"), Some(3));
    assert_eq!(get_chapter_number("Part IX Chapter 3"), Some(9));
}

#[test]
fn too_large_arabic_number_is_no_number() {
    assert_eq!(get_chapter_number("Chapter 99999999999"), None);
    assert_eq!(get_chapter_number("Chapter 2147483647"), Some(2147483647));
    assert_eq!(get_chapter_number("Chapter 2147483648"), None);
}

#[test]
fn roman_numeral_out_of_range_is_no_number() {
    let heading = format!("Chapter {}", "C".repeat(50));
    assert_eq!(get_chapter_number(&heading), None);
    assert_eq!(get_chapter_number("Chapter CCCC"), Some(400));
    assert_eq!(get_chapter_number("Chapter CCCCLXXXXVIIII"), Some(499));
}

#[test]
fn ideographic_ten_is_not_composed() {
    assert_eq!(get_chapter_number("第 十 章"), None);
}

#[test]
fn ideographic_digits_are_concatenated() {
    let m = NumeralMatch { kind: NumeralKind::Ideographic, digits: "一五四".to_string() };
    assert_eq!(decode_numeral(&m), Some(154));
    let m = NumeralMatch { kind: NumeralKind::Ideographic, digits: "〇三".to_string() };
    assert_eq!(decode_numeral(&m), Some(3));
    let m = NumeralMatch { kind: NumeralKind::Ideographic, digits: "十一".to_string() };
    assert_eq!(decode_numeral(&m), None);
}

#[test]
fn decodes_each_system_directly() {
    let m = NumeralMatch { kind: NumeralKind::Arabic, digits: "0042".to_string() };
    assert_eq!(decode_numeral(&m), Some(42));
    let m = NumeralMatch { kind: NumeralKind::Roman, digits: "xlii".to_string() };
    assert_eq!(decode_numeral(&m), Some(42));
    let m = NumeralMatch { kind: NumeralKind::Roman, digits: "CXLII".to_string() };
    assert_eq!(decode_numeral(&m), Some(142));
    let m = NumeralMatch { kind: NumeralKind::Roman, digits: "MCMLXXXIV".to_string() };
    assert_eq!(decode_numeral(&m), None);
    let m = NumeralMatch { kind: NumeralKind::Roman, digits: "VVVX".to_string() };
    assert_eq!(decode_numeral(&m), None);
}

#[test]
fn decoding_odd_text_does_not_panic() {
    let samples = ["", " ", "\u{0}", "IIII", "VX", "第五章", "12abc", "ｘ", "0", "〇", "--- 7 ---"];
    for s in samples {
        let _ = get_chapter_number(s);
    }
    assert_eq!(get_chapter_number("--- 7 ---"), Some(7));
}

#[test]
fn unconventional_roman_numerals_are_rejected() {
    assert_eq!(get_chapter_number("Chapter VX"), None);
    assert_eq!(get_chapter_number("Chapter VVVX"), None);
    assert_eq!(get_chapter_number("Chapter IIIIIIV"), None);
    assert_eq!(get_chapter_number("Chapter IIV"), None);
    assert_eq!(get_chapter_number("Chapter XCC"), None);
    let long = format!("Chapter {}", "I".repeat(70000));
    assert_eq!(get_chapter_number(&long), None);
}

#[test]
fn conventional_roman_numerals_are_read() {
    assert_eq!(get_chapter_number("Chapter IIII"), Some(4));
    assert_eq!(get_chapter_number("Chapter XIV"), Some(14));
    assert_eq!(get_chapter_number("Chapter xcix"), Some(99));
    assert_eq!(get_chapter_number("Chapter CXLIX"), Some(149));
    assert_eq!(get_chapter_number("Chapter LXXXX"), Some(90));
}

#[test]
fn arabic_zero_needs_word_boundaries() {
    assert_eq!(get_chapter_number("x0y"), None);
    assert_eq!(get_chapter_number("〇"), Some(0));
}
