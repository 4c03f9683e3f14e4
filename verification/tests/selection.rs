use mod_updater::selection::{parse_selection, pick, Pick};
use mod_updater::Error;

#[test]
fn plain_number_selects() {
    assert_eq!(parse_selection("2", 5), Ok(2));
    assert_eq!(parse_selection("0", 1), Ok(0));
    assert_eq!(parse_selection("4", 5), Ok(4));
}

#[test]
fn answer_is_trimmed() {
    assert_eq!(parse_selection("  3\n", 5), Ok(3));
    assert_eq!(parse_selection("\t1 \r\n", 2), Ok(1));
    assert_eq!(parse_selection("\u{a0}1\u{3000}", 2), Ok(1));
}

#[test]
fn plus_sign_and_leading_zeros_are_accepted() {
    assert_eq!(parse_selection("+3", 5), Ok(3));
    assert_eq!(parse_selection("007", 8), Ok(7));
}

#[test]
fn out_of_range_is_invalid() {
    assert_eq!(parse_selection("5", 5), Err(Error::InvalidSelection));
    assert_eq!(parse_selection("0", 0), Err(Error::InvalidSelection));
    assert_eq!(
        parse_selection("99999999999999999999999999999999999999999999", 5),
        Err(Error::InvalidSelection)
    );
}

#[test]
fn non_numeric_is_invalid() {
    for text in ["", "   ", "abc", "-1", "1 2", "1x", "+", "++1", "1.0", "٣"] {
        assert_eq!(parse_selection(text, 10), Err(Error::InvalidSelection));
    }
}

#[test]
fn parse_selection_agrees_with_std() {
    let samples = [
        "0", "1", " 7 ", "+9", "12", "012", "x", "", " ", "-0", "3 ", "\n4", "1_0", "18446744073709551616",
    ];
    for text in samples {
        for count in [0usize, 1, 5, 13, usize::MAX] {
            let expected = match text.trim().parse::<usize>() {
                Ok(i) if i < count => Ok(i),
                _ => Err(Error::InvalidSelection),
            };
            assert_eq!(parse_selection(text, count), expected);
        }
    }
}

#[test]
fn pick_without_candidates_is_empty() {
    assert_eq!(pick(0, false, None), Pick::Empty);
    assert_eq!(pick(0, true, Some(&String::from("0"))), Pick::Empty);
}

#[test]
fn pick_takes_single_candidate_without_asking() {
    assert_eq!(pick(1, false, None), Pick::Index(0));
    assert_eq!(pick(1, false, Some(&String::from("junk"))), Pick::Index(0));
}

#[test]
fn pick_takes_first_when_told_to() {
    assert_eq!(pick(4, true, None), Pick::Index(0));
}

#[test]
fn pick_asks_then_reads_the_answer() {
    assert_eq!(pick(3, false, None), Pick::Ask);
    assert_eq!(pick(3, false, Some(&String::from("2\n"))), Pick::Index(2));
    assert_eq!(pick(3, false, Some(&String::from("3\n"))), Pick::Invalid);
    assert_eq!(pick(3, false, Some(&String::from("two"))), Pick::Invalid);
}

#[test]
fn every_character_is_treated_as_std_treats_it() {
    for code in 0u32..=0x10ffff {
        if let Some(c) = char::from_u32(code) {
            for text in [format!("{c}1"), format!("1{c}"), format!("{c}")] {
                let expected = match text.trim().parse::<usize>() {
                    Ok(i) if i < 12 => Ok(i),
                    _ => Err(Error::InvalidSelection),
                };
                assert_eq!(parse_selection(&text, 12), expected);
            }
        }
    }
}
