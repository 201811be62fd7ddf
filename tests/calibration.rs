use day1::text::chars_of;
use day1::{line_value, part1_extractor, part2_extractor, process_file, Extractor};

fn lines(items: &[&str]) -> Vec<String> {
    items.iter().map(|s| s.to_string()).collect()
}

fn value_of(line: &str, extractor: Extractor) -> i32 {
    line_value(&extractor.extract(line.to_string()))
}

#[test]
fn simple_keeps_digits_in_order() {
    assert_eq!(part1_extractor("1abc2".to_string()), "12");
    assert_eq!(part1_extractor("pqr3stu8vwx".to_string()), "38");
    assert_eq!(part1_extractor("a1b2c3d4e5f".to_string()), "12345");
    assert_eq!(part1_extractor("treb7uchet".to_string()), "7");
}

#[test]
fn simple_on_digits_only_line_is_identity() {
    assert_eq!(part1_extractor("0123456789".to_string()), "0123456789");
    assert_eq!(part1_extractor("907".to_string()), "907");
}

#[test]
fn simple_ignores_spelled_words_and_non_ascii() {
    assert_eq!(part1_extractor("one2three".to_string()), "2");
    assert_eq!(part1_extractor("é٣4".to_string()), "4");
    assert_eq!(part1_extractor(String::new()), "");
}

#[test]
fn words_round_trip_two1nine() {
    let digits = part2_extractor("two1nine".to_string());
    assert_eq!(digits, "219");
    assert_eq!(line_value(&digits), 29);
}

#[test]
fn words_eightwothree() {
    let digits = part2_extractor("eightwothree".to_string());
    assert_eq!(digits, "823");
    assert_eq!(line_value(&digits), 83);
}

#[test]
fn words_overlap_oneight() {
    let digits = part2_extractor("oneight".to_string());
    assert_eq!(digits, "18");
    assert_eq!(line_value(&digits), 18);
}

#[test]
fn words_every_name() {
    assert_eq!(
        part2_extractor("onetwothreefourfivesixseveneightnine".to_string()),
        "123456789"
    );
    assert_eq!(part2_extractor("zero0".to_string()), "0");
    assert_eq!(part2_extractor("twone".to_string()), "21");
    assert_eq!(part2_extractor("ONE".to_string()), "");
    assert_eq!(part2_extractor("nin".to_string()), "");
}

#[test]
fn no_digits_gives_zero() {
    assert_eq!(line_value(&String::new()), 0);
    assert_eq!(value_of("abcdef", Extractor::Digits), 0);
    assert_eq!(value_of("abcdef", Extractor::Words), 0);
}

#[test]
fn one_digit_is_doubled() {
    assert_eq!(line_value(&"7".to_string()), 77);
    assert_eq!(value_of("treb7uchet", Extractor::Digits), 77);
    assert_eq!(value_of("xxsixxx", Extractor::Words), 66);
}

#[test]
fn value_uses_first_and_last() {
    assert_eq!(line_value(&"12345".to_string()), 15);
    assert_eq!(line_value(&"90".to_string()), 90);
    assert_eq!(line_value(&"09".to_string()), 9);
}

#[test]
fn extract_follows_the_chosen_way() {
    assert_eq!(Extractor::Digits.extract("two1nine".to_string()), "1");
    assert_eq!(Extractor::Words.extract("two1nine".to_string()), "219");
}

#[test]
fn sum_simple_example() {
    let input = lines(&["1abc2", "pqr3stu8vwx", "a1b2c3d4e5f", "treb7uchet"]);
    assert_eq!(process_file(&input, Extractor::Digits), Some(142));
}

#[test]
fn sum_words_example() {
    let input = lines(&[
        "two1nine",
        "eightwothree",
        "abcone2threexyz",
        "xtwone3four",
        "4nineeightseven2",
        "zoneight234",
        "7pqrstsixteen",
    ]);
    assert_eq!(process_file(&input, Extractor::Words), Some(281));
}

#[test]
fn sum_equals_sum_of_line_values() {
    let items = ["two1nine", "oneight", "abc", "5"];
    let input = lines(&items);
    for extractor in [Extractor::Digits, Extractor::Words] {
        let expected: i64 = items.iter().map(|l| value_of(l, extractor) as i64).sum();
        assert_eq!(process_file(&input, extractor), Some(expected));
    }
    assert_eq!(process_file(&input, Extractor::Words), Some(29 + 18 + 0 + 55));
}

#[test]
fn sum_ignores_line_order() {
    let forward = lines(&["1abc2", "pqr3stu8vwx", "a1b2c3d4e5f", "treb7uchet"]);
    let mut backward = forward.clone();
    backward.reverse();
    assert_eq!(
        process_file(&forward, Extractor::Digits),
        process_file(&backward, Extractor::Digits)
    );
    assert_eq!(process_file(&backward, Extractor::Digits), Some(142));
}

#[test]
fn sum_of_no_lines_is_zero() {
    assert_eq!(process_file(&Vec::new(), Extractor::Digits), Some(0));
    assert_eq!(process_file(&lines(&["", ""]), Extractor::Words), Some(0));
}

#[test]
fn chars_of_keeps_every_character() {
    assert_eq!(chars_of("aé1"), vec!['a', 'é', '1']);
    assert_eq!(chars_of(""), Vec::<char>::new());
}
