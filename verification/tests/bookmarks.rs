use strange_attractors::bookmarks::{
    bookmark_line, bookmark_values, contains, is_bookmarked, split_fields, write_bookmark,
};
use strange_attractors::{Parameters, Scalar};

fn scalar(number: f64) -> Scalar {
    Scalar::from_bits(number.to_bits())
}

fn number(scalar: Scalar) -> f64 {
    f64::from_bits(scalar.to_bits())
}

fn render(scalar: Scalar) -> Vec<u8> {
    format!("{}", number(scalar)).into_bytes()
}

fn texts(fields: &[&str]) -> Vec<Vec<u8>> {
    fields.iter().map(|field| field.as_bytes().to_vec()).collect()
}

#[test]
fn entry_lists_the_four_parameters() {
    let mut out = Vec::new();
    write_bookmark(&mut out, b"-1.4", b"1.6", b"1", b"0.7");
    assert_eq!(out, b"a=-1.4,b=1.6,c=1,d=0.7".to_vec());
}

#[test]
fn entry_is_appended() {
    let mut out = b"x\n".to_vec();
    write_bookmark(&mut out, b"", b"2", b"", b"4");
    assert_eq!(out, b"x\na=,b=2,c=,d=4".to_vec());
}

#[test]
fn entry_of_parameters_is_rendered() {
    let parameters =
        Parameters { a: scalar(-1.4), b: scalar(1.6), c: scalar(1.0), d: scalar(0.7) };
    assert_eq!(bookmark_line(parameters, render), b"a=-1.4,b=1.6,c=1,d=0.7".to_vec());
}

#[test]
fn contains_finds_text_anywhere() {
    assert!(contains(b"a=1,b=2,c=3,d=4", b"a=1,b=2,c=3,d=4"));
    assert!(contains(b"a=1,b=2,c=3,d=4", b"a=1"));
    assert!(contains(b"a=1,b=2,c=3,d=4", b"d=4"));
    assert!(contains(b"a=1,b=2,c=3,d=4", b",c=3,"));
    assert!(contains(b"aab", b"ab"));
}

#[test]
fn contains_misses_what_is_not_there() {
    assert!(!contains(b"a=1,b=2,c=3,d=4", b"a=2"));
    assert!(!contains(b"a=1,b=2,c=3,d=4", b"a=1,b=2,c=3,d=45"));
    assert!(!contains(b"abc", b"abcd"));
    assert!(!contains(b"", b"a"));
    assert!(!contains(b"abab", b"bb"));
}

#[test]
fn everything_contains_the_empty_text() {
    assert!(contains(b"abc", b""));
    assert!(contains(b"", b""));
}

#[test]
fn bookmarked_when_some_line_contains_the_entry() {
    let lines = texts(&["a=1,b=2,c=3,d=4", "a=-1.4,b=1.6,c=1,d=0.7", ""]);
    assert!(is_bookmarked(&lines, b"a=-1.4,b=1.6,c=1,d=0.7"));
    assert!(is_bookmarked(&lines, b"a=1,b=2,c=3,d=4"));
    assert!(!is_bookmarked(&lines, b"a=1,b=2,c=3,d=5"));
    assert!(!is_bookmarked(&Vec::new(), b"a=1,b=2,c=3,d=4"));
}

#[test]
fn entry_contained_in_a_longer_line_counts_as_bookmarked() {
    let lines = texts(&["a=1,b=2,c=3,d=45"]);
    assert!(is_bookmarked(&lines, b"a=1,b=2,c=3,d=4"));
}

#[test]
fn appended_entry_is_found_again() {
    let parameters =
        Parameters { a: scalar(0.5), b: scalar(-2.0), c: scalar(1.25), d: scalar(3.0) };
    let entry = bookmark_line(parameters, render);
    let mut lines = texts(&["a=1,b=2,c=3,d=4"]);
    assert!(!is_bookmarked(&lines, &entry));
    lines.push(entry.clone());
    assert!(is_bookmarked(&lines, &entry));
}

#[test]
fn fields_are_split_at_commas() {
    assert_eq!(split_fields(b"a=1,b=2,c=3,d=4"), texts(&["a=1", "b=2", "c=3", "d=4"]));
    assert_eq!(split_fields(b"abc"), texts(&["abc"]));
    assert_eq!(split_fields(b""), texts(&[""]));
    assert_eq!(split_fields(b","), texts(&["", ""]));
    assert_eq!(split_fields(b"a,,b,"), texts(&["a", "", "b", ""]));
}

#[test]
fn fields_joined_by_commas_are_the_line() {
    for line in ["", ",", "a=1,b=2,c=3,d=4", "a,,b,", ",,,", "no comma at all"] {
        let fields = split_fields(line.as_bytes());
        assert!(fields.iter().all(|field| !field.contains(&b',')));
        assert_eq!(fields.join(&b','), line.as_bytes().to_vec());
    }
}

#[test]
fn values_drop_label_and_equals_sign() {
    assert_eq!(
        bookmark_values(b"a=-1.4,b=1.6,c=1,d=0.7"),
        Some(texts(&["-1.4", "1.6", "1", "0.7"]))
    );
    assert_eq!(bookmark_values(b"a=,b=2"), Some(texts(&["", "2"])));
}

#[test]
fn values_of_a_line_with_a_short_field_are_refused() {
    assert_eq!(bookmark_values(b""), None);
    assert_eq!(bookmark_values(b"a=1,b"), None);
    assert_eq!(bookmark_values(b"a=1,,c=3"), None);
    assert_eq!(bookmark_values(b"a=1,b=2,"), None);
}

#[test]
fn values_read_back_what_was_written() {
    let parameters =
        Parameters { a: scalar(-1.4), b: scalar(1.6), c: scalar(1.0), d: scalar(0.7) };
    let entry = bookmark_line(parameters, render);
    let values = bookmark_values(&entry).unwrap();
    let numbers: Vec<f64> = values
        .iter()
        .map(|text| String::from_utf8(text.clone()).unwrap().parse::<f64>().unwrap())
        .collect();
    assert_eq!(numbers, vec![-1.4, 1.6, 1.0, 0.7]);
}
