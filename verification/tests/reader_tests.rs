use fast_input::FastInput;

#[test]
fn test_empty() {
    let input = FastInput::with_reader("");
    assert_eq!(false, input.has_next_line());
}

#[test]
fn test_read_line_as_split() {
    let src = "Lorem Ipsum Sit Dolor";
    let mut input = FastInput::with_reader(src);
    let read: Vec<String> = input.next_split();
    let truth: Vec<String> = src.split(' ').map(|s| s.to_string()).collect();
    assert_eq!(truth, read);
}

#[test]
fn read_single() {
    let mut input = FastInput::with_reader("-123");
    assert_eq!(-123, input.next());
}

#[test]
fn read_tuple() {
    let mut input = FastInput::with_reader("-123 127");
    assert_eq!((-123, 127), input.next_tuple());
}

#[test]
fn read_triple() {
    let mut input = FastInput::with_reader("-123 127 -127");
    assert_eq!((-123, 127, -127), input.next_triple());
}

#[test]
fn read_quad() {
    let mut input = FastInput::with_reader("-123 127");
    assert_eq!((-123, 127), input.next_tuple());
}

#[test]
fn read_quintuple() {
    let mut input = FastInput::with_reader("-123 127 -127 123 127");
    assert_eq!((-123, 127, -127, 123, 127), input.next_quintuple());
}

#[test]
fn read_next_line() {
    let src = "A very long line";
    let mut input = FastInput::with_reader(src);
    assert_eq!(src, input.next_line());
}

#[test]
fn read_next_as_iter() {
    let src = "1 2 3";
    let mut input = FastInput::with_reader(src);
    let read: Vec<i32> = input.next_as_iter();
    assert_eq!([1, 2, 3], read[..]);
}

#[test]
fn read_some_lines() {
    let src = "1 2 3\n1 2 3\n1 2 3\n1 2 3";
    let mut input = FastInput::with_reader(src);
    for _ in 0..3 {
        let read: Vec<i32> = input.next_as_iter();
        assert_eq!([1, 2, 3], read[..]);
    }
}

#[test]
fn read_all_four_lines() {
    let src = "1 2 3\n1 2 3\n1 2 3\n1 2 3";
    let mut input = FastInput::with_reader(src);
    for _ in 0..4 {
        let read: Vec<i32> = input.next_as_iter();
        assert_eq!([1, 2, 3], read[..]);
    }
    assert_eq!(false, input.has_next_line());
}

#[test]
fn exhausted_after_consuming_all_lines() {
    let mut input = FastInput::with_reader("a\nb\nc");
    while input.has_next_line() {
        input.next_line();
    }
    assert_eq!(false, input.has_next_line());
}

#[test]
fn lines_collects_the_rest() {
    let mut input = FastInput::with_reader("a\nb\nc");
    let all: Vec<String> = input.lines();
    assert_eq!(vec!["a", "b", "c"], all);
    assert_eq!(false, input.has_next_line());
}

#[test]
fn trailing_newline_makes_no_extra_line() {
    let mut input = FastInput::with_reader("a\nb\n");
    let all: Vec<String> = input.lines();
    assert_eq!(vec!["a", "b"], all);
}

#[test]
fn empty_line_between_lines() {
    let mut input = FastInput::with_reader("a\n\nb");
    assert_eq!("a", input.next_line());
    assert_eq!("", input.next_line());
    assert_eq!("b", input.next_line());
    assert_eq!(false, input.has_next_line());
}

#[test]
fn lines_on_exhausted_reader_is_empty() {
    let mut input = FastInput::with_reader("");
    let all: Vec<String> = input.lines();
    assert!(all.is_empty());
}

#[test]
fn lone_newline_is_one_empty_line() {
    let mut input = FastInput::with_reader("\n");
    assert_eq!("", input.next_line());
    assert_eq!(false, input.has_next_line());
}

#[test]
fn consecutive_spaces_yield_empty_tokens() {
    let mut input = FastInput::with_reader("a  b");
    let read: Vec<String> = input.next_split();
    assert_eq!(vec!["a", "", "b"], read);
}

#[test]
fn whitespace_only_line_yields_one_empty_token() {
    let mut input = FastInput::with_reader("   ");
    let read: Vec<String> = input.next_split();
    assert_eq!(vec![""], read);
}

#[test]
fn surrounding_whitespace_is_trimmed() {
    let mut input = FastInput::with_reader("  7 8\t");
    assert_eq!((7u32, 8u32), input.next_tuple());
}

#[test]
fn decode_round_trip_zero() {
    let mut input = FastInput::with_reader("0");
    assert_eq!(0u8, input.next());
}

#[test]
fn decode_round_trip_extremes() {
    let mut input = FastInput::with_reader("-9223372036854775808 9223372036854775807");
    assert_eq!((i64::MIN, i64::MAX), input.next_tuple());
}

#[test]
fn decode_round_trip_widths() {
    let mut input = FastInput::with_reader("255 -128 65535 -32768 4294967295 -2147483648");
    let (a, b, c, d) = input.next_quad::<u8, i8, u16, i16>();
    assert_eq!((255u8, -128i8, 65535u16, -32768i16), (a, b, c, d));
    let mut input = FastInput::with_reader("340282366920938463463374607431768211455");
    assert_eq!(u128::MAX, input.next());
    let mut input = FastInput::with_reader("-170141183460469231731687303715884105728");
    assert_eq!(i128::MIN, input.next());
}

#[test]
fn leading_zeros_decode() {
    let mut input = FastInput::with_reader("007 -007");
    assert_eq!((7u64, -7i64), input.next_tuple());
}
