use fast_input::FastInput;
use fast_input::Str;

#[test]
fn str_decodes_verbatim() {
    let mut input = FastInput::with_reader("Jakub 26 Mora");
    let (name, age, city) = input.next_triple::<Str, u8, Str>();
    assert_eq!("Jakub", name.as_str());
    assert_eq!(26u8, age);
    assert_eq!("Mora", city.as_str());
}

#[test]
fn str_keeps_empty_token() {
    let mut input = FastInput::with_reader("a  b");
    let (first, middle, last) = input.next_triple::<Str, Str, Str>();
    assert_eq!("a", first.as_str());
    assert_eq!("", middle.as_str());
    assert_eq!("b", last.as_str());
}

#[test]
fn str_tuple_returns_text() {
    let mut input = FastInput::with_reader("Sven 12");
    let (name, age) = input.next_str_tuple();
    assert_eq!("Sven", name);
    assert_eq!("12", age);
}

#[test]
fn str_triple_returns_text() {
    let mut input = FastInput::with_reader("one two three four");
    let (a, b, c) = input.next_str_triple();
    assert_eq!("one", a);
    assert_eq!("two", b);
    assert_eq!("three", c);
}
