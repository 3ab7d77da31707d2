use kaleidoscope::Buffer;
use kaleidoscope::Input;
use kaleidoscope::StringInput;

#[test]
fn string_test() {
    let mut buffer = Buffer::new("123".chars().collect());
    buffer.init();

    assert_eq!(buffer.curr(), Some(&'1'));
    assert_eq!(buffer.curr(), Some(&'1'));
    assert_eq!(buffer.peek(), Some(&'2'));
    assert_eq!(buffer.peek(), Some(&'2'));
    buffer.advance();
    assert_eq!(buffer.curr(), Some(&'2'));
    assert_eq!(buffer.peek(), Some(&'3'));
    buffer.advance();
    assert_eq!(buffer.curr(), Some(&'3'));
    assert_eq!(buffer.peek(), None);
    buffer.advance();
    assert_eq!(buffer.curr(), None);
    assert_eq!(buffer.peek(), None);
}

#[test]
fn short_string_test() {
    let mut buffer = Buffer::new("12".chars().collect());
    buffer.init();

    assert_eq!(buffer.curr(), Some(&'1'));
    assert_eq!(buffer.curr(), Some(&'1'));
    assert_eq!(buffer.peek(), Some(&'2'));
    assert_eq!(buffer.peek(), Some(&'2'));
    buffer.advance();
    assert_eq!(buffer.curr(), Some(&'2'));
    assert_eq!(buffer.peek(), None);
    buffer.advance();
    assert_eq!(buffer.curr(), None);
    assert_eq!(buffer.peek(), None);
}

#[test]
fn string_input_should_work() {
    let s = "123";
    let mut input = StringInput::new(s);

    assert_eq!(Some('1'), input.curr_char());
    assert_eq!(Some('1'), input.curr_char());
    assert_eq!(Some('2'), input.peek_char());
    assert_eq!(Some('2'), input.peek_char());
    assert_eq!(Some('2'), input.advance());
    assert_eq!(Some('2'), input.curr_char());
    assert_eq!(Some('3'), input.peek_char());
    assert_eq!(Some('3'), input.advance());
    assert_eq!(None, input.advance());
    assert_eq!(None, input.curr_char());
}

#[test]
fn short_string_should_return_none() {
    let s = "1";
    let mut input = StringInput::new(s);

    assert_eq!(Some('1'), input.curr_char());
    assert_eq!(None, input.peek_char());
    assert_eq!(None, input.advance());
    assert_eq!(None, input.curr_char());
}

#[test]
fn zero_len_string_should_return_none() {
    let s = "";
    let input = StringInput::new(s);

    assert_eq!(None, input.curr_char());
    assert_eq!(None, input.peek_char());
}
