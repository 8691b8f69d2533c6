use angolmois::directive::Span;
use angolmois::input::{parse_input, InputName};

#[test]
fn a_button_is_named_by_its_number() {
    assert_eq!(parse_input(b"button 2"), InputName::JoyButton(2));
    assert_eq!(parse_input(b"  button \t 17  "), InputName::JoyButton(17));
    assert_eq!(parse_input(b"button 3 or so"), InputName::JoyButton(3));
}

#[test]
fn an_axis_is_named_by_its_number() {
    assert_eq!(parse_input(b"axis 0"), InputName::JoyAxis(0));
    assert_eq!(parse_input(b"axis 007"), InputName::JoyAxis(7));
}

#[test]
fn anything_else_is_the_name_of_a_key() {
    assert_eq!(parse_input(b"backspace"), InputName::Key(Span { from: 0, to: 9 }));
    assert_eq!(parse_input(b"  left shift "), InputName::Key(Span { from: 2, to: 12 }));
    assert_eq!(parse_input(b""), InputName::Key(Span { from: 0, to: 0 }));
    assert_eq!(parse_input(b"   "), InputName::Key(Span { from: 3, to: 3 }));
}

#[test]
fn a_word_without_its_number_is_the_name_of_a_key() {
    assert_eq!(parse_input(b"button"), InputName::Key(Span { from: 0, to: 6 }));
    assert_eq!(parse_input(b"button2"), InputName::Key(Span { from: 0, to: 7 }));
    assert_eq!(parse_input(b"axis x"), InputName::Key(Span { from: 0, to: 6 }));
    assert_eq!(parse_input(b"Button 2"), InputName::Key(Span { from: 0, to: 8 }));
    assert_eq!(
        parse_input(b"button 99999999999999999999"),
        InputName::Key(Span { from: 0, to: 27 })
    );
}
