use dropsync::ask::parse_choice;
use dropsync::ask::parse_yes_or_no;
use dropsync::ask::Choice;

#[derive(Debug, PartialEq, Copy, Clone)]
enum Boop {
    Foo,
    Bar,
}

#[test]
fn test_parse_yes_or_no() {
    assert_eq!(parse_yes_or_no("blarg"), None);
    assert_eq!(parse_yes_or_no("yup"), Some(true));
    assert_eq!(parse_yes_or_no("YES"), Some(true));
    assert_eq!(parse_yes_or_no("nah"), Some(false));
    assert_eq!(parse_yes_or_no("NO WAY BUDDY"), Some(false));
}

#[test]
fn test_parse_choice() {
    let choices = [
        Choice {
            name: "foo",
            value: Boop::Foo,
        },
        Choice {
            name: "bar",
            value: Boop::Bar,
        },
    ];

    assert_eq!(parse_choice("FOO", &choices), Some(Boop::Foo));
    assert_eq!(parse_choice("foo", &choices), Some(Boop::Foo));
    assert_eq!(parse_choice("", &choices), None);
    assert_eq!(parse_choice("blarg", &choices), None);
}

#[test]
fn test_parse_yes_or_no_empty_reply() {
    assert_eq!(parse_yes_or_no(""), None);
}

#[test]
fn test_parse_choice_folds_beyond_latin_letters() {
    let choices = [Choice {
        name: "\u{fc}ber",
        value: Boop::Foo,
    }];
    assert_eq!(parse_choice("\u{dc}BER", &choices), Some(Boop::Foo));
}

#[test]
fn test_parse_choice_second_entry() {
    let choices = [
        Choice {
            name: "foo",
            value: Boop::Foo,
        },
        Choice {
            name: "BAR",
            value: Boop::Bar,
        },
    ];
    assert_eq!(parse_choice("bar", &choices), Some(Boop::Bar));
}
