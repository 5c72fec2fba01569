use fater::{
    source_lines, Choice, Description, Line, ParseError, ParseErrorType, Section,
    SectionIdentifier, Story,
};

fn id(name: &str) -> SectionIdentifier {
    SectionIdentifier::parse((0, name), false).unwrap()
}

#[test]
fn identifier_refuses_other_characters() {
    let err = SectionIdentifier::parse((2, "  FOo: "), true).unwrap_err();
    assert!(matches!(err.error_type(), ParseErrorType::SectionIdentifier('o')));
    assert_eq!(err.line_num(), 2);
    assert_eq!(err.text(), "FOo:");

    let err = SectionIdentifier::parse((0, "A B"), false).unwrap_err();
    assert!(matches!(err.error_type(), ParseErrorType::SectionIdentifier(' ')));
}

#[test]
fn identifier_refuses_anything_behind_the_colon() {
    let err = SectionIdentifier::parse((0, "FOO:X"), true).unwrap_err();
    assert!(matches!(err.error_type(), ParseErrorType::SectionIdentifier('X')));
    assert_eq!(err.text(), "FOO:X");

    let err = SectionIdentifier::parse((0, "FOO::"), true).unwrap_err();
    assert!(matches!(err.error_type(), ParseErrorType::SectionIdentifier(':')));
}

#[test]
fn identifier_colon_must_fit_the_mode() {
    let err = SectionIdentifier::parse((1, "FOO"), true).unwrap_err();
    assert!(matches!(err.error_type(), ParseErrorType::MissingColon));
    assert_eq!(err.text(), "FOO");

    let err = SectionIdentifier::parse((1, " FOO: "), false).unwrap_err();
    assert!(matches!(err.error_type(), ParseErrorType::UnexpectedColon));
    assert_eq!(err.text(), "FOO");
    assert_eq!(err.line_num(), 1);
}

#[test]
fn identifier_needs_a_letter() {
    for text in ["123", "_", "4_2", ""] {
        let err = SectionIdentifier::parse((0, text), false).unwrap_err();
        assert!(matches!(err.error_type(), ParseErrorType::MissingAlphabetic));
        assert_eq!(err.text(), text);
    }
    let err = SectionIdentifier::parse((0, "12:"), true).unwrap_err();
    assert!(matches!(err.error_type(), ParseErrorType::MissingAlphabetic));
    assert_eq!(err.text(), "12");
    // the colon is looked at before the letters
    let err = SectionIdentifier::parse((0, ""), true).unwrap_err();
    assert!(matches!(err.error_type(), ParseErrorType::MissingColon));
}

#[test]
fn identifier_is_trimmed() {
    assert_eq!(SectionIdentifier::parse((0, " \t A_1 \u{3000}"), false).unwrap().as_str(), "A_1");
}

#[test]
fn choice_needs_an_arrow() {
    for line in ["", "no arrow here", "a - > B", "a >- B", "-", ">"] {
        let err = Choice::parse(line, 9).unwrap_err();
        assert!(matches!(err.error_type(), ParseErrorType::MissingArrow));
        assert_eq!(err.line_num(), 9);
        assert_eq!(err.text(), line);
    }
}

#[test]
fn escaped_arrow_is_no_arrow() {
    let err = Choice::parse("a \\-> B", 0).unwrap_err();
    assert!(matches!(err.error_type(), ParseErrorType::MissingArrow));
    // the escape is looked at before the number of arrows
    let err = Choice::parse("a \\-> B -> C", 0).unwrap_err();
    assert!(matches!(err.error_type(), ParseErrorType::MissingArrow));
    // only a backslash directly before the first arrow counts
    assert!(Choice::parse("a \\ -> B", 0).is_ok());
}

#[test]
fn choice_target_is_an_identifier_without_colon() {
    let err = Choice::parse("a -> B:", 5).unwrap_err();
    assert!(matches!(err.error_type(), ParseErrorType::UnexpectedColon));
    assert_eq!(err.text(), "B");
    assert_eq!(err.line_num(), 5);

    let err = Choice::parse("a -> b", 0).unwrap_err();
    assert!(matches!(err.error_type(), ParseErrorType::SectionIdentifier('b')));

    let err = Choice::parse("a -> >B", 0).unwrap_err();
    assert!(matches!(err.error_type(), ParseErrorType::SectionIdentifier('>')));

    let err = Choice::parse("a ->", 0).unwrap_err();
    assert!(matches!(err.error_type(), ParseErrorType::MissingAlphabetic));
}

#[test]
fn choice_without_label_is_the_shorthand() {
    let choice = Choice::parse("  -> B", 0).unwrap();
    assert!(choice.description().is_empty());
    assert_eq!(choice.goto().as_str(), "B");
    assert!(!Choice::parse("x -> B", 0).unwrap().description().is_empty());
}

#[test]
fn separator_before_any_choice_is_refused() {
    let lines = source_lines("A:\nsome text\n  ---  \nx -> B");
    let err = Section::parse(&lines, 0).unwrap_err();
    assert!(matches!(err.error_type(), ParseErrorType::ExpectedChoice));
    assert_eq!(err.line_num(), 2);
    assert_eq!(err.text(), "---");
}

#[test]
fn section_without_choice_is_refused() {
    let err = Story::parse("A:\nsome text\nmore text").unwrap_err();
    assert!(matches!(err.error_type(), ParseErrorType::ExpectedChoice));
    assert_eq!(err.line_num(), 2);
    assert_eq!(err.text(), "more text");
}

#[test]
fn section_without_description_is_refused() {
    let err = Story::parse("A:\nx -> A\n---").unwrap_err();
    assert!(matches!(err.error_type(), ParseErrorType::ExpectedDescription));
    assert_eq!(err.line_num(), 2);
    assert_eq!(err.text(), "---");

    // empty lines alone are no description
    let err = Story::parse("A:\n\n  \nx -> A\n---").unwrap_err();
    assert!(matches!(err.error_type(), ParseErrorType::ExpectedDescription));

    // a name alone ends on its own line
    let err = Story::parse("\n\nA:").unwrap_err();
    assert!(matches!(err.error_type(), ParseErrorType::ExpectedDescription));
    assert_eq!(err.line_num(), 2);
    assert_eq!(err.text(), "A:");
}

#[test]
fn prose_among_the_choices_is_refused() {
    let err = Story::parse("A:\ntext\nx -> A\nmore text\n---").unwrap_err();
    assert!(matches!(err.error_type(), ParseErrorType::MissingArrow));
    assert_eq!(err.line_num(), 3);
    assert_eq!(err.text(), "more text");

    let err = Story::parse("A:\ntext\nx -> A\n  y -> b  \n---").unwrap_err();
    assert!(matches!(err.error_type(), ParseErrorType::SectionIdentifier('b')));
    assert_eq!(err.line_num(), 3);
    assert_eq!(err.text(), "b");
}

#[test]
fn labelled_choice_to_end_is_refused() {
    let err = Story::parse("A:\ntext\nstop -> END\n---").unwrap_err();
    assert!(matches!(err.error_type(), ParseErrorType::InvalidEnd));
    assert_eq!(err.line_num(), 3);
    assert_eq!(err.text(), "---");

    let err = Story::parse("A:\ntext\nstop -> END\n-> A\n---").unwrap_err();
    assert!(matches!(err.error_type(), ParseErrorType::InvalidEnd));
}

#[test]
fn shorthand_beside_other_choices_is_refused() {
    let err = Story::parse("A:\ntext\n-> A\nx -> A").unwrap_err();
    assert!(matches!(err.error_type(), ParseErrorType::ChoiceShorthandNotLone));
    assert_eq!(err.line_num(), 3);
    assert_eq!(err.text(), "x -> A");

    let err = Story::parse("A:\ntext\nx -> A\n-> END\n---").unwrap_err();
    assert!(matches!(err.error_type(), ParseErrorType::ChoiceShorthandNotLone));
}

#[test]
fn sentinels_cannot_be_written_as_targets() {
    for target in ["__RESTART", "__MENU"] {
        let source = format!("A:\ntext\nx -> A\nback -> {}\n---", target);
        let err = Story::parse(&source).unwrap_err();
        assert!(matches!(err.error_type(), ParseErrorType::ReservedKeyUsage));
        assert_eq!(err.line_num(), 4);
    }
    // the reserved names are looked at before the shorthand
    let err = Story::parse("A:\ntext\n-> A\nback -> __MENU\n---").unwrap_err();
    assert!(matches!(err.error_type(), ParseErrorType::ReservedKeyUsage));
}

#[test]
fn assemble_reports_the_first_broken_rule() {
    let last = Line { num: 12, text: "  the last line ".to_owned() };
    let choice = || Choice::new(Description::single("go"), id("B"));

    let err = Section::assemble(id("A"), Description::new(" \n "), vec![], 3, &last).unwrap_err();
    assert!(matches!(err.error_type(), ParseErrorType::ExpectedDescription));
    assert_eq!(err.line_num(), 12);
    assert_eq!(err.text(), "  the last line ");

    let err = Section::assemble(id("A"), Description::new("d"), vec![], 3, &last).unwrap_err();
    assert!(matches!(err.error_type(), ParseErrorType::ExpectedChoice));

    let err =
        Section::assemble(id("END"), Description::new("d"), vec![choice()], 3, &last).unwrap_err();
    assert!(matches!(err.error_type(), ParseErrorType::ReservedKeyUsage));

    let section =
        Section::assemble(id("A"), Description::new("d"), vec![choice()], 3, &last).unwrap();
    assert_eq!(section.line_num(), 3);
    assert_eq!(section.choices(), &vec![choice()]);
}

#[test]
fn error_holds_what_it_was_made_of() {
    let err = ParseError::new(ParseErrorType::UnexpectedSeparator, 41, "---".to_owned());
    assert!(matches!(err.error_type(), ParseErrorType::UnexpectedSeparator));
    assert_eq!(err.line_num(), 41);
    assert_eq!(err.display_line(), Some(42));
    assert_eq!(err.text(), "---");

    let err = ParseError::new(ParseErrorType::MissingArrow, usize::MAX, String::new());
    assert_eq!(err.display_line(), None);
}
