use fater::{
    load_str, source_lines, Choice, Description, ParseErrorType, Section, SectionIdentifier, Story,
};

const EXAMPLE: &str = "START:
this is a description

yes -> FIRST
no -> SECOND
---
FIRST:
you went first

-> END
---
SECOND:
you went second

-> END
---
";

fn texts(d: &Description) -> Vec<String> {
    d.paragraphs().iter().map(|p| p.as_str().to_owned()).collect()
}

fn targets(section: &Section) -> Vec<String> {
    section.choices().iter().map(|c| c.goto().as_str().to_owned()).collect()
}

fn labels(section: &Section) -> Vec<Vec<String>> {
    section.choices().iter().map(|c| texts(c.description())).collect()
}

#[test]
fn definition_and_reference_give_the_same_name() {
    for name in ["A", "FOO", "BOB_MARLEY", "_X1", "9Z_", "IRAQ_2004"] {
        let defined = SectionIdentifier::parse((3, &format!("{}:", name)), true).unwrap();
        let referred = SectionIdentifier::parse((7, name), false).unwrap();
        assert_eq!(defined, referred);
        assert_eq!(defined.as_str(), name);
    }
}

#[test]
fn section_description_splits_into_two_paragraphs() {
    let lines = source_lines("A:\nfoo\nbar\n\nbaz\ngo -> B\n---");
    let (section, _) = Section::parse(&lines, 0).unwrap();
    assert_eq!(texts(section.description()), vec!["foo bar", "baz"]);
    assert_eq!(texts(&Description::new("foo\nbar\n\nbaz")), vec!["foo bar", "baz"]);
}

#[test]
fn parsing_twice_gives_equal_stories() {
    let first = Story::parse(EXAMPLE).unwrap();
    let second = Story::parse(EXAMPLE).unwrap();
    assert_eq!(first, second);
    assert_eq!(first, first.clone());
    assert_eq!(load_str(EXAMPLE).unwrap(), first);
}

#[test]
fn parsing_twice_gives_equal_errors() {
    let first = Story::parse("A:\nfoo\ngo -> GHOST\n---").unwrap_err();
    let second = Story::parse("A:\nfoo\ngo -> GHOST\n---").unwrap_err();
    assert_eq!(first.line_num(), second.line_num());
    assert_eq!(first.text(), second.text());
    assert!(matches!(first.error_type(), ParseErrorType::DanglingGoto));
    assert!(matches!(second.error_type(), ParseErrorType::DanglingGoto));
}

#[test]
fn lone_end_shorthand_expands_to_navigation() {
    let lines = source_lines("A:\nthe end\n-> END\n---");
    let (section, next) = Section::parse(&lines, 0).unwrap();
    assert_eq!(next, 4);
    assert_eq!(targets(&section), vec!["__RESTART", "__MENU"]);
    assert_eq!(
        labels(&section),
        vec![vec!["Restart from beginning".to_owned()], vec!["Return to menu".to_owned()]]
    );
}

#[test]
fn lone_shorthand_elsewhere_is_labelled_continue() {
    let lines = source_lines("A:\nonwards\n-> B\n---");
    let (section, _) = Section::parse(&lines, 0).unwrap();
    assert_eq!(targets(&section), vec!["B"]);
    assert_eq!(labels(&section), vec![vec!["Continue...".to_owned()]]);
}

#[test]
fn reserved_names_cannot_be_defined() {
    for name in ["END", "__RESTART", "__MENU"] {
        let source = format!("{}:\nsome text\ngo -> A\n---\nA:\ntext\n-> END\n---", name);
        let err = Story::parse(&source).unwrap_err();
        assert!(matches!(err.error_type(), ParseErrorType::ReservedKeyUsage));
        assert_eq!(err.line_num(), 3);
        assert_eq!(err.text(), "---");
    }
}

#[test]
fn reserved_name_without_a_body_fails_on_the_body() {
    let err = Story::parse("END:").unwrap_err();
    assert!(matches!(err.error_type(), ParseErrorType::ExpectedDescription));
}

#[test]
fn duplicate_sections_are_refused_with_both() {
    let source = "ALICE:\nfirst\none -> ALICE\n---\n\nALICE:\nsecond\ntwo -> ALICE\n---";
    let err = Story::parse(source).unwrap_err();
    assert_eq!(err.line_num(), 5);
    assert_eq!(err.text(), "ALICE:");
    match err.error_type() {
        ParseErrorType::DuplicateSections(later, earlier) => {
            assert_eq!(later.identifier().as_str(), "ALICE");
            assert_eq!(earlier.identifier().as_str(), "ALICE");
            assert_eq!(texts(later.description()), vec!["second"]);
            assert_eq!(texts(earlier.description()), vec!["first"]);
            assert_eq!(later.line_num(), 5);
            assert_eq!(earlier.line_num(), 0);
        }
        other => panic!("expected DuplicateSections, got {:?}", other),
    }
}

#[test]
fn dangling_goto_is_refused() {
    let err = Story::parse("# a story\nA:\nfoo\n\nbar\ngo on -> GHOST\n---").unwrap_err();
    assert!(matches!(err.error_type(), ParseErrorType::DanglingGoto));
    assert_eq!(err.line_num(), 1);
    assert_eq!(err.text(), "go on -> GHOST");
}

#[test]
fn first_dangling_goto_in_source_order_is_reported() {
    let source = "A:\nfoo\nx -> B\ny -> NOWHERE\n---\nB:\nbar\nz -> ELSEWHERE\n---";
    let err = Story::parse(source).unwrap_err();
    assert!(matches!(err.error_type(), ParseErrorType::DanglingGoto));
    assert_eq!(err.line_num(), 0);
    assert_eq!(err.text(), "y -> NOWHERE");
}

#[test]
fn example_story_parses() {
    let story = Story::parse(EXAMPLE).unwrap();
    assert_eq!(story.sections().len(), 3);

    let start = story.get_section(&SectionIdentifier::parse((0, "START"), false).unwrap()).unwrap();
    assert_eq!(texts(start.description()), vec!["this is a description"]);
    assert_eq!(targets(start), vec!["FIRST", "SECOND"]);
    assert_eq!(labels(start), vec![vec!["yes".to_owned()], vec!["no".to_owned()]]);
    assert_eq!(start.line_num(), 0);

    for (name, text, line) in [("FIRST", "you went first", 6), ("SECOND", "you went second", 11)] {
        let section =
            story.get_section(&SectionIdentifier::parse((0, name), false).unwrap()).unwrap();
        assert_eq!(section.identifier().as_str(), name);
        assert_eq!(texts(section.description()), vec![text]);
        assert_eq!(targets(section), vec!["__RESTART", "__MENU"]);
        assert_eq!(
            labels(section),
            vec![vec!["Restart from beginning".to_owned()], vec!["Return to menu".to_owned()]]
        );
        assert_eq!(section.line_num(), line);
    }

    for section in story.sections() {
        for choice in section.choices() {
            let goto = choice.goto();
            assert!(
                goto.as_str() == "__RESTART"
                    || goto.as_str() == "__MENU"
                    || story.get_section(goto).is_some()
            );
        }
    }
    assert!(story.get_section(&SectionIdentifier::parse((0, "THIRD"), false).unwrap()).is_none());
}

#[test]
fn header_without_colon_is_refused() {
    let err = Story::parse("MU\nfoo -> BAR").unwrap_err();
    assert!(matches!(err.error_type(), ParseErrorType::MissingColon));
    assert_eq!(err.line_num(), 0);
    assert_eq!(err.text(), "MU");
}

#[test]
fn two_arrows_are_refused() {
    let err = Choice::parse("a -> B -> C", 4).unwrap_err();
    assert!(matches!(err.error_type(), ParseErrorType::MultipleArrows));
    assert_eq!(err.line_num(), 4);
    assert_eq!(err.text(), "a -> B -> C");

    let err = Story::parse("A:\nfoo\nok -> A\na -> B -> C\n---").unwrap_err();
    assert!(matches!(err.error_type(), ParseErrorType::MultipleArrows));
    assert_eq!(err.line_num(), 3);
}
