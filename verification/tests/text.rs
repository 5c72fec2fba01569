use fater::text::{chars_of, is_whitespace, split_lines, string_of, trimmed};
use fater::{
    source_lines, Description, Line, Paragraph, ParseErrorType, Reserved, Section,
    SectionIdentifier, Story,
};

fn lines_of(text: &str) -> Vec<String> {
    split_lines(&chars_of(text)).iter().map(|l| string_of(l)).collect()
}

fn trim_of(text: &str) -> String {
    string_of(trimmed(&chars_of(text)))
}

#[test]
fn characters_round_trip() {
    for text in ["", "a", "héllo wörld", "tab\there\n", "日本語"] {
        assert_eq!(string_of(&chars_of(text)), text);
        assert_eq!(chars_of(text), text.chars().collect::<Vec<char>>());
    }
}

#[test]
fn whitespace_is_what_the_standard_says() {
    for code in 0..=0x3100u32 {
        if let Some(c) = char::from_u32(code) {
            assert_eq!(is_whitespace(c), c.is_whitespace(), "U+{:04X}", code);
        }
    }
    assert!(!is_whitespace('\u{10FFFF}'));
}

#[test]
fn trimming_agrees_with_the_standard() {
    for text in ["", " ", "a", "  a b  ", "\n\t x \r\n", "\u{2003}wide\u{a0}", " \u{200b} "] {
        assert_eq!(trim_of(text), text.trim());
    }
}

#[test]
fn lines_agree_with_the_standard() {
    for text in [
        "", "a", "a\n", "a\n\n", "\n", "\n\na", "a\r\nb", "a\rb\n", "a\r", "a\r\n", "\r\n\r\n",
        "a\n\rb", "one\ntwo\nthree",
    ] {
        let expected: Vec<String> = text.lines().map(|l| l.to_owned()).collect();
        assert_eq!(lines_of(text), expected, "{:?}", text);
    }
}

#[test]
fn source_lines_keep_their_numbers_and_drop_comments() {
    let lines = source_lines("# title\nA:\n#note\n\n # no comment\nx -> A");
    assert_eq!(
        lines,
        vec![
            Line { num: 1, text: "A:".to_owned() },
            Line { num: 3, text: String::new() },
            Line { num: 4, text: " # no comment".to_owned() },
            Line { num: 5, text: "x -> A".to_owned() },
        ]
    );
    assert_eq!(source_lines(""), vec![]);
}

#[test]
fn paragraph_joins_lines_and_trims() {
    assert_eq!(Paragraph::new("").as_str(), "");
    assert_eq!(Paragraph::new(" \n ").as_str(), "");
    assert_eq!(Paragraph::new("a\nb\n").as_str(), "a b");
    assert_eq!(Paragraph::new("a\n\nb").as_str(), "a  b");
    assert_eq!(Paragraph::new("a\r\nb").as_str(), "a\r b");
}

fn texts(d: &Description) -> Vec<String> {
    d.paragraphs().iter().map(|p| p.as_str().to_owned()).collect()
}

#[test]
fn description_of_blank_text_is_empty() {
    for text in ["", " ", "\n", " \n\t\n  "] {
        assert!(Description::new(text).is_empty());
        assert_eq!(Description::new(text).to_text(), "");
    }
}

#[test]
fn description_splits_on_empty_lines() {
    assert_eq!(texts(&Description::new("one")), vec!["one"]);
    assert_eq!(texts(&Description::new("  one  \n  two  ")), vec!["one two"]);
    assert_eq!(
        texts(&Description::new("\n\none\n \ntwo\n\n\n\nthree\n")),
        vec!["one", "two", "three"]
    );
    assert_eq!(texts(&Description::new("one\r\n\r\ntwo\r\nmore")), vec!["one", "two more"]);
    assert_eq!(Description::new("a\nb\n\n\nc").to_text(), "a b\n\nc");
    assert_eq!(Description::single("as it is").to_text(), "as it is");
}

#[test]
fn section_renders_as_markup() {
    let lines = source_lines("A:\nfoo\nbar\n\nbaz\nleft -> B\nright -> C\n---");
    let (section, _) = Section::parse(&lines, 0).unwrap();
    let expected = r#"<div id="description">
    <p>
        foo bar

baz
    </p>
</div>
<div id="choices"><div class="choice" data-fater-goto="B">
    <span>
        left
    </span>
</div><div class="choice" data-fater-goto="C">
    <span>
        right
    </span>
</div></div>"#;
    assert_eq!(section.render(), expected);
}

#[test]
fn comments_and_padding_are_skipped() {
    let source = "# a story\n\nA:\n# about a\nfirst\n\n#!\nx -> A\n\n  \ny -> B\n---\n\n\n\
                  B:\nsecond\n-> END\n";
    let story = Story::parse(source).unwrap();
    assert_eq!(story.sections().len(), 2);
    let a = &story.sections()[0];
    assert_eq!(a.identifier().as_str(), "A");
    assert_eq!(a.line_num(), 2);
    assert_eq!(texts(a.description()), vec!["first"]);
    assert_eq!(a.choices().len(), 2);
    let b = &story.sections()[1];
    assert_eq!(b.line_num(), 14);
    assert_eq!(b.choices().len(), 2);
}

#[test]
fn empty_text_is_an_empty_story() {
    assert_eq!(Story::parse("").unwrap().sections().len(), 0);
    assert_eq!(Story::parse("\n\n# nothing\n").unwrap().sections().len(), 0);
}

#[test]
fn line_of_spaces_between_sections_starts_a_section() {
    let err = Story::parse("A:\ntext\n-> END\n---\n  \n").unwrap_err();
    assert!(matches!(err.error_type(), ParseErrorType::MissingColon));
    assert_eq!(err.line_num(), 4);
    assert_eq!(err.text(), "");
}

#[test]
fn carriage_returns_end_lines_too() {
    let story = Story::parse("A:\r\ntext\r\n\r\nmore\r\ngo -> A\r\n---\r\n").unwrap();
    let a = story.get_section(&SectionIdentifier::parse((0, "A"), false).unwrap()).unwrap();
    assert_eq!(texts(a.description()), vec!["text", "more"]);
    assert_eq!(a.choices()[0].goto().as_str(), "A");
}

#[test]
fn reserved_names_are_told_apart() {
    let of = |name: &str| SectionIdentifier::parse((0, name), false).unwrap().reserved();
    assert_eq!(of("END"), Some(Reserved::End));
    assert_eq!(of("__RESTART"), Some(Reserved::Restart));
    assert_eq!(of("__MENU"), Some(Reserved::Menu));
    assert_eq!(of("MENU"), None);
    assert_eq!(of("END_"), None);
    assert_eq!(SectionIdentifier::of_reserved(Reserved::Menu).as_str(), "__MENU");
    assert!(of("A").is_none());
    let a = SectionIdentifier::parse((0, "A"), false).unwrap();
    assert!(a.same(&a.clone()));
    assert!(!a.same(&SectionIdentifier::of_reserved(Reserved::End)));
}

#[test]
fn page_is_the_markup_of_the_section_asked_for() {
    let story = Story::parse("A:\nfirst\n-> B\n---\nB:\nsecond\n-> END\n---").unwrap();
    let a = story.get_section(&SectionIdentifier::parse((0, "A"), false).unwrap()).unwrap();
    assert_eq!(story.page("A"), Some(a.render()));
    assert_eq!(story.page(" B "), Some(story.sections()[1].render()));
    assert!(story.page("A").unwrap().contains("data-fater-goto=\"B\""));
    assert!(story.page("A").unwrap().contains("Continue..."));
    assert_eq!(story.page("C"), None);
    assert_eq!(story.page("__MENU"), None);
    assert_eq!(story.page("A:"), None);
    assert_eq!(story.page("a"), None);
}
