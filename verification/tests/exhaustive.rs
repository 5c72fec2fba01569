use fater::{Choice, Description, ParseErrorType, SectionIdentifier};

/// Every text of at most `max` characters over `alphabet`.
fn texts_over(alphabet: &[char], max: usize) -> Vec<String> {
    let mut all = vec![String::new()];
    let mut last = vec![String::new()];
    for _ in 0..max {
        let mut next = Vec::new();
        for text in &last {
            for c in alphabet {
                let mut longer = text.clone();
                longer.push(*c);
                next.push(longer);
            }
        }
        all.extend(next.iter().cloned());
        last = next;
    }
    all
}

fn kind_name(kind: &ParseErrorType) -> String {
    match kind {
        ParseErrorType::SectionIdentifier(c) => format!("SectionIdentifier({:?})", c),
        ParseErrorType::DuplicateSections(..) => "DuplicateSections".to_owned(),
        other => format!("{:?}", other),
    }
}

/// An identifier, told by the string functions of the standard library.
fn identifier_by_std(text: &str, def: bool) -> Result<String, (String, String)> {
    let text = text.trim();
    let mut colon = false;
    let mut letter = false;
    for c in text.chars() {
        if (c.is_ascii_uppercase() || c.is_ascii_digit() || c == '_') && !colon {
            letter = letter || c.is_ascii_alphabetic();
        } else if c == ':' && !colon {
            colon = true;
        } else {
            return Err((format!("SectionIdentifier({:?})", c), text.to_owned()));
        }
    }
    let name = text.strip_suffix(':').unwrap_or(text).to_owned();
    if def && !colon {
        Err(("MissingColon".to_owned(), name))
    } else if !def && colon {
        Err(("UnexpectedColon".to_owned(), name))
    } else if !letter {
        Err(("MissingAlphabetic".to_owned(), name))
    } else {
        Ok(name)
    }
}

#[test]
fn identifiers_agree_with_the_standard_string_functions() {
    for text in texts_over(&['A', 'z', '7', '_', ':', ' '], 5) {
        for def in [true, false] {
            let expected = identifier_by_std(&text, def);
            let found = match SectionIdentifier::parse((1, &text), def) {
                Ok(id) => Ok(id.as_str().to_owned()),
                Err(e) => {
                    assert_eq!(e.line_num(), 1);
                    Err((kind_name(e.error_type()), e.text().to_owned()))
                }
            };
            assert_eq!(found, expected, "{:?} {}", text, def);
        }
    }
}

/// The paragraphs of a text, told by the string functions of the standard
/// library; empty ones are left out.
fn paragraphs_by_std(text: &str) -> Vec<String> {
    let joined: String = text.trim().lines().map(|line| format!("{}\n", line.trim())).collect();
    joined
        .split("\n\n")
        .map(|piece| piece.replace('\n', " ").trim().to_owned())
        .filter(|paragraph| !paragraph.is_empty())
        .collect()
}

fn paragraphs_of(description: &Description) -> Vec<String> {
    description.paragraphs().iter().map(|p| p.as_str().to_owned()).collect()
}

#[test]
fn descriptions_agree_with_the_standard_string_functions() {
    for text in texts_over(&['a', ' ', '\n', '\r'], 7) {
        let description = Description::new(&text);
        assert_eq!(paragraphs_of(&description), paragraphs_by_std(&text), "{:?}", text);
        assert_eq!(description.to_text(), paragraphs_by_std(&text).join("\n\n"), "{:?}", text);
        assert_eq!(description.is_empty(), text.trim().is_empty(), "{:?}", text);
    }
}

/// A choice, told by the string functions of the standard library.
fn choice_by_std(line: &str) -> Result<(Vec<String>, String), (String, String)> {
    let parts: Vec<&str> = line.split("->").collect();
    if parts.len() < 2 || parts[0].ends_with('\\') {
        return Err(("MissingArrow".to_owned(), line.to_owned()));
    } else if parts.len() > 2 {
        return Err(("MultipleArrows".to_owned(), line.to_owned()));
    }
    let goto = identifier_by_std(parts[1], false)?;
    Ok((paragraphs_by_std(parts[0]), goto))
}

#[test]
fn choices_agree_with_the_standard_string_functions() {
    for line in texts_over(&['-', '>', '\\', 'B', ' '], 6) {
        let expected = choice_by_std(&line);
        let found = match Choice::parse(&line, 2) {
            Ok(choice) => {
                Ok((paragraphs_of(choice.description()), choice.goto().as_str().to_owned()))
            }
            Err(e) => {
                assert_eq!(e.line_num(), 2);
                Err((kind_name(e.error_type()), e.text().to_owned()))
            }
        };
        assert_eq!(found, expected, "{:?}", line);
    }
}
