//! Sections: a name, a description and the choices that lead on from it.
use crate::choice::{choice_of, Choice, ChoiceView};
use crate::error::{agrees, ErrorKind, ErrorView, ParseError, ParseErrorType};
use crate::identifier::{
    identifier_of, is_sentinel, lemma_accepted_is_valid, reserved_of, valid_name, Reserved,
    SectionIdentifier,
};
use crate::prose::{description_text, lemma_paragraphs, paragraphs, Description};
use crate::text::{chars_of, lemma_views_push, string_of, trim, trimmed, views};
use vstd::prelude::*;
use vstd::slice::*;
use vstd::string::*;

verus! {

/// One line of source text with its number, counted from 0.
#[derive(Clone, Debug, PartialEq, Eq)]
pub struct Line {
    pub num: usize,
    pub text: String,
}

/// The mathematical form of a [`Line`].
pub struct LineView {
    pub num: nat,
    pub text: Seq<char>,
}

impl View for Line {
    type V = LineView;

    open spec fn view(&self) -> LineView {
        LineView { num: self.num as nat, text: self.text@ }
    }
}

/// The line that ends a section.
pub open spec fn separator() -> Seq<char> {
    seq!['-', '-', '-']
}

/// What the lines of a section's body hold.
pub struct BodyView {
    /// The lines of the description, each trimmed.
    pub prose: Seq<Seq<char>>,
    pub choices: Seq<ChoiceView>,
    /// The index of the first line behind the section.
    pub next: int,
}

/// What reading the body of a section from line `i` on gives, with `prose` and
/// `choices` gathered so far. Each line is trimmed. Until there is a choice,
/// a line that is no choice is prose and the separator is an error. From the
/// first choice on, empty lines count for nothing, the separator ends the
/// section, and a line that is no choice is the error that made it none. The
/// end of the lines ends the section too.
pub open spec fn scan(
    lines: Seq<LineView>,
    i: int,
    prose: Seq<Seq<char>>,
    choices: Seq<ChoiceView>,
) -> Result<BodyView, ErrorView>
    decreases lines.len() - i,
{
    if i < 0 || i >= lines.len() {
        Ok(BodyView { prose, choices, next: lines.len() as int })
    } else {
        let t = trim(lines[i].text);
        if t.len() == 0 && choices.len() > 0 {
            scan(lines, i + 1, prose, choices)
        } else if t == separator() {
            if choices.len() > 0 {
                Ok(BodyView { prose, choices, next: i + 1 })
            } else {
                Err(ErrorView { kind: ErrorKind::ExpectedChoice, line_num: lines[i].num, text: t })
            }
        } else {
            match choice_of(lines[i].num, t) {
                Ok(c) => scan(lines, i + 1, prose, choices.push(c)),
                Err(e) => if choices.len() == 0 {
                    scan(lines, i + 1, prose.push(t), choices)
                } else {
                    Err(e)
                },
            }
        }
    }
}

/// Whether `c` has no label: the shorthand.
pub open spec fn is_shorthand(c: ChoiceView) -> bool {
    c.description.len() == 0
}

/// Whether `c` leads to `END`.
pub open spec fn leads_to_end(c: ChoiceView) -> bool {
    c.goto == Reserved::End.name()
}

/// The number of choices at the front of `cs` that have a label and do not
/// lead to `END`.
pub open spec fn plain_prefix(cs: Seq<ChoiceView>) -> nat
    decreases cs.len(),
{
    if cs.len() == 0 || is_shorthand(cs[0]) || leads_to_end(cs[0]) {
        0
    } else {
        1 + plain_prefix(cs.drop_first())
    }
}

/// The two choices that stand for the end of a story.
pub open spec fn navigation() -> Seq<ChoiceView> {
    seq![
        ChoiceView {
            description: seq!["Restart from beginning"@],
            goto: Reserved::Restart.name(),
        },
        ChoiceView { description: seq!["Return to menu"@], goto: Reserved::Menu.name() },
    ]
}

/// The choices of a section as they are kept. Choices with a label that do
/// not lead to `END` stay as they are. The first other choice decides: with a
/// label it is an error, since only the shorthand may lead to `END`; without,
/// it must be the only choice, and becomes the two choices of
/// [`navigation`] if it leads to `END`, and gets the label `Continue...`
/// otherwise.
pub open spec fn rewritten(cs: Seq<ChoiceView>) -> Result<Seq<ChoiceView>, ErrorKind> {
    let k = plain_prefix(cs) as int;
    if k >= cs.len() {
        Ok(cs)
    } else if !is_shorthand(cs[k]) {
        Err(ErrorKind::InvalidEnd)
    } else if cs.len() != 1 {
        Err(ErrorKind::ChoiceShorthandNotLone)
    } else if leads_to_end(cs[0]) {
        Ok(navigation())
    } else {
        Ok(seq![ChoiceView { description: seq!["Continue..."@], goto: cs[0].goto }])
    }
}

/// Whether a choice of `cs` names one of the two targets that only the parser
/// may write.
pub open spec fn names_sentinel(cs: Seq<ChoiceView>) -> bool {
    exists|i: int| 0 <= i < cs.len() && is_sentinel(#[trigger] cs[i].goto)
}

/// The mathematical form of a [`Section`].
pub struct SectionView {
    pub identifier: Seq<char>,
    pub description: Seq<Seq<char>>,
    pub choices: Seq<ChoiceView>,
    /// The number of the line that names the section, counted from 0.
    pub line_num: nat,
}

/// The section made of the parts that were read, or the first rule that they
/// break; `last` is the last line that was read, which every error names. In
/// this order: a description is needed, and a choice; the name must not be
/// reserved; no choice may name `__RESTART` or `__MENU`; and the choices must
/// pass [`rewritten`].
pub open spec fn assembled(
    name: Seq<char>,
    description: Seq<Seq<char>>,
    choices: Seq<ChoiceView>,
    line_num: nat,
    last: LineView,
) -> Result<SectionView, ErrorView> {
    if description.len() == 0 {
        Err(ErrorView { kind: ErrorKind::ExpectedDescription, line_num: last.num, text: last.text })
    } else if choices.len() == 0 {
        Err(ErrorView { kind: ErrorKind::ExpectedChoice, line_num: last.num, text: last.text })
    } else if reserved_of(name) is Some || names_sentinel(choices) {
        Err(ErrorView { kind: ErrorKind::ReservedKeyUsage, line_num: last.num, text: last.text })
    } else {
        match rewritten(choices) {
            Err(kind) => Err(ErrorView { kind, line_num: last.num, text: last.text }),
            Ok(cs) => Ok(SectionView { identifier: name, description, choices: cs, line_num }),
        }
    }
}

/// What parsing the section that starts at line `start` gives: the section,
/// and the index of the first line behind it. The first line is the name,
/// defined with its colon; the body follows as [`scan`] reads it; the lines of
/// prose form the description as [`paragraphs`] says; and [`assembled`]
/// checks the whole.
pub open spec fn section_of(lines: Seq<LineView>, start: int) -> Result<
    (SectionView, int),
    ErrorView,
> {
    match identifier_of(lines[start].num, lines[start].text, true) {
        Err(e) => Err(e),
        Ok(name) => match scan(lines, start + 1, Seq::empty(), Seq::empty()) {
            Err(e) => Err(e),
            Ok(body) => match assembled(
                name,
                paragraphs(body.prose),
                body.choices,
                lines[start].num,
                lines[body.next - 1],
            ) {
                Err(e) => Err(e),
                Ok(section) => Ok((section, body.next)),
            },
        },
    }
}

/// One choice as markup: an element that carries the target as an attribute
/// and shows the label.
pub open spec fn rendered_choice(c: ChoiceView) -> Seq<char> {
    "<div class=\"choice\" data-fater-goto=\""@ + c.goto + "\">\n    <span>\n        "@
        + description_text(c.description) + "\n    </span>\n</div>"@
}

/// The choices `cs` as markup, one after the other.
pub open spec fn rendered_choices(cs: Seq<ChoiceView>) -> Seq<char>
    decreases cs.len(),
{
    if cs.len() == 0 {
        Seq::empty()
    } else {
        rendered_choices(cs.drop_last()) + rendered_choice(cs.last())
    }
}

/// The section `s` as markup: a block with the description in one paragraph
/// element, then a block with the choices.
pub open spec fn rendered(s: SectionView) -> Seq<char> {
    "<div id=\"description\">\n    <p>\n        "@ + description_text(s.description)
        + "\n    </p>\n</div>\n<div id=\"choices\">"@ + rendered_choices(s.choices) + "</div>"@
}

/// Whether no paragraph of `d` is empty.
pub open spec fn valid_prose(d: Seq<Seq<char>>) -> bool {
    forall|i: int| 0 <= i < d.len() ==> (#[trigger] d[i]).len() > 0
}

/// Whether the choices `cs` are as [`choice_of`] gives them: each leads to a
/// well-formed name, and no paragraph of a label is empty.
pub open spec fn as_read(cs: Seq<ChoiceView>) -> bool {
    forall|i: int|
        0 <= i < cs.len() ==> valid_name(#[trigger] cs[i].goto) && valid_prose(cs[i].description)
}

/// Whether `c` may stand in a section: it has a label, and leads to a
/// well-formed name other than `END`.
pub open spec fn valid_choice(c: ChoiceView) -> bool {
    &&& c.description.len() > 0
    &&& valid_prose(c.description)
    &&& valid_name(c.goto)
    &&& !leads_to_end(c)
}

/// Whether `s` is a section as the parser gives it: a well-formed name that
/// is not reserved, a description, at least one choice, and only choices that
/// may stand in a section; `__RESTART` and `__MENU` occur only in the two
/// choices of [`navigation`].
pub open spec fn valid_section(s: SectionView) -> bool {
    &&& valid_name(s.identifier)
    &&& reserved_of(s.identifier) is None
    &&& s.description.len() > 0
    &&& valid_prose(s.description)
    &&& s.choices.len() > 0
    &&& forall|i: int| 0 <= i < s.choices.len() ==> valid_choice(#[trigger] s.choices[i])
    &&& names_sentinel(s.choices) ==> s.choices == navigation()
}

/// A named part of a story.
#[derive(Debug, PartialEq, Eq, PartialOrd, Ord)]
pub struct Section {
    identifier: SectionIdentifier,
    description: Description,
    choices: Vec<Choice>,
    line_num: usize,
}

impl View for Section {
    type V = SectionView;

    closed spec fn view(&self) -> SectionView {
        SectionView {
            identifier: self.identifier@,
            description: self.description@,
            choices: views(self.choices@),
            line_num: self.line_num as nat,
        }
    }
}

impl Clone for Section {
    fn clone(&self) -> (r: Self)
        ensures
            r@ == self@,
    {
        Section {
            identifier: self.identifier.clone(),
            description: self.description.clone(),
            choices: copy_choices(&self.choices),
            line_num: self.line_num,
        }
    }
}

/// Whether `r` is what `model` describes: the same outcome, with the same
/// section and the same next line, or the same error.
pub open spec fn section_agrees(
    r: Result<(Section, usize), ParseError>,
    model: Result<(SectionView, int), ErrorView>,
) -> bool {
    match model {
        Ok((section, next)) => r matches Ok(found) && found.0@ == section && found.1 == next,
        Err(e) => r matches Err(x) && x@ == e,
    }
}

/// The choices in front of the first one that is special are plain, and that
/// one is not.
pub proof fn lemma_plain_prefix(cs: Seq<ChoiceView>)
    ensures
        plain_prefix(cs) <= cs.len(),
        forall|i: int|
            0 <= i < plain_prefix(cs) ==> !is_shorthand(#[trigger] cs[i]) && !leads_to_end(cs[i]),
        plain_prefix(cs) < cs.len() ==> is_shorthand(cs[plain_prefix(cs) as int]) || leads_to_end(
            cs[plain_prefix(cs) as int],
        ),
    decreases cs.len(),
{
    if !(cs.len() == 0 || is_shorthand(cs[0]) || leads_to_end(cs[0])) {
        let rest = cs.drop_first();
        lemma_plain_prefix(rest);
        assert forall|i: int| 0 <= i < plain_prefix(cs) implies !is_shorthand(#[trigger] cs[i])
            && !leads_to_end(cs[i]) by {
            if i > 0 {
                assert(cs[i] == rest[i - 1]);
            }
        }
    }
}

/// The two choices of [`navigation`] may stand in a section.
pub proof fn lemma_navigation()
    ensures
        navigation().len() == 2,
        valid_choice(navigation()[0]),
        valid_choice(navigation()[1]),
{
    crate::identifier::lemma_reserved_names();
    reveal_strlit("Restart from beginning");
    reveal_strlit("Return to menu");
}

/// Choices that were read from the source and name no sentinel are, once
/// rewritten, choices that may stand in a section.
pub proof fn lemma_rewritten_valid(cs: Seq<ChoiceView>)
    requires
        as_read(cs),
        !names_sentinel(cs),
    ensures
        rewritten(cs) matches Ok(out) ==> {
            &&& out.len() > 0 <==> cs.len() > 0
            &&& forall|i: int| 0 <= i < out.len() ==> valid_choice(#[trigger] out[i])
            &&& names_sentinel(out) ==> out == navigation()
        },
{
    lemma_plain_prefix(cs);
    lemma_navigation();
    reveal_strlit("Continue...");
    if let Ok(out) = rewritten(cs) {
        let k = plain_prefix(cs) as int;
        if k >= cs.len() {
            assert forall|i: int| 0 <= i < out.len() implies valid_choice(#[trigger] out[i]) by {
                assert(valid_name(cs[i].goto));
            }
        } else if !leads_to_end(cs[0]) {
            assert(valid_name(cs[0].goto));
            assert(out[0].description[0].len() > 0);
            if names_sentinel(out) {
                let i = choose|i: int| 0 <= i < out.len() && is_sentinel(#[trigger] out[i].goto);
                assert(is_sentinel(cs[0].goto));
            }
        }
    }
}

/// A section that is assembled from a well-formed name, a description and
/// choices as they were read is a section as [`valid_section`] asks.
pub proof fn lemma_assembled_valid(
    name: Seq<char>,
    description: Seq<Seq<char>>,
    choices: Seq<ChoiceView>,
    line_num: nat,
    last: LineView,
)
    requires
        valid_name(name),
        valid_prose(description),
        as_read(choices),
    ensures
        assembled(name, description, choices, line_num, last) matches Ok(s) ==> valid_section(s),
{
    if !names_sentinel(choices) {
        lemma_rewritten_valid(choices);
    }
}

/// A copy of `choices`.
pub(crate) fn copy_choices(choices: &Vec<Choice>) -> (out: Vec<Choice>)
    ensures
        views(out@) == views(choices@),
{
    let mut out: Vec<Choice> = Vec::new();
    let mut i: usize = 0;
    while i < choices.len()
        invariant
            i <= choices.len(),
            views(out@) == views(choices@).take(i as int),
        decreases choices.len() - i,
    {
        let ghost before = out@;
        let c = choices[i].clone();
        out.push(c);
        proof {
            lemma_views_push(before, c);
            assert(views(out@) =~= views(choices@).take(i + 1));
        }
        i += 1;
    }
    proof {
        assert(views(out@) =~= views(choices@));
    }
    out
}

fn is_separator(t: &[char]) -> (b: bool)
    ensures
        b == (t@ == separator()),
{
    let b = t.len() == 3 && t[0] == '-' && t[1] == '-' && t[2] == '-';
    proof {
        if b {
            assert(t@ =~= separator());
        }
    }
    b
}

/// Applies [`rewritten`] to the choices of a section.
pub fn rewrite(choices: Vec<Choice>) -> (r: Result<Vec<Choice>, ParseErrorType>)
    ensures
        match rewritten(views(choices@)) {
            Ok(cs) => r matches Ok(out) && views(out@) == cs,
            Err(kind) => r matches Err(e) && e@ == kind,
        },
{
    let ghost cs = views(choices@);
    let mut k: usize = 0;
    proof {
        assert(cs.skip(0) == cs);
    }
    while k < choices.len() && !choices[k].description().is_empty() && !matches!(
        choices[k].goto().reserved(),
        Some(Reserved::End)
    )
        invariant
            k <= choices.len(),
            cs == views(choices@),
            plain_prefix(cs) == k + plain_prefix(cs.skip(k as int)),
        decreases choices.len() - k,
    {
        proof {
            assert(cs.skip(k as int).drop_first() == cs.skip(k + 1));
            assert(cs.skip(k as int)[0] == choices@[k as int]@);
        }
        k += 1;
    }
    proof {
        if k < choices.len() {
            assert(cs.skip(k as int)[0] == choices@[k as int]@);
        }
    }
    if k >= choices.len() {
        return Ok(choices);
    }
    if !choices[k].description().is_empty() {
        return Err(ParseErrorType::InvalidEnd);
    }
    if choices.len() != 1 {
        return Err(ParseErrorType::ChoiceShorthandNotLone);
    }
    let mut out: Vec<Choice> = Vec::new();
    if matches!(choices[0].goto().reserved(), Some(Reserved::End)) {
        let restart = Choice::new(
            Description::single("Restart from beginning"),
            SectionIdentifier::of_reserved(Reserved::Restart),
        );
        let menu = Choice::new(
            Description::single("Return to menu"),
            SectionIdentifier::of_reserved(Reserved::Menu),
        );
        out.push(restart);
        out.push(menu);
        proof {
            assert(views(out@) =~= navigation());
        }
    } else {
        let next = Choice::new(Description::single("Continue..."), choices[0].goto().clone());
        out.push(next);
        proof {
            assert(views(out@) =~= seq![
                ChoiceView { description: seq!["Continue..."@], goto: cs[0].goto },
            ]);
        }
    }
    Ok(out)
}

/// Whether a choice of `choices` names `__RESTART` or `__MENU`.
pub(crate) fn any_sentinel(choices: &Vec<Choice>) -> (b: bool)
    ensures
        b == names_sentinel(views(choices@)),
{
    let ghost cs = views(choices@);
    let mut i: usize = 0;
    while i < choices.len()
        invariant
            i <= choices.len(),
            cs == views(choices@),
            forall|j: int| 0 <= j < i ==> !is_sentinel(#[trigger] cs[j].goto),
        decreases choices.len() - i,
    {
        proof {
            assert(cs[i as int] == choices@[i as int]@);
        }
        if matches!(choices[i].goto().reserved(), Some(Reserved::Restart) | Some(Reserved::Menu)) {
            proof {
                crate::identifier::lemma_reserved_names();
                assert(is_sentinel(cs[i as int].goto));
            }
            return true;
        }
        proof {
            crate::identifier::lemma_reserved_names();
        }
        i += 1;
    }
    false
}

impl Section {
    /// Parses the section that starts at line `start` of `lines`, and says
    /// at which line to go on.
    pub fn parse(lines: &Vec<Line>, start: usize) -> (r: Result<(Section, usize), ParseError>)
        requires
            start < lines.len(),
        ensures
            section_agrees(r, section_of(views(lines@), start as int)),
            r matches Ok(found) ==> valid_section(found.0@) && start < found.1 <= lines.len(),
    {
        let ghost all = views(lines@);
        let header = &lines[start];
        proof {
            assert(all[start as int] == header@);
            lemma_accepted_is_valid(header.num as nat, header.text@, true);
        }
        let identifier = SectionIdentifier::parse((header.num, header.text.as_str()), true)?;
        let (prose, choices, next) = Section::scan_body(lines, start + 1)?;
        let description = Description::from_lines(&prose);
        let last = &lines[next - 1];
        proof {
            assert(all[next - 1] == last@);
            lemma_paragraphs(views(prose@));
            lemma_assembled_valid(
                identifier@,
                description@,
                views(choices@),
                header.num as nat,
                last@,
            );
        }
        let section = Section::assemble(identifier, description, choices, header.num, last)?;
        Ok((section, next))
    }

    /// Reads the body of a section from line `from` on: the lines of its
    /// description, its choices, and the line to go on at.
    pub(crate) fn scan_body(lines: &Vec<Line>, from: usize) -> (r: Result<
        (Vec<Vec<char>>, Vec<Choice>, usize),
        ParseError,
    >)
        requires
            from <= lines.len(),
        ensures
            match scan(views(lines@), from as int, Seq::empty(), Seq::empty()) {
                Ok(body) => r matches Ok(found) && views(found.0@) == body.prose && views(found.1@)
                    == body.choices && found.2 == body.next,
                Err(e) => r matches Err(x) && x@ == e,
            },
            r matches Ok(found) ==> from <= found.2 <= lines.len() && as_read(views(found.1@)),
    {
        let ghost all = views(lines@);
        let mut prose: Vec<Vec<char>> = Vec::new();
        let mut choices: Vec<Choice> = Vec::new();
        let mut i: usize = from;
        proof {
            assert(views(prose@) =~= Seq::<Seq<char>>::empty());
            assert(views(choices@) =~= Seq::<ChoiceView>::empty());
        }
        while i < lines.len()
            invariant
                from <= i <= lines.len(),
                all == views(lines@),
                scan(all, from as int, Seq::empty(), Seq::empty()) == scan(
                    all,
                    i as int,
                    views(prose@),
                    views(choices@),
                ),
                as_read(views(choices@)),
            decreases lines.len() - i,
        {
            let line = &lines[i];
            let chars = chars_of(line.text.as_str());
            let t = trimmed(chars.as_slice());
            proof {
                assert(all[i as int] == line@);
            }
            if t.len() == 0 && choices.len() > 0 {
                i += 1;
                continue ;
            }
            if is_separator(t) {
                if choices.len() > 0 {
                    return Ok((prose, choices, i + 1));
                }
                return Err(ParseError::new(ParseErrorType::ExpectedChoice, line.num, string_of(t)));
            }
            match Choice::parse_chars(t, line.num) {
                Ok(c) => {
                    let ghost before = choices@;
                    proof {
                        lemma_views_push(before, c);
                        crate::prose::lemma_description_valid(
                            t@.take(crate::choice::before_arrow(t@) as int),
                        );
                    }
                    choices.push(c);
                },
                Err(e) => {
                    if choices.len() == 0 {
                        let ghost before = prose@;
                        let kept = slice_to_vec(t);
                        proof {
                            lemma_views_push(before, kept);
                        }
                        prose.push(kept);
                    } else {
                        return Err(e);
                    }
                },
            }
            i += 1;
        }
        Ok((prose, choices, i))
    }

    /// Puts a section together from the parts that were read, or reports the
    /// first rule that they break; `last` is the last line that was read.
    pub fn assemble(
        identifier: SectionIdentifier,
        description: Description,
        choices: Vec<Choice>,
        line_num: usize,
        last: &Line,
    ) -> (r: Result<Section, ParseError>)
        ensures
            agrees(
                r,
                assembled(identifier@, description@, views(choices@), line_num as nat, last@),
            ),
    {
        if description.is_empty() {
            return Err(
                ParseError::new(ParseErrorType::ExpectedDescription, last.num, last.text.clone()),
            );
        }
        if choices.len() == 0 {
            return Err(
                ParseError::new(ParseErrorType::ExpectedChoice, last.num, last.text.clone()),
            );
        }
        if identifier.reserved().is_some() || any_sentinel(&choices) {
            return Err(
                ParseError::new(ParseErrorType::ReservedKeyUsage, last.num, last.text.clone()),
            );
        }
        match rewrite(choices) {
            Err(kind) => Err(ParseError::new(kind, last.num, last.text.clone())),
            Ok(choices) => Ok(Section { identifier, description, choices, line_num }),
        }
    }

    /// The section as markup for a page.
    pub fn render(&self) -> (out: String)
        ensures
            out@ == rendered(self@),
    {
        let mut out = String::from_str("<div id=\"description\">\n    <p>\n        ");
        out.append(self.description.to_text().as_str());
        out.append("\n    </p>\n</div>\n<div id=\"choices\">");
        let ghost head = out@;
        let ghost cs = views(self.choices@);
        let mut i: usize = 0;
        proof {
            assert(cs.take(0) =~= Seq::<ChoiceView>::empty());
            assert(head + rendered_choices(cs.take(0)) =~= head);
        }
        while i < self.choices.len()
            invariant
                i <= self.choices.len(),
                cs == views(self.choices@),
                out@ == head + rendered_choices(cs.take(i as int)),
            decreases self.choices.len() - i,
        {
            let choice = &self.choices[i];
            proof {
                let upto = cs.take(i + 1);
                assert(upto.drop_last() =~= cs.take(i as int));
                assert(upto.last() == choice@);
            }
            let ghost before = out@;
            out.append("<div class=\"choice\" data-fater-goto=\"");
            out.append(choice.goto().as_str());
            out.append("\">\n    <span>\n        ");
            out.append(choice.description().to_text().as_str());
            out.append("\n    </span>\n</div>");
            proof {
                assert(out@ =~= before + rendered_choice(choice@));
                assert(out@ =~= head + rendered_choices(cs.take(i + 1)));
            }
            i += 1;
        }
        proof {
            assert(cs.take(self.choices.len() as int) =~= cs);
        }
        out.append("</div>");
        out
    }

    /// The name.
    pub fn identifier(&self) -> (id: &SectionIdentifier)
        ensures
            id@ == self@.identifier,
    {
        &self.identifier
    }

    /// The description.
    pub fn description(&self) -> (d: &Description)
        ensures
            d@ == self@.description,
    {
        &self.description
    }

    /// The choices, in order.
    pub fn choices(&self) -> (cs: &Vec<Choice>)
        ensures
            views(cs@) == self@.choices,
    {
        &self.choices
    }

    /// The number of the line that names the section, counted from 0.
    pub fn line_num(&self) -> (n: usize)
        ensures
            n == self@.line_num,
    {
        self.line_num
    }
}

} // verus!
