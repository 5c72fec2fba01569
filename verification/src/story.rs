//! Stories: the sections of a source text, each name defined once and every
//! choice leading to a section that exists.
use crate::choice::ChoiceView;
use crate::error::{agrees, ErrorKind, ErrorView, ParseError, ParseErrorType};
use crate::identifier::{
    identifier_of, is_sentinel, lemma_reserved_names, Reserved, SectionIdentifier,
};
use crate::prose::description_text;
use crate::section::{
    rendered, scan, section_of, valid_section, Line, LineView, Section, SectionView,
};
use crate::text::{chars_of, lemma_views_push, lines, split_lines, string_of, views};
use vstd::prelude::*;
use vstd::string::*;

verus! {

/// Whether `line` is a comment: it starts with `#`.
pub open spec fn is_comment(line: Seq<char>) -> bool {
    line.len() > 0 && line[0] == '#'
}

/// The lines `ls` with their numbers, counted from 0, and without the comments.
pub open spec fn numbered(ls: Seq<Seq<char>>) -> Seq<LineView>
    decreases ls.len(),
{
    if ls.len() == 0 {
        Seq::empty()
    } else if is_comment(ls.last()) {
        numbered(ls.drop_last())
    } else {
        numbered(ls.drop_last()).push(LineView { num: (ls.len() - 1) as nat, text: ls.last() })
    }
}

/// The lines of `text` that the parser reads: all but the comments, each with
/// the number it has in `text`.
pub open spec fn source_lines_of(text: Seq<char>) -> Seq<LineView> {
    numbered(lines(text))
}

/// The number of sections at the front of `ss` that are not called `name`:
/// the index of the first section of that name, or the length of `ss`.
pub open spec fn position(ss: Seq<SectionView>, name: Seq<char>) -> nat
    decreases ss.len(),
{
    if ss.len() == 0 || ss[0].identifier == name {
        0
    } else {
        1 + position(ss.drop_first(), name)
    }
}

/// Whether a section of `ss` is called `name`.
pub open spec fn defines(ss: Seq<SectionView>, name: Seq<char>) -> bool {
    position(ss, name) < ss.len()
}

/// The sections `ss` with `section`, which was read from `line`, behind them;
/// an error that holds `section` and the earlier section of the same name,
/// if there is one.
pub open spec fn added(ss: Seq<SectionView>, section: SectionView, line: LineView) -> Result<
    Seq<SectionView>,
    ErrorView,
> {
    if defines(ss, section.identifier) {
        Err(
            ErrorView {
                kind: ErrorKind::DuplicateSections(
                    section,
                    ss[position(ss, section.identifier) as int],
                ),
                line_num: line.num,
                text: line.text,
            },
        )
    } else {
        Ok(ss.push(section))
    }
}

/// The sections that `lines` hold from line `i` on, behind the `sections`
/// gathered so far. Empty lines between sections count for nothing; at any
/// other line a section starts.
pub open spec fn gathered(lines: Seq<LineView>, i: int, sections: Seq<SectionView>) -> Result<
    Seq<SectionView>,
    ErrorView,
>
    decreases lines.len() - i,
    via gathered_decreases
{
    if i < 0 || i >= lines.len() {
        Ok(sections)
    } else if lines[i].text.len() == 0 {
        gathered(lines, i + 1, sections)
    } else {
        match section_of(lines, i) {
            Err(e) => Err(e),
            Ok((section, next)) => match added(sections, section, lines[i]) {
                Err(e) => Err(e),
                Ok(more) => gathered(lines, next, more),
            },
        }
    }
}

#[via_fn]
proof fn gathered_decreases(lines: Seq<LineView>, i: int, sections: Seq<SectionView>) {
    if 0 <= i < lines.len() && lines[i].text.len() != 0 {
        lemma_section_extent(lines, i);
    }
}

/// The body of a section ends behind the line it starts at, within the lines.
pub proof fn lemma_scan_extent(
    lines: Seq<LineView>,
    i: int,
    prose: Seq<Seq<char>>,
    choices: Seq<ChoiceView>,
)
    requires
        0 <= i <= lines.len(),
    ensures
        scan(lines, i, prose, choices) matches Ok(body) ==> i <= body.next <= lines.len(),
    decreases lines.len() - i,
{
    if i < lines.len() {
        let t = crate::text::trim(lines[i].text);
        lemma_scan_extent(lines, i + 1, prose, choices);
        lemma_scan_extent(lines, i + 1, prose.push(t), choices);
        match crate::choice::choice_of(lines[i].num, t) {
            Ok(c) => lemma_scan_extent(lines, i + 1, prose, choices.push(c)),
            Err(_) => {},
        }
    }
}

/// A section ends behind the line it starts at, within the lines.
pub proof fn lemma_section_extent(lines: Seq<LineView>, start: int)
    requires
        0 <= start < lines.len(),
    ensures
        section_of(lines, start) matches Ok(found) ==> start < found.1 <= lines.len(),
{
    lemma_scan_extent(lines, start + 1, Seq::empty(), Seq::empty());
}

/// Whether a choice that leads to `goto` leads somewhere in `ss`: to one of
/// the two targets that always resolve, or to a section of `ss`.
pub open spec fn resolves(ss: Seq<SectionView>, goto: Seq<char>) -> bool {
    is_sentinel(goto) || defines(ss, goto)
}

/// The number of choices at the front of `cs` that lead somewhere in `ss`.
pub open spec fn resolved_prefix(ss: Seq<SectionView>, cs: Seq<ChoiceView>) -> nat
    decreases cs.len(),
{
    if cs.len() == 0 || !resolves(ss, cs[0].goto) {
        0
    } else {
        1 + resolved_prefix(ss, cs.drop_first())
    }
}

/// The number of sections at the front of `part` all of whose choices lead
/// somewhere in `ss`.
pub open spec fn sound_prefix(ss: Seq<SectionView>, part: Seq<SectionView>) -> nat
    decreases part.len(),
{
    if part.len() == 0 || resolved_prefix(ss, part[0].choices) < part[0].choices.len() {
        0
    } else {
        1 + sound_prefix(ss, part.drop_first())
    }
}

/// How a choice is shown in an error: its label, an arrow, and its target.
pub open spec fn trace(c: ChoiceView) -> Seq<char> {
    description_text(c.description) + " -> "@ + c.goto
}

/// The sections `ss` if every choice leads somewhere in them; else the error
/// for the first choice, in the order of the sections and of their choices,
/// that does not. It names the line of the section that holds the choice.
pub open spec fn checked(ss: Seq<SectionView>) -> Result<Seq<SectionView>, ErrorView> {
    let a = sound_prefix(ss, ss) as int;
    if a >= ss.len() {
        Ok(ss)
    } else {
        let b = resolved_prefix(ss, ss[a].choices) as int;
        Err(
            ErrorView {
                kind: ErrorKind::DanglingGoto,
                line_num: ss[a].line_num,
                text: trace(ss[a].choices[b]),
            },
        )
    }
}

/// What parsing `text` as a story gives: its sections in the order in which
/// they are defined, or the first error.
pub open spec fn story_of(text: Seq<char>) -> Result<Seq<SectionView>, ErrorView> {
    match gathered(source_lines_of(text), 0, Seq::empty()) {
        Err(e) => Err(e),
        Ok(ss) => checked(ss),
    }
}

/// What a page shows when the reader asks for the section called `target`:
/// the markup of that section, if `target` is a name as a choice writes it
/// and `ss` has a section of that name.
pub open spec fn page_of(ss: Seq<SectionView>, target: Seq<char>) -> Option<Seq<char>> {
    match identifier_of(0, target, false) {
        Ok(name) => if defines(ss, name) {
            Some(rendered(ss[position(ss, name) as int]))
        } else {
            None
        },
        Err(_) => None,
    }
}

/// Whether no two sections of `ss` have the same name.
pub open spec fn distinct(ss: Seq<SectionView>) -> bool {
    forall|i: int, j: int|
        0 <= i < ss.len() && 0 <= j < ss.len() && i != j ==> (#[trigger] ss[i]).identifier != (
        #[trigger] ss[j]).identifier
}

/// Whether every choice of every section of `ss` leads somewhere in `ss`.
pub open spec fn closed(ss: Seq<SectionView>) -> bool {
    forall|i: int, k: int|
        0 <= i < ss.len() && 0 <= k < ss[i].choices.len() ==> resolves(
            ss,
            #[trigger] ss[i].choices[k].goto,
        )
}

/// Whether `ss` is a story as the parser gives it: sections as
/// [`valid_section`] asks, no name defined twice, and no choice that leads
/// nowhere.
pub open spec fn valid_story(ss: Seq<SectionView>) -> bool {
    &&& forall|i: int| 0 <= i < ss.len() ==> valid_section(#[trigger] ss[i])
    &&& distinct(ss)
    &&& closed(ss)
}

/// The first section called `name` stands where `position` says, and none
/// stands earlier.
pub proof fn lemma_position(ss: Seq<SectionView>, name: Seq<char>)
    ensures
        position(ss, name) <= ss.len(),
        forall|i: int| 0 <= i < position(ss, name) ==> (#[trigger] ss[i]).identifier != name,
        position(ss, name) < ss.len() ==> ss[position(ss, name) as int].identifier == name,
    decreases ss.len(),
{
    if !(ss.len() == 0 || ss[0].identifier == name) {
        let rest = ss.drop_first();
        lemma_position(rest, name);
        assert forall|i: int| 0 <= i < position(ss, name) implies (#[trigger] ss[i]).identifier
            != name by {
            if i > 0 {
                assert(ss[i] == rest[i - 1]);
            }
        }
    }
}

/// The choices in front of the first one that leads nowhere all lead
/// somewhere, and that one does not.
pub proof fn lemma_resolved_prefix(ss: Seq<SectionView>, cs: Seq<ChoiceView>)
    ensures
        resolved_prefix(ss, cs) <= cs.len(),
        forall|k: int| 0 <= k < resolved_prefix(ss, cs) ==> resolves(ss, #[trigger] cs[k].goto),
        resolved_prefix(ss, cs) < cs.len() ==> !resolves(
            ss,
            cs[resolved_prefix(ss, cs) as int].goto,
        ),
    decreases cs.len(),
{
    if !(cs.len() == 0 || !resolves(ss, cs[0].goto)) {
        let rest = cs.drop_first();
        lemma_resolved_prefix(ss, rest);
        assert forall|k: int| 0 <= k < resolved_prefix(ss, cs) implies resolves(
            ss,
            #[trigger] cs[k].goto,
        ) by {
            if k > 0 {
                assert(cs[k] == rest[k - 1]);
            }
        }
    }
}

/// In the sections in front of the first one with a choice that leads
/// nowhere, every choice leads somewhere; in that one, a choice does not.
pub proof fn lemma_sound_prefix(ss: Seq<SectionView>, part: Seq<SectionView>)
    ensures
        sound_prefix(ss, part) <= part.len(),
        forall|i: int, k: int|
            0 <= i < sound_prefix(ss, part) && 0 <= k < part[i].choices.len() ==> resolves(
                ss,
                #[trigger] part[i].choices[k].goto,
            ),
        sound_prefix(ss, part) < part.len() ==> resolved_prefix(
            ss,
            part[sound_prefix(ss, part) as int].choices,
        ) < part[sound_prefix(ss, part) as int].choices.len(),
    decreases part.len(),
{
    if part.len() > 0 {
        lemma_resolved_prefix(ss, part[0].choices);
    }
    if !(part.len() == 0 || resolved_prefix(ss, part[0].choices) < part[0].choices.len()) {
        let rest = part.drop_first();
        lemma_sound_prefix(ss, rest);
        assert forall|i: int, k: int|
            0 <= i < sound_prefix(ss, part) && 0 <= k < part[i].choices.len() implies resolves(
            ss,
            #[trigger] part[i].choices[k].goto,
        ) by {
            if i > 0 {
                assert(part[i] == rest[i - 1]);
            }
        }
    }
}

/// Sections that pass [`checked`] come out unchanged, and every choice in
/// them leads somewhere.
pub proof fn lemma_checked(ss: Seq<SectionView>)
    ensures
        checked(ss) matches Ok(out) ==> out == ss && closed(ss),
{
    lemma_sound_prefix(ss, ss);
}

/// Adding a section to sections with distinct names keeps the names distinct.
pub proof fn lemma_added_distinct(ss: Seq<SectionView>, section: SectionView, line: LineView)
    requires
        distinct(ss),
    ensures
        added(ss, section, line) matches Ok(more) ==> distinct(more),
{
    lemma_position(ss, section.identifier);
}

/// The sections of a story, in the order in which they are defined.
#[derive(Debug, PartialEq, Eq)]
pub struct Story {
    sections: Vec<Section>,
}

impl View for Story {
    type V = Seq<SectionView>;

    closed spec fn view(&self) -> Seq<SectionView> {
        views(self.sections@)
    }
}

/// A copy of `sections`.
pub(crate) fn copy_sections(sections: &Vec<Section>) -> (out: Vec<Section>)
    ensures
        views(out@) == views(sections@),
{
    let mut out: Vec<Section> = Vec::new();
    let mut i: usize = 0;
    while i < sections.len()
        invariant
            i <= sections.len(),
            views(out@) == views(sections@).take(i as int),
        decreases sections.len() - i,
    {
        let ghost before = out@;
        let s = sections[i].clone();
        out.push(s);
        proof {
            lemma_views_push(before, s);
            assert(views(out@) =~= views(sections@).take(i + 1));
        }
        i += 1;
    }
    proof {
        assert(views(out@) =~= views(sections@));
    }
    out
}

impl Clone for Story {
    fn clone(&self) -> (r: Self)
        ensures
            r@ == self@,
    {
        Story { sections: copy_sections(&self.sections) }
    }
}

/// The lines of `text` that the parser reads: all but the comments, each with
/// the number it has in `text`.
pub fn source_lines(text: &str) -> (out: Vec<Line>)
    ensures
        views(out@) == source_lines_of(text@),
{
    let chars = chars_of(text);
    let raw = split_lines(chars.as_slice());
    let ghost all = views(raw@);
    let mut out: Vec<Line> = Vec::new();
    let mut i: usize = 0;
    proof {
        assert(all.take(0) =~= Seq::<Seq<char>>::empty());
        assert(views(out@) =~= Seq::<LineView>::empty());
    }
    while i < raw.len()
        invariant
            i <= raw.len(),
            all == views(raw@),
            all == lines(text@),
            views(out@) == numbered(all.take(i as int)),
        decreases raw.len() - i,
    {
        let line = &raw[i];
        proof {
            let upto = all.take(i + 1);
            assert(upto.drop_last() =~= all.take(i as int));
            assert(upto.last() == line@);
        }
        if !(line.len() > 0 && line[0] == '#') {
            let ghost before = out@;
            let kept = Line { num: i, text: string_of(line.as_slice()) };
            out.push(kept);
            proof {
                lemma_views_push(before, kept);
            }
        }
        i += 1;
    }
    proof {
        assert(all.take(raw.len() as int) =~= all);
    }
    out
}

/// The index of the first section of `sections` that is called as `id` is;
/// the number of sections where there is none.
pub(crate) fn find(sections: &Vec<Section>, id: &SectionIdentifier) -> (at: usize)
    ensures
        at == position(views(sections@), id@),
        at <= sections.len(),
{
    let ghost ss = views(sections@);
    let mut at: usize = 0;
    proof {
        assert(ss.skip(0) == ss);
    }
    while at < sections.len() && !sections[at].identifier().same(id)
        invariant
            at <= sections.len(),
            ss == views(sections@),
            position(ss, id@) == at + position(ss.skip(at as int), id@),
        decreases sections.len() - at,
    {
        proof {
            assert(ss.skip(at as int).drop_first() == ss.skip(at + 1));
            assert(ss.skip(at as int)[0] == sections@[at as int]@);
        }
        at += 1;
    }
    proof {
        if at < sections.len() {
            assert(ss.skip(at as int)[0] == sections@[at as int]@);
        }
    }
    at
}

/// Puts `section`, which was read from `line`, behind `sections`, unless a
/// section of that name is there already.
pub fn define(sections: &mut Vec<Section>, section: Section, line: &Line) -> (r: Result<
    (),
    ParseError,
>)
    ensures
        match added(views(old(sections)@), section@, line@) {
            Ok(more) => r is Ok && views(final(sections)@) == more,
            Err(e) => r matches Err(x) && x@ == e && final(sections)@ == old(sections)@,
        },
{
    let at = find(sections, section.identifier());
    if at < sections.len() {
        let earlier = sections[at].clone();
        proof {
            assert(views(sections@)[at as int] == sections@[at as int]@);
        }
        return Err(
            ParseError::new(
                ParseErrorType::DuplicateSections(section, earlier),
                line.num,
                line.text.clone(),
            ),
        );
    }
    proof {
        lemma_views_push(sections@, section);
    }
    sections.push(section);
    Ok(())
}

/// Whether a choice that leads to `goto` leads somewhere in `sections`.
pub(crate) fn leads_somewhere(sections: &Vec<Section>, goto: &SectionIdentifier) -> (b: bool)
    ensures
        b == resolves(views(sections@), goto@),
{
    proof {
        lemma_reserved_names();
    }
    matches!(goto.reserved(), Some(Reserved::Restart) | Some(Reserved::Menu)) || find(
        sections,
        goto,
    ) < sections.len()
}

/// Checks that every choice of `sections` leads somewhere in them.
pub fn check(sections: &Vec<Section>) -> (r: Result<(), ParseError>)
    ensures
        match checked(views(sections@)) {
            Ok(_) => r is Ok,
            Err(e) => r matches Err(x) && x@ == e,
        },
{
    let ghost ss = views(sections@);
    let mut a: usize = 0;
    proof {
        assert(ss.skip(0) == ss);
    }
    while a < sections.len()
        invariant
            a <= sections.len(),
            ss == views(sections@),
            sound_prefix(ss, ss) == a + sound_prefix(ss, ss.skip(a as int)),
        decreases sections.len() - a,
    {
        let section = &sections[a];
        let choices = section.choices();
        let ghost cs = views(choices@);
        proof {
            assert(ss.skip(a as int).drop_first() == ss.skip(a + 1));
            assert(ss.skip(a as int)[0] == section@);
            assert(cs.skip(0) == cs);
        }
        let mut b: usize = 0;
        while b < choices.len() && leads_somewhere(sections, choices[b].goto())
            invariant
                b <= choices.len(),
                ss == views(sections@),
                cs == views(choices@),
                resolved_prefix(ss, cs) == b + resolved_prefix(ss, cs.skip(b as int)),
            decreases choices.len() - b,
        {
            proof {
                assert(cs.skip(b as int).drop_first() == cs.skip(b + 1));
                assert(cs.skip(b as int)[0] == choices@[b as int]@);
            }
            b += 1;
        }
        if b < choices.len() {
            let choice = &choices[b];
            proof {
                assert(cs.skip(b as int)[0] == choice@);
                assert(cs[b as int] == choice@);
                assert(ss[a as int] == section@);
            }
            let mut text = choice.description().to_text();
            text.append(" -> ");
            text.append(choice.goto().as_str());
            return Err(ParseError::new(ParseErrorType::DanglingGoto, section.line_num(), text));
        }
        a += 1;
    }
    Ok(())
}

impl Story {
    /// Parses `story`: its sections are read one after the other, and then
    /// every choice is checked to lead to a section that was defined.
    pub fn parse(story: &str) -> (r: Result<Story, ParseError>)
        ensures
            agrees(r, story_of(story@)),
            r matches Ok(s) ==> valid_story(s@),
    {
        let lines = source_lines(story);
        let ghost all = views(lines@);
        let mut sections: Vec<Section> = Vec::new();
        let mut i: usize = 0;
        proof {
            assert(views(sections@) =~= Seq::<SectionView>::empty());
        }
        while i < lines.len()
            invariant
                i <= lines.len(),
                all == views(lines@),
                all == source_lines_of(story@),
                gathered(all, 0, Seq::empty()) == gathered(all, i as int, views(sections@)),
                distinct(views(sections@)),
                forall|k: int|
                    0 <= k < views(sections@).len() ==> valid_section(
                        #[trigger] views(sections@)[k],
                    ),
            decreases lines.len() - i,
        {
            let line = &lines[i];
            proof {
                assert(all[i as int] == line@);
            }
            if line.text.as_str().is_empty() {
                i += 1;
                continue ;
            }
            let (section, next) = Section::parse(&lines, i)?;
            proof {
                lemma_added_distinct(views(sections@), section@, line@);
            }
            define(&mut sections, section, line)?;
            i = next;
        }
        proof {
            lemma_checked(views(sections@));
        }
        check(&sections)?;
        Ok(Story { sections })
    }

    /// The sections, in the order in which they are defined.
    pub fn sections(&self) -> (ss: &Vec<Section>)
        ensures
            views(ss@) == self@,
    {
        &self.sections
    }

    /// The markup to show when the reader asks for the section called
    /// `target`, as the attribute of a clicked choice names it.
    pub fn page(&self, target: &str) -> (markup: Option<String>)
        ensures
            match page_of(self@, target@) {
                Some(text) => markup matches Some(m) && m@ == text,
                None => markup is None,
            },
    {
        match SectionIdentifier::parse((0, target), false) {
            Ok(id) => match self.get_section(&id) {
                Some(section) => Some(section.render()),
                None => None,
            },
            Err(_) => None,
        }
    }

    /// The section called as `id` is, if there is one.
    pub fn get_section(&self, id: &SectionIdentifier) -> (found: Option<&Section>)
        ensures
            match found {
                Some(section) => defines(self@, id@) && section@ == self@[position(
                    self@,
                    id@,
                ) as int] && section@.identifier == id@,
                None => !defines(self@, id@),
            },
    {
        let at = find(&self.sections, id);
        if at < self.sections.len() {
            proof {
                lemma_position(self@, id@);
                assert(views(self.sections@)[at as int] == self.sections@[at as int]@);
            }
            Some(&self.sections[at])
        } else {
            None
        }
    }
}

/// Parses `s` as a story; see [`Story::parse`].
pub fn load_str(s: &str) -> (r: Result<Story, ParseError>)
    ensures
        agrees(r, story_of(s@)),
        r matches Ok(story) ==> valid_story(story@),
{
    Story::parse(s)
}

} // verus!
