//! What holds of the parser as a whole, proved from the definitions.
use crate::choice::{arrow_at, before_arrow, choice_of, lemma_before_arrow, ChoiceView};
use crate::error::{ErrorKind, ErrorView, ParseError};
use crate::identifier::{identifier_of, is_upper, lemma_name_prefix, reserved_of, Reserved};
use crate::prose::{description_of, law_blank_text_has_no_paragraph, paragraphs};
use crate::section::{
    assembled, is_shorthand, leads_to_end, navigation, scan, section_of, LineView, SectionView,
};
use crate::story::{
    checked, defines, gathered, lemma_position, lemma_sound_prefix, position, resolves,
    sound_prefix, Story,
};
use crate::text::{is_space, lemma_trim_fixed, trim, trim_start};
use vstd::prelude::*;

verus! {

/// Parsing the same text twice gives the same story, or the same error.
pub proof fn law_parse_is_repeatable(
    text: &str,
    first: Result<Story, ParseError>,
    second: Result<Story, ParseError>,
)
    requires
        call_ensures(Story::parse, (text,), first),
        call_ensures(Story::parse, (text,), second),
    ensures
        first is Ok <==> second is Ok,
        first matches Ok(a) ==> second matches Ok(b) && a@ == b@,
        first matches Err(a) ==> second matches Err(b) && a@ == b@,
{
}

/// The line `-> END` is the shorthand that leads to `END`: a choice without a
/// label whose target is `END`.
pub proof fn law_end_shorthand_line(line_num: nat)
    ensures
        choice_of(line_num, "-> END"@) == Ok::<ChoiceView, ErrorView>(
            ChoiceView { description: Seq::empty(), goto: Reserved::End.name() },
        ),
{
    reveal_strlit("-> END");
    reveal_strlit("END");
    let s = "-> END"@;
    let target = s.skip(2);
    assert(arrow_at(s, 0));
    assert(before_arrow(s) == 0);
    lemma_before_arrow(target);
    assert forall|i: int| !arrow_at(target, i) by {}
    let name = "END"@;
    assert(target.drop_first() =~= name);
    assert(trim(target) == name) by {
        assert(is_space(target[0]));
        assert(trim_start(target) == trim_start(name));
        lemma_trim_fixed(name);
    }
    lemma_name_prefix(name, 3);
    assert(name.take(3) =~= name);
    assert(is_upper(name[0]));
    law_blank_text_has_no_paragraph(s.take(0));
    assert(description_of(s.take(0)) =~= Seq::<Seq<char>>::empty());
}

/// A section whose one choice is the shorthand that leads to `END` keeps the
/// two choices of [`navigation`] in its place, whatever its name and
/// description, as long as the name is not reserved.
pub proof fn law_end_shorthand_expands(
    name: Seq<char>,
    description: Seq<Seq<char>>,
    choice: ChoiceView,
    line_num: nat,
    last: LineView,
)
    requires
        description.len() > 0,
        reserved_of(name) is None,
        is_shorthand(choice),
        leads_to_end(choice),
    ensures
        assembled(name, description, seq![choice], line_num, last) == Ok::<SectionView, ErrorView>(
            SectionView { identifier: name, description, choices: navigation(), line_num },
        ),
        navigation().len() == 2,
        navigation()[0].goto == Reserved::Restart.name(),
        navigation()[1].goto == Reserved::Menu.name(),
{
    crate::identifier::lemma_reserved_names();
    let cs = seq![choice];
    assert(cs[0] == choice);
    assert forall|i: int| 0 <= i < cs.len() implies !crate::identifier::is_sentinel(
        #[trigger] cs[i].goto,
    ) by {}
}

/// A section that defines a reserved name is refused. Where its body reads
/// well and holds a description and a choice, the error is
/// `ReservedKeyUsage`, on the last line of the section.
pub proof fn law_reserved_name_is_refused(lines: Seq<LineView>, start: int)
    requires
        0 <= start < lines.len(),
        identifier_of(lines[start].num, lines[start].text, true) matches Ok(name) && reserved_of(
            name,
        ) is Some,
    ensures
        section_of(lines, start) is Err,
        match scan(lines, start + 1, Seq::empty(), Seq::empty()) {
            Ok(body) => paragraphs(body.prose).len() > 0 && body.choices.len() > 0 ==> section_of(
                lines,
                start,
            ) == Err::<(SectionView, int), ErrorView>(
                ErrorView {
                    kind: ErrorKind::ReservedKeyUsage,
                    line_num: lines[body.next - 1].num,
                    text: lines[body.next - 1].text,
                },
            ),
            Err(_) => true,
        },
{
}

/// A section whose name an earlier section has is refused with
/// `DuplicateSections`, which holds the later section and the earlier one.
pub proof fn law_duplicate_is_refused(
    lines: Seq<LineView>,
    i: int,
    sections: Seq<SectionView>,
)
    requires
        0 <= i < lines.len(),
        lines[i].text.len() > 0,
        section_of(lines, i) matches Ok(found) && defines(sections, found.0.identifier),
    ensures
        gathered(lines, i, sections) matches Err(e) && e.line_num == lines[i].num && e.text
            == lines[i].text && (e.kind matches ErrorKind::DuplicateSections(later, earlier)
            && section_of(lines, i) matches Ok(found) && later == found.0 && earlier
            == sections[position(sections, later.identifier) as int] && earlier.identifier
            == later.identifier),
{
    let found = section_of(lines, i)->Ok_0;
    lemma_position(sections, found.0.identifier);
}

/// Sections with a choice that leads to no section, and to neither
/// `__RESTART` nor `__MENU`, are refused with `DanglingGoto`.
pub proof fn law_dangling_is_refused(ss: Seq<SectionView>, i: int, k: int)
    requires
        0 <= i < ss.len(),
        0 <= k < ss[i].choices.len(),
        !resolves(ss, ss[i].choices[k].goto),
    ensures
        checked(ss) matches Err(e) && e.kind == ErrorKind::DanglingGoto,
{
    lemma_sound_prefix(ss, ss);
    if sound_prefix(ss, ss) >= ss.len() {
        assert(resolves(ss, ss[i].choices[k].goto));
    }
}

} // verus!
