//! Choices: a label and the section it leads to.
use crate::error::{agrees, ErrorKind, ErrorView, ParseError, ParseErrorType};
use crate::identifier::{identifier_of, valid_name, SectionIdentifier};
use crate::prose::{description_of, Description};
use crate::text::{chars_of, string_of};
use vstd::prelude::*;
use vstd::slice::*;

verus! {

/// Whether an arrow, `->`, starts at index `i` of `s`.
pub open spec fn arrow_at(s: Seq<char>, i: int) -> bool {
    0 <= i && i + 1 < s.len() && s[i] == '-' && s[i + 1] == '>'
}

/// The number of characters of `s` before its first arrow; the length of `s`
/// where it has none.
pub open spec fn before_arrow(s: Seq<char>) -> nat
    decreases s.len(),
{
    if s.len() == 0 || arrow_at(s, 0) {
        0
    } else {
        1 + before_arrow(s.drop_first())
    }
}

/// The mathematical form of a [`Choice`].
pub struct ChoiceView {
    pub description: Seq<Seq<char>>,
    pub goto: Seq<char>,
}

/// What parsing the line `s` as a choice gives. The line needs exactly one
/// arrow, and no backslash directly before the first one. What stands before
/// the arrow is the description, what stands behind it the target, an
/// identifier that is referred to. An arrow error carries the whole line.
pub open spec fn choice_of(line_num: nat, s: Seq<char>) -> Result<ChoiceView, ErrorView> {
    let n = before_arrow(s) as int;
    let target = s.skip(n + 2);
    if n >= s.len() || (n > 0 && s[n - 1] == '\\') {
        Err(ErrorView { kind: ErrorKind::MissingArrow, line_num, text: s })
    } else if before_arrow(target) < target.len() {
        Err(ErrorView { kind: ErrorKind::MultipleArrows, line_num, text: s })
    } else {
        match identifier_of(line_num, target, false) {
            Err(e) => Err(e),
            Ok(goto) => Ok(ChoiceView { description: description_of(s.take(n)), goto }),
        }
    }
}

/// The first arrow of `s` starts where `before_arrow` says, and none starts
/// earlier; `s` has an arrow exactly if that place lies within `s`.
pub proof fn lemma_before_arrow(s: Seq<char>)
    ensures
        before_arrow(s) <= s.len(),
        before_arrow(s) < s.len() ==> arrow_at(s, before_arrow(s) as int),
        forall|i: int| 0 <= i < before_arrow(s) ==> !arrow_at(s, i),
        before_arrow(s) < s.len() <==> exists|i: int| arrow_at(s, i),
    decreases s.len(),
{
    if s.len() == 0 || arrow_at(s, 0) {
        if s.len() == 0 {
            assert forall|i: int| !arrow_at(s, i) by {}
        }
    } else {
        let rest = s.drop_first();
        lemma_before_arrow(rest);
        assert forall|i: int| arrow_at(rest, i) <==> arrow_at(s, i + 1) by {
            if 0 <= i && i + 1 < rest.len() {
                assert(rest[i] == s[i + 1]);
                assert(rest[i + 1] == s[i + 2]);
            }
        }
        assert forall|i: int| 0 <= i < before_arrow(s) implies !arrow_at(s, i) by {
            if i > 0 {
                assert(arrow_at(rest, i - 1) <==> arrow_at(s, i));
            }
        }
        if before_arrow(rest) < rest.len() {
            assert(arrow_at(rest, before_arrow(rest) as int) <==> arrow_at(
                s,
                before_arrow(rest) as int + 1,
            ));
        }
        if exists|i: int| arrow_at(s, i) {
            let i = choose|i: int| arrow_at(s, i);
            assert(arrow_at(rest, i - 1) <==> arrow_at(s, i));
        }
    }
}

/// A labelled way from one section to another.
#[derive(Debug, PartialEq, Eq, PartialOrd, Ord)]
pub struct Choice {
    description: Description,
    goto: SectionIdentifier,
}

impl View for Choice {
    type V = ChoiceView;

    closed spec fn view(&self) -> ChoiceView {
        ChoiceView { description: self.description@, goto: self.goto@ }
    }
}

impl Clone for Choice {
    fn clone(&self) -> (r: Self)
        ensures
            r@ == self@,
    {
        Choice { description: self.description.clone(), goto: self.goto.clone() }
    }
}

/// Where the first arrow of `s` starts; the length of `s` where it has none.
pub(crate) fn find_arrow(s: &[char]) -> (n: usize)
    ensures
        n == before_arrow(s@),
{
    let mut n: usize = 0;
    proof {
        assert(s@.skip(0) == s@);
    }
    while n < s.len() && !(s[n] == '-' && n + 1 < s.len() && s[n + 1] == '>')
        invariant
            n <= s.len(),
            before_arrow(s@) == n + before_arrow(s@.skip(n as int)),
        decreases s.len() - n,
    {
        proof {
            assert(s@.skip(n as int).drop_first() == s@.skip(n + 1));
            assert(!arrow_at(s@.skip(n as int), 0));
        }
        n += 1;
    }
    proof {
        if n < s.len() {
            assert(arrow_at(s@.skip(n as int), 0));
        }
    }
    n
}

impl Choice {
    /// Parses the line `s`, found on line `line_num`, as a choice.
    pub fn parse(s: &str, line_num: usize) -> (r: Result<Choice, ParseError>)
        ensures
            agrees(r, choice_of(line_num as nat, s@)),
            r matches Ok(c) ==> valid_name(c@.goto),
    {
        let chars = chars_of(s);
        Choice::parse_chars(chars.as_slice(), line_num)
    }

    /// [`Choice::parse`] on characters.
    pub(crate) fn parse_chars(s: &[char], line_num: usize) -> (r: Result<Choice, ParseError>)
        ensures
            agrees(r, choice_of(line_num as nat, s@)),
            r matches Ok(c) ==> valid_name(c@.goto),
    {
        let n = find_arrow(s);
        if n >= s.len() || (n > 0 && s[n - 1] == '\\') {
            return Err(ParseError::new(ParseErrorType::MissingArrow, line_num, string_of(s)));
        }
        proof {
            lemma_before_arrow(s@);
        }
        let target = slice_subrange(s, n + 2, s.len());
        proof {
            assert(target@ == s@.skip(n + 2));
        }
        if find_arrow(target) < target.len() {
            return Err(ParseError::new(ParseErrorType::MultipleArrows, line_num, string_of(s)));
        }
        let goto = SectionIdentifier::parse_chars(line_num, target, false)?;
        let description = Description::from_chars(slice_subrange(s, 0, n));
        Ok(Choice { description, goto })
    }

    /// The choice labelled `label` that leads to `goto`.
    pub fn new(description: Description, goto: SectionIdentifier) -> (c: Choice)
        ensures
            c@ == (ChoiceView { description: description@, goto: goto@ }),
    {
        Choice { description, goto }
    }

    /// The label.
    pub fn description(&self) -> (d: &Description)
        ensures
            d@ == self@.description,
    {
        &self.description
    }

    /// The section that the choice leads to.
    pub fn goto(&self) -> (id: &SectionIdentifier)
        ensures
            id@ == self@.goto,
    {
        &self.goto
    }
}

} // verus!
