//! Section names: the syntax of an identifier, and the three reserved names.
use crate::error::{agrees, ErrorKind, ErrorView, ParseError, ParseErrorType};
use crate::text::{chars_of, lemma_trim_fixed, string_of, trim, trimmed};
use vstd::prelude::*;
use vstd::slice::*;
use vstd::string::*;

verus! {

/// Whether `c` is an upper-case ASCII letter.
pub open spec fn is_upper(c: char) -> bool {
    'A' <= c <= 'Z'
}

/// Whether `c` may stand in a name: an upper-case ASCII letter, an ASCII digit
/// or an underscore.
pub open spec fn is_name_char(c: char) -> bool {
    is_upper(c) || '0' <= c <= '9' || c == '_'
}

/// The length of the longest prefix of `t` made of name characters.
pub open spec fn name_len(t: Seq<char>) -> nat
    decreases t.len(),
{
    if t.len() > 0 && is_name_char(t[0]) {
        1 + name_len(t.drop_first())
    } else {
        0
    }
}

/// Whether a colon directly follows the name that `t` starts with.
pub open spec fn has_colon(t: Seq<char>) -> bool {
    name_len(t) < t.len() && t[name_len(t) as int] == ':'
}

/// The first character of `t` that the scan refuses: one that is neither a
/// name character nor the one colon, or anything at all behind that colon.
pub open spec fn refused_char(t: Seq<char>) -> Option<char> {
    let n = name_len(t) as int;
    if n >= t.len() {
        None
    } else if t[n] != ':' {
        Some(t[n])
    } else if n + 1 < t.len() {
        Some(t[n + 1])
    } else {
        None
    }
}

/// Whether `name` holds an upper-case letter.
pub open spec fn has_letter(name: Seq<char>) -> bool {
    exists|i: int| 0 <= i < name.len() && is_upper(#[trigger] name[i])
}

/// Whether `name` is a well-formed section name: name characters only, and at
/// least one letter among them.
pub open spec fn valid_name(name: Seq<char>) -> bool {
    &&& forall|i: int| 0 <= i < name.len() ==> is_name_char(#[trigger] name[i])
    &&& has_letter(name)
}

/// What parsing `text` as an identifier gives. The text is trimmed first. With
/// `definition` the name must be followed by a colon, without it there must be
/// none; the name is returned without the colon. An error carries the trimmed
/// text when a character is refused, and the name alone otherwise.
pub open spec fn identifier_of(line_num: nat, text: Seq<char>, definition: bool) -> Result<
    Seq<char>,
    ErrorView,
> {
    let t = trim(text);
    let name = t.take(name_len(t) as int);
    match refused_char(t) {
        Some(c) => Err(ErrorView { kind: ErrorKind::SectionIdentifier(c), line_num, text: t }),
        None => if definition && !has_colon(t) {
            Err(ErrorView { kind: ErrorKind::MissingColon, line_num, text: name })
        } else if !definition && has_colon(t) {
            Err(ErrorView { kind: ErrorKind::UnexpectedColon, line_num, text: name })
        } else if !has_letter(name) {
            Err(ErrorView { kind: ErrorKind::MissingAlphabetic, line_num, text: name })
        } else {
            Ok(name)
        },
    }
}

/// The names that no section may define.
#[derive(Clone, Copy, Debug, PartialEq, Eq, Structural)]
pub enum Reserved {
    /// `END`: where a story stops.
    End,
    /// `__RESTART`: back to the first section.
    Restart,
    /// `__MENU`: back to the menu.
    Menu,
}

impl Reserved {
    /// The name as it is written.
    pub open spec fn name(self) -> Seq<char> {
        match self {
            Reserved::End => "END"@,
            Reserved::Restart => "__RESTART"@,
            Reserved::Menu => "__MENU"@,
        }
    }

    /// Whether a choice may lead there although no section defines it.
    pub open spec fn is_sentinel(self) -> bool {
        self != Reserved::End
    }
}

/// The reserved name that `name` is, if it is one.
pub open spec fn reserved_of(name: Seq<char>) -> Option<Reserved> {
    if name == Reserved::End.name() {
        Some(Reserved::End)
    } else if name == Reserved::Restart.name() {
        Some(Reserved::Restart)
    } else if name == Reserved::Menu.name() {
        Some(Reserved::Menu)
    } else {
        None
    }
}

/// Whether `name` is one of the two targets that always resolve.
pub open spec fn is_sentinel(name: Seq<char>) -> bool {
    name == Reserved::Restart.name() || name == Reserved::Menu.name()
}

/// The name of a section.
#[derive(Debug, PartialEq, Eq, PartialOrd, Ord, Hash)]
pub struct SectionIdentifier(String);

impl View for SectionIdentifier {
    type V = Seq<char>;

    closed spec fn view(&self) -> Seq<char> {
        self.0@
    }
}

impl Clone for SectionIdentifier {
    fn clone(&self) -> (r: Self)
        ensures
            r@ == self@,
    {
        SectionIdentifier(self.0.clone())
    }
}

/// The prefix of name characters has the length that `name_len` gives, and
/// the character behind it, if any, is no name character.
pub proof fn lemma_name_len(t: Seq<char>)
    ensures
        name_len(t) <= t.len(),
        forall|i: int| 0 <= i < name_len(t) ==> is_name_char(#[trigger] t[i]),
        name_len(t) < t.len() ==> !is_name_char(t[name_len(t) as int]),
    decreases t.len(),
{
    if t.len() > 0 && is_name_char(t[0]) {
        let rest = t.drop_first();
        lemma_name_len(rest);
        assert forall|i: int| 0 <= i < name_len(t) implies is_name_char(#[trigger] t[i]) by {
            if i > 0 {
                assert(t[i] == rest[i - 1]);
            }
        }
    }
}

/// Every identifier that is accepted is a well-formed name.
pub proof fn lemma_accepted_is_valid(line_num: nat, text: Seq<char>, definition: bool)
    ensures
        identifier_of(line_num, text, definition) matches Ok(name) ==> valid_name(name),
{
    lemma_name_len(trim(text));
}

/// No name character is whitespace, so a well-formed name is its own trimmed
/// form and its own longest prefix of name characters.
pub proof fn lemma_name_is_plain(name: Seq<char>)
    requires
        forall|i: int| 0 <= i < name.len() ==> is_name_char(#[trigger] name[i]),
    ensures
        trim(name) == name,
        name_len(name) == name.len(),
        refused_char(name) is None,
        !has_colon(name),
{
    if name.len() > 0 {
        assert(is_name_char(name[0]));
        assert(is_name_char(name[name.len() - 1]));
    }
    lemma_trim_fixed(name);
    lemma_name_prefix(name, name.len() as int);
}

/// A name that is accepted where it is defined, with its colon, is accepted
/// where it is referred to, without the colon, and both give the same name.
pub proof fn law_definition_matches_reference(line_num: nat, text: Seq<char>)
    requires
        identifier_of(line_num, text, true) is Ok,
    ensures
        identifier_of(line_num, text, true) matches Ok(name) && trim(text) == name.push(':')
            && identifier_of(line_num, name, false) == Ok::<Seq<char>, ErrorView>(name),
{
    let t = trim(text);
    let name = t.take(name_len(t) as int);
    lemma_name_len(t);
    lemma_name_is_plain(name);
    assert(name.take(name.len() as int) =~= name);
    assert(t =~= name.push(':'));
}

/// A well-formed name is accepted as it stands where it is referred to, and
/// with a colon behind it where it is defined; both give the name itself.
pub proof fn law_valid_name_is_accepted(line_num: nat, name: Seq<char>)
    requires
        valid_name(name),
    ensures
        identifier_of(line_num, name, false) == Ok::<Seq<char>, ErrorView>(name),
        identifier_of(line_num, name.push(':'), true) == Ok::<Seq<char>, ErrorView>(name),
{
    lemma_name_is_plain(name);
    assert(name.take(name.len() as int) =~= name);
    let t = name.push(':');
    assert(is_name_char(name[0]));
    lemma_trim_fixed(t);
    lemma_name_len(t);
    assert forall|i: int| 0 <= i < name.len() implies is_name_char(#[trigger] t[i]) by {
        assert(t[i] == name[i]);
    }
    lemma_name_prefix(t, name.len() as int);
    assert(t.take(name.len() as int) =~= name);
}

/// Where the first `n` characters are name characters and the next is not,
/// the longest prefix of name characters has length `n`.
pub proof fn lemma_name_prefix(t: Seq<char>, n: int)
    requires
        0 <= n <= t.len(),
        forall|i: int| 0 <= i < n ==> is_name_char(#[trigger] t[i]),
        n < t.len() ==> !is_name_char(t[n]),
    ensures
        name_len(t) == n,
    decreases n,
{
    if n > 0 {
        let rest = t.drop_first();
        assert forall|i: int| 0 <= i < n - 1 implies is_name_char(#[trigger] rest[i]) by {
            assert(rest[i] == t[i + 1]);
        }
        if n < t.len() {
            assert(rest[n - 1] == t[n]);
        }
        assert(is_name_char(t[0]));
        lemma_name_prefix(rest, n - 1);
    }
}

/// The three reserved names are well-formed names, and no two are the same.
pub proof fn lemma_reserved_names()
    ensures
        valid_name(Reserved::End.name()),
        valid_name(Reserved::Restart.name()),
        valid_name(Reserved::Menu.name()),
        Reserved::End.name() != Reserved::Restart.name(),
        Reserved::End.name() != Reserved::Menu.name(),
        Reserved::Restart.name() != Reserved::Menu.name(),
        forall|r: Reserved| reserved_of(r.name()) == Some(r),
{
    reveal_strlit("END");
    reveal_strlit("__RESTART");
    reveal_strlit("__MENU");
    assert(is_upper("END"@[0]));
    assert(is_upper("__RESTART"@[2]));
    assert(is_upper("__MENU"@[2]));
    assert("END"@.len() != "__RESTART"@.len());
    assert("END"@.len() != "__MENU"@.len());
    assert("__RESTART"@.len() != "__MENU"@.len());
}

fn is_upper_char(c: char) -> (b: bool)
    ensures
        b == is_upper(c),
{
    'A' <= c && c <= 'Z'
}

fn is_name(c: char) -> (b: bool)
    ensures
        b == is_name_char(c),
{
    is_upper_char(c) || ('0' <= c && c <= '9') || c == '_'
}

impl SectionIdentifier {
    /// Parses the text `line.1`, found on line `line.0`, as an identifier: as
    /// one that is being defined (with its colon) if `def`, as one that is
    /// referred to (without) if not.
    pub fn parse(line: (usize, &str), def: bool) -> (r: Result<SectionIdentifier, ParseError>)
        ensures
            agrees(r, identifier_of(line.0 as nat, line.1@, def)),
            r matches Ok(id) ==> valid_name(id@),
    {
        let chars = chars_of(line.1);
        Self::parse_chars(line.0, chars.as_slice(), def)
    }

    /// [`SectionIdentifier::parse`] on characters.
    pub(crate) fn parse_chars(line_num: usize, text: &[char], def: bool) -> (r: Result<
        SectionIdentifier,
        ParseError,
    >)
        ensures
            agrees(r, identifier_of(line_num as nat, text@, def)),
            r matches Ok(id) ==> valid_name(id@),
    {
        let t = trimmed(text);
        let mut n: usize = 0;
        let mut found_alphabetic = false;
        proof {
            assert(t@.skip(0) == t@);
        }
        while n < t.len() && is_name(t[n])
            invariant
                n <= t.len(),
                name_len(t@) == n + name_len(t@.skip(n as int)),
                found_alphabetic <==> has_letter(t@.take(n as int)),
            decreases t.len() - n,
        {
            proof {
                assert(t@.skip(n as int).drop_first() == t@.skip(n + 1));
                let before = t@.take(n as int);
                let after = t@.take(n + 1);
                if has_letter(before) {
                    let i = choose|i: int| 0 <= i < before.len() && is_upper(#[trigger] before[i]);
                    assert(is_upper(after[i]));
                }
                if is_upper(t@[n as int]) {
                    assert(is_upper(after[n as int]));
                }
                if has_letter(after) {
                    let i = choose|i: int| 0 <= i < after.len() && is_upper(#[trigger] after[i]);
                    if i < n {
                        assert(is_upper(before[i]));
                    }
                }
            }
            if is_upper_char(t[n]) {
                found_alphabetic = true;
            }
            n += 1;
        }
        proof {
            lemma_accepted_is_valid(line_num as nat, text@, def);
        }
        let mut colon = false;
        if n < t.len() {
            let refused = if t[n] != ':' {
                Some(t[n])
            } else if n + 1 < t.len() {
                Some(t[n + 1])
            } else {
                None
            };
            if let Some(c) = refused {
                return Err(
                    ParseError::new(ParseErrorType::SectionIdentifier(c), line_num, string_of(t)),
                );
            }
            colon = true;
        }
        let name = string_of(slice_subrange(t, 0, n));
        if def && !colon {
            Err(ParseError::new(ParseErrorType::MissingColon, line_num, name))
        } else if !def && colon {
            Err(ParseError::new(ParseErrorType::UnexpectedColon, line_num, name))
        } else if !found_alphabetic {
            Err(ParseError::new(ParseErrorType::MissingAlphabetic, line_num, name))
        } else {
            Ok(SectionIdentifier(name))
        }
    }

    /// The identifier that is the reserved name `reserved`.
    pub fn of_reserved(reserved: Reserved) -> (id: SectionIdentifier)
        ensures
            id@ == reserved.name(),
    {
        match reserved {
            Reserved::End => SectionIdentifier(String::from_str("END")),
            Reserved::Restart => SectionIdentifier(String::from_str("__RESTART")),
            Reserved::Menu => SectionIdentifier(String::from_str("__MENU")),
        }
    }

    /// The name.
    pub fn as_str(&self) -> (name: &str)
        ensures
            name@ == self@,
    {
        self.0.as_str()
    }

    /// Whether `self` and `other` are the same name.
    pub fn same(&self, other: &SectionIdentifier) -> (b: bool)
        ensures
            b == (self@ == other@),
    {
        self.0 == other.0
    }

    /// The reserved name that this is, if it is one.
    pub fn reserved(&self) -> (r: Option<Reserved>)
        ensures
            r == reserved_of(self@),
    {
        if self.0 == String::from_str("END") {
            Some(Reserved::End)
        } else if self.0 == String::from_str("__RESTART") {
            Some(Reserved::Restart)
        } else if self.0 == String::from_str("__MENU") {
            Some(Reserved::Menu)
        } else {
            None
        }
    }
}

} // verus!
