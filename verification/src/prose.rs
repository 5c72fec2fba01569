//! Prose: paragraphs, and descriptions made of them.
use crate::text::{
    chars_of, is_blank, is_space, lemma_line_len_bound, lemma_trim, lemma_views_push, line_len,
    lines, split_lines, string_of, strip_cr, trim, trimmed, views,
};
use vstd::prelude::*;
use vstd::slice::*;
use vstd::string::*;

verus! {

/// `s` with every line feed replaced by a space.
pub open spec fn unwrapped(s: Seq<char>) -> Seq<char> {
    Seq::new(
        s.len(),
        |i: int|
            if s[i] == '\n' {
                ' '
            } else {
                s[i]
            },
    )
}

/// The text of the paragraph made from `s`: its line feeds become spaces, and
/// the whitespace at both ends goes.
pub open spec fn paragraph_of(s: Seq<char>) -> Seq<char> {
    trim(unwrapped(s))
}

/// The lines of `s`, each without the whitespace at its ends.
pub open spec fn trimmed_lines(s: Seq<char>) -> Seq<Seq<char>> {
    Seq::new(lines(s).len(), |i: int| trim(lines(s)[i]))
}

/// The paragraphs that the lines `ls` form. An empty line belongs to none. A
/// line that follows a line of a paragraph continues that paragraph, one space
/// apart; any other line begins a paragraph.
pub open spec fn paragraphs(ls: Seq<Seq<char>>) -> Seq<Seq<char>>
    decreases ls.len(),
{
    if ls.len() == 0 {
        Seq::empty()
    } else {
        let before = paragraphs(ls.drop_last());
        if ls.last().len() == 0 {
            before
        } else if ls.len() >= 2 && ls[ls.len() - 2].len() > 0 && before.len() > 0 {
            before.drop_last().push(before.last() + seq![' '] + ls.last())
        } else {
            before.push(ls.last())
        }
    }
}

/// The paragraphs of the description written as `text`: the text is trimmed
/// and split into lines, each line is trimmed, and the lines between empty
/// lines form one paragraph each.
pub open spec fn description_of(text: Seq<char>) -> Seq<Seq<char>> {
    paragraphs(trimmed_lines(trim(text)))
}

/// `ps` as one text, with an empty line between two paragraphs.
pub open spec fn description_text(ps: Seq<Seq<char>>) -> Seq<char>
    decreases ps.len(),
{
    if ps.len() == 0 {
        Seq::empty()
    } else if ps.len() == 1 {
        ps[0]
    } else {
        description_text(ps.drop_last()) + seq!['\n', '\n'] + ps.last()
    }
}

/// No paragraph is empty, and there is one as soon as one line is not empty;
/// after a line that is not empty the last paragraph is the open one.
pub proof fn lemma_paragraphs(ls: Seq<Seq<char>>)
    ensures
        forall|i: int| 0 <= i < paragraphs(ls).len() ==> (#[trigger] paragraphs(ls)[i]).len() > 0,
        paragraphs(ls).len() == 0 <==> forall|i: int|
            0 <= i < ls.len() ==> (#[trigger] ls[i]).len() == 0,
        ls.len() > 0 && ls.last().len() > 0 ==> paragraphs(ls).len() > 0,
    decreases ls.len(),
{
    if ls.len() > 0 {
        let front = ls.drop_last();
        lemma_paragraphs(front);
        let before = paragraphs(front);
        assert forall|i: int| 0 <= i < front.len() implies #[trigger] front[i] == ls[i] by {}
        if ls.last().len() == 0 {
            if before.len() == 0 {
                assert forall|i: int| 0 <= i < ls.len() implies (#[trigger] ls[i]).len() == 0 by {
                    if i < front.len() {
                        assert(front[i] == ls[i]);
                    }
                }
            } else {
                let k = choose|k: int| 0 <= k < front.len() && (#[trigger] front[k]).len() != 0;
                assert(ls[k].len() != 0);
            }
        } else {
            assert(ls[ls.len() - 1].len() != 0);
        }
    }
}

/// No paragraph of a description is empty.
pub proof fn lemma_description_valid(text: Seq<char>)
    ensures
        forall|i: int|
            0 <= i < description_of(text).len() ==> (#[trigger] description_of(text)[i]).len() > 0,
{
    lemma_paragraphs(trimmed_lines(trim(text)));
}

/// A text has no paragraph exactly if it holds nothing but whitespace.
pub proof fn law_blank_text_has_no_paragraph(text: Seq<char>)
    ensures
        description_of(text).len() == 0 <==> is_blank(text),
{
    let t = trim(text);
    let ls = trimmed_lines(t);
    lemma_trim(text);
    lemma_paragraphs(ls);
    if t.len() > 0 {
        lemma_line_len_bound(t);
        let n = line_len(t) as int;
        assert(is_space('\n') && is_space('\r'));
        assert(n > 0);
        let first = lines(t)[0];
        if n < t.len() {
            assert(first == strip_cr(t.take(n)));
            assert(t.take(n)[0] == t[0]);
        }
        assert(first.len() > 0 && first[0] == t[0]);
        assert(!is_blank(first));
        lemma_trim(first);
        assert(ls[0] == trim(first));
    } else {
        assert(ls =~= Seq::<Seq<char>>::empty());
    }
}

/// One block of prose on a single line.
#[derive(Debug, PartialEq, Eq, PartialOrd, Ord)]
pub struct Paragraph(String);

impl View for Paragraph {
    type V = Seq<char>;

    closed spec fn view(&self) -> Seq<char> {
        self.0@
    }
}

impl Clone for Paragraph {
    fn clone(&self) -> (r: Self)
        ensures
            r@ == self@,
    {
        Paragraph(self.0.clone())
    }
}

impl Paragraph {
    /// The paragraph written as `s`.
    pub fn new(s: &str) -> (p: Paragraph)
        ensures
            p@ == paragraph_of(s@),
    {
        let chars = chars_of(s);
        let mut flat: Vec<char> = Vec::new();
        let mut i: usize = 0;
        while i < chars.len()
            invariant
                i <= chars.len(),
                flat@ == unwrapped(chars@).take(i as int),
            decreases chars.len() - i,
        {
            let c = chars[i];
            flat.push(
                if c == '\n' {
                    ' '
                } else {
                    c
                },
            );
            proof {
                assert(flat@ =~= unwrapped(chars@).take(i + 1));
            }
            i += 1;
        }
        proof {
            assert(flat@ =~= unwrapped(chars@));
        }
        Paragraph(string_of(trimmed(flat.as_slice())))
    }

    /// The text.
    pub fn as_str(&self) -> (text: &str)
        ensures
            text@ == self@,
    {
        self.0.as_str()
    }
}

/// Paragraphs in the order in which they are told.
#[derive(Debug, PartialEq, Eq, PartialOrd, Ord)]
pub struct Description(Vec<Paragraph>);

impl View for Description {
    type V = Seq<Seq<char>>;

    closed spec fn view(&self) -> Seq<Seq<char>> {
        views(self.0@)
    }
}

impl Clone for Description {
    fn clone(&self) -> (r: Self)
        ensures
            r@ == self@,
    {
        let mut out: Vec<Paragraph> = Vec::new();
        let mut i: usize = 0;
        while i < self.0.len()
            invariant
                i <= self.0.len(),
                views(out@) == views(self.0@).take(i as int),
            decreases self.0.len() - i,
        {
            let ghost before = out@;
            let p = self.0[i].clone();
            out.push(p);
            proof {
                lemma_views_push(before, p);
                assert(views(out@) =~= views(self.0@).take(i + 1));
            }
            i += 1;
        }
        proof {
            assert(views(out@) =~= views(self.0@));
        }
        Description(out)
    }
}

/// Appends the characters `cs` to `s`.
pub(crate) fn append_chars(s: &mut String, cs: &[char])
    ensures
        final(s)@ == old(s)@ + cs@,
{
    let mut i: usize = 0;
    proof {
        assert(s@ =~= old(s)@ + cs@.take(0));
    }
    while i < cs.len()
        invariant
            i <= cs.len(),
            s@ == old(s)@ + cs@.take(i as int),
        decreases cs.len() - i,
    {
        s.push(cs[i]);
        proof {
            assert(s@ =~= old(s)@ + cs@.take(i + 1));
        }
        i += 1;
    }
    proof {
        assert(cs@.take(cs.len() as int) =~= cs@);
    }
}

impl Description {
    /// The description written as `s`.
    pub fn new(s: &str) -> (d: Description)
        ensures
            d@ == description_of(s@),
    {
        let chars = chars_of(s);
        Description::from_chars(chars.as_slice())
    }

    /// The description written as the characters `text`.
    pub(crate) fn from_chars(text: &[char]) -> (d: Description)
        ensures
            d@ == description_of(text@),
    {
        let raw = split_lines(trimmed(text));
        let mut ls: Vec<Vec<char>> = Vec::new();
        let mut i: usize = 0;
        while i < raw.len()
            invariant
                i <= raw.len(),
                views(raw@) == lines(trim(text@)),
                views(ls@) == trimmed_lines(trim(text@)).take(i as int),
            decreases raw.len() - i,
        {
            let line = slice_to_vec(trimmed(raw[i].as_slice()));
            proof {
                assert(views(raw@)[i as int] == raw@[i as int]@);
            }
            let ghost before = ls@;
            ls.push(line);
            proof {
                lemma_views_push(before, line);
                assert(views(ls@) =~= trimmed_lines(trim(text@)).take(i + 1));
            }
            i += 1;
        }
        proof {
            assert(views(ls@) =~= trimmed_lines(trim(text@)));
        }
        Description::from_lines(&ls)
    }

    /// The description of the one paragraph `label`.
    pub fn single(label: &str) -> (d: Description)
        ensures
            d@ == seq![label@],
    {
        let mut ps: Vec<Paragraph> = Vec::new();
        let p = Paragraph(String::from_str(label));
        ps.push(p);
        proof {
            assert(views(ps@) =~= seq![label@]);
        }
        Description(ps)
    }

    /// The description whose lines are `ls`, taken as they are.
    pub(crate) fn from_lines(ls: &Vec<Vec<char>>) -> (d: Description)
        ensures
            d@ == paragraphs(views(ls@)),
    {
        let ghost all = views(ls@);
        let mut done: Vec<Paragraph> = Vec::new();
        let mut current = String::new();
        let mut open = false;
        let mut i: usize = 0;
        proof {
            assert(all.take(0) =~= Seq::<Seq<char>>::empty());
        }
        while i < ls.len()
            invariant
                i <= ls.len(),
                all == views(ls@),
                open <==> i > 0 && all[i - 1].len() > 0,
                paragraphs(all.take(i as int)) == if open {
                    views(done@).push(current@)
                } else {
                    views(done@)
                },
            decreases ls.len() - i,
        {
            let line = &ls[i];
            proof {
                let upto = all.take(i + 1);
                assert(upto.drop_last() =~= all.take(i as int));
                assert(upto.last() == line@);
                if i > 0 {
                    assert(upto[upto.len() - 2] == all[i - 1]);
                }
                lemma_paragraphs(all.take(i as int));
                if i > 0 {
                    assert(all.take(i as int).last() == all[i - 1]);
                }
            }
            if line.len() == 0 {
                if open {
                    let ghost before = done@;
                    let p = Paragraph(current);
                    done.push(p);
                    proof {
                        lemma_views_push(before, p);
                    }
                    current = String::new();
                    open = false;
                }
            } else {
                let ghost before = current@;
                if open {
                    current.push(' ');
                    proof {
                        assert(views(done@).push(before).drop_last() =~= views(done@));
                        assert(before.push(' ') =~= before + seq![' ']);
                    }
                } else {
                    current = String::new();
                    proof {
                        assert(current@ + line@ =~= line@);
                    }
                }
                append_chars(&mut current, line.as_slice());
                open = true;
            }
            i += 1;
        }
        proof {
            assert(all.take(ls.len() as int) =~= all);
        }
        if open {
            let ghost before = done@;
            let p = Paragraph(current);
            done.push(p);
            proof {
                lemma_views_push(before, p);
            }
        }
        Description(done)
    }

    /// Whether there is no paragraph.
    pub fn is_empty(&self) -> (b: bool)
        ensures
            b == (self@.len() == 0),
    {
        self.0.len() == 0
    }

    /// The paragraphs, in order.
    pub fn paragraphs(&self) -> (ps: &Vec<Paragraph>)
        ensures
            views(ps@) == self@,
    {
        &self.0
    }

    /// The description as one text, with an empty line between two paragraphs.
    pub fn to_text(&self) -> (text: String)
        ensures
            text@ == description_text(self@),
    {
        let mut text = String::new();
        let mut i: usize = 0;
        proof {
            assert(self@.take(0) =~= Seq::<Seq<char>>::empty());
        }
        while i < self.0.len()
            invariant
                i <= self.0.len(),
                text@ == description_text(self@.take(i as int)),
            decreases self.0.len() - i,
        {
            proof {
                let upto = self@.take(i + 1);
                assert(upto.drop_last() =~= self@.take(i as int));
                assert(upto.last() == self.0[i as int]@);
            }
            if i > 0 {
                let ghost before = text@;
                text.push('\n');
                text.push('\n');
                proof {
                    assert(text@ =~= before + seq!['\n', '\n']);
                }
            } else {
                proof {
                    assert(text@ + self.0[0]@ =~= self.0[0]@);
                }
            }
            text.append(self.0[i].as_str());
            i += 1;
        }
        proof {
            assert(self@.take(self.0.len() as int) =~= self@);
        }
        text
    }
}

} // verus!
