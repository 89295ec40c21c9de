use std::rc::Rc;
use vstd::prelude::*;

use super::print::push_char;
use super::width::{char_width, char_width_of, str_width, str_width_of};

verus! {

/// The mathematical value of a [Document]: the same tree, with text as a
/// sequence of characters and no sharing.
pub enum Doc {
    Empty,
    Newline,
    Char(char, u32),
    Text(Seq<char>, u32),
    Flatten(Box<Doc>),
    Indent(u32, Box<Doc>),
    Concat(Box<Doc>, Box<Doc>),
    Choice(Box<Doc>, Box<Doc>),
}

impl Doc {
    /// Number of nodes in the tree.
    pub open spec fn size(self) -> nat
        decreases self,
    {
        match self {
            Doc::Flatten(d) => 1 + d.size(),
            Doc::Indent(_, d) => 1 + d.size(),
            Doc::Concat(a, b) => 1 + a.size() + b.size(),
            Doc::Choice(a, b) => 1 + a.size() + b.size(),
            _ => 1,
        }
    }

    /// The tree as the combinators build it: `Empty` only ever stands as the
    /// whole tree, no character or text holds a line feed or a carriage
    /// return, and each cached width is the display width of its content.
    pub open spec fn wf(self) -> bool
        decreases self,
    {
        match self {
            Doc::Empty => true,
            Doc::Newline => true,
            Doc::Char(c, w) => c != '\n' && c != '\r' && w == char_cols(c),
            Doc::Text(s, w) => s.len() >= 2 && no_breaks(s) && w == text_cols(s),
            Doc::Flatten(d) => !(*d is Empty) && d.wf(),
            Doc::Indent(_, d) => !(*d is Empty) && d.wf(),
            Doc::Concat(a, b) => !(*a is Empty) && !(*b is Empty) && a.wf() && b.wf(),
            Doc::Choice(a, b) => !(*a is Empty) && !(*b is Empty) && a.wf() && b.wf(),
        }
    }

    /// Whether the tree holds only text and line breaks: no choice, flatten
    /// or indentation, so that it prints alike at every width.
    pub open spec fn is_plain(self) -> bool
        decreases self,
    {
        match self {
            Doc::Flatten(_) => false,
            Doc::Indent(..) => false,
            Doc::Choice(..) => false,
            Doc::Concat(a, b) => a.is_plain() && b.is_plain(),
            _ => true,
        }
    }

    /// Whether the first thing this document prints is a line break. A choice
    /// is taken to start with content.
    pub open spec fn has_leading_newline(self) -> bool
        decreases self,
    {
        match self {
            Doc::Empty => false,
            Doc::Newline => true,
            Doc::Char(c, _) => c == '\n' || c == '\r',
            Doc::Text(s, _) => s.len() > 0 && (s[0] == '\n' || s[0] == '\r'),
            Doc::Flatten(d) => d.has_leading_newline(),
            Doc::Indent(_, d) => d.has_leading_newline(),
            Doc::Concat(a, b) => if *a is Empty {
                b.has_leading_newline()
            } else {
                a.has_leading_newline()
            },
            Doc::Choice(..) => false,
        }
    }
}

/// Columns cached for a character: its display width, 0 for a control
/// character.
pub open spec fn char_cols(c: char) -> u32 {
    match char_width_of(c) {
        Some(w) => w as u32,
        None => 0,
    }
}

/// Columns cached for a string.
pub open spec fn text_cols(s: Seq<char>) -> u32 {
    str_width_of(s) as u32
}

/// The document for one character: a line feed becomes a line break.
pub open spec fn char_doc(c: char) -> Doc {
    if c == '\n' {
        Doc::Newline
    } else {
        Doc::Char(c, char_cols(c))
    }
}

/// The document for a string: nothing for the empty string, the character
/// for a one-character string, and the text with its width otherwise.
pub open spec fn text_doc(s: Seq<char>) -> Doc {
    if s.len() == 0 {
        Doc::Empty
    } else if s.len() == 1 {
        char_doc(s[0])
    } else {
        Doc::Text(s, text_cols(s))
    }
}

/// Whether every character of `s` is printable ASCII, one column wide.
pub open spec fn printable(s: Seq<char>) -> bool {
    forall|i: int| 0 <= i < s.len() ==> ' ' <= #[trigger] s[i] <= '~'
}

/// The document for a string of printable ASCII: its width is its length.
pub open spec fn ascii_doc(s: Seq<char>) -> Doc {
    if s.len() == 0 {
        Doc::Empty
    } else if s.len() == 1 {
        Doc::Char(s[0], 1)
    } else {
        Doc::Text(s, s.len() as u32)
    }
}

/// The pieces of `s` between its line feeds, in order.
pub open spec fn segments(s: Seq<char>) -> Seq<Seq<char>>
    decreases s.len(),
{
    if s.len() == 0 {
        seq![Seq::empty()]
    } else {
        let p = segments(s.drop_last());
        if s.last() == '\n' {
            p.push(Seq::empty())
        } else {
            p.update(p.len() - 1, p.last().push(s.last()))
        }
    }
}

/// Whether `s` holds neither a line feed nor a carriage return.
pub open spec fn no_breaks(s: Seq<char>) -> bool {
    !s.contains('\n') && !s.contains('\r')
}

/// `l` without its carriage returns.
pub open spec fn strip_cr(l: Seq<char>) -> Seq<char>
    decreases l.len(),
{
    if l.len() == 0 {
        Seq::empty()
    } else {
        let p = strip_cr(l.drop_last());
        if l.last() == '\r' {
            p
        } else {
            p.push(l.last())
        }
    }
}

/// The lines of `s`: the pieces between line feeds, without carriage
/// returns, and no empty line after the last line feed.
pub open spec fn lines_of(s: Seq<char>) -> Seq<Seq<char>> {
    let p = segments(s);
    let ended = p.drop_last().map_values(|l: Seq<char>| strip_cr(l));
    let last = strip_cr(p.last());
    if last.len() == 0 {
        ended
    } else {
        ended.push(last)
    }
}

/// The text of each line, with a line break between each two.
pub open spec fn join_lines(ls: Seq<Seq<char>>) -> Doc
    decreases ls.len(),
{
    if ls.len() == 0 {
        Doc::Empty
    } else if ls.len() == 1 {
        text_doc(ls[0])
    } else {
        concat_doc(concat_doc(join_lines(ls.drop_last()), Doc::Newline), text_doc(ls.last()))
    }
}

/// Sequential composition, with `Empty` as identity on either side.
pub open spec fn concat_doc(a: Doc, b: Doc) -> Doc {
    if a is Empty {
        b
    } else if b is Empty {
        a
    } else {
        Doc::Concat(Box::new(a), Box::new(b))
    }
}

/// A choice between a primary and a fallback layout; an empty side leaves
/// the other one alone.
pub open spec fn choice_doc(a: Doc, b: Doc) -> Doc {
    if a is Empty {
        b
    } else if b is Empty {
        a
    } else {
        Doc::Choice(Box::new(a), Box::new(b))
    }
}

pub open spec fn flatten_doc(d: Doc) -> Doc {
    if d is Empty {
        Doc::Empty
    } else {
        Doc::Flatten(Box::new(d))
    }
}

pub open spec fn indent_doc(n: u32, d: Doc) -> Doc {
    if d is Empty {
        Doc::Empty
    } else {
        Doc::Indent(n, Box::new(d))
    }
}

/// A document: a tree of layout primitives whose sub-trees are shared.
#[derive(Debug, Default, Clone)]
pub enum Document {
    /// Prints nothing.
    #[default]
    Empty,
    /// A line break.
    Newline,
    /// One character and its display width.
    Char(char, u32),
    /// A string without line breaks and its display width.
    Text(String, u32),
    /// Resolves every choice beneath it to its primary side.
    Flatten(Rc<Document>),
    /// Indents the lines that start inside it by the given amount.
    Indent(u32, Rc<Document>),
    /// One document after the other.
    Concat(Rc<Document>, Rc<Document>),
    /// The primary layout if its first line fits, else the fallback.
    Choice(Rc<Document>, Rc<Document>),
}

impl View for Document {
    type V = Doc;

    open spec fn view(&self) -> Doc
        decreases self,
    {
        match self {
            Document::Empty => Doc::Empty,
            Document::Newline => Doc::Newline,
            Document::Char(c, w) => Doc::Char(*c, *w),
            Document::Text(s, w) => Doc::Text(s@, *w),
            Document::Flatten(d) => Doc::Flatten(Box::new((**d)@)),
            Document::Indent(n, d) => Doc::Indent(*n, Box::new((**d)@)),
            Document::Concat(a, b) => Doc::Concat(Box::new((**a)@), Box::new((**b)@)),
            Document::Choice(a, b) => Doc::Choice(Box::new((**a)@), Box::new((**b)@)),
        }
    }
}

impl Document {
    /// Whether this document has no content.
    pub fn is_empty(&self) -> (r: bool)
        ensures
            r == (self@ is Empty),
    {
        match self {
            Document::Empty => true,
            _ => false,
        }
    }

    /// Whether the content of this document starts with a line break.
    pub fn has_leading_newline(&self) -> (r: bool)
        ensures
            r == self@.has_leading_newline(),
        decreases self,
    {
        match self {
            Document::Empty => false,
            Document::Newline => true,
            Document::Char(c, _) => *c == '\n' || *c == '\r',
            Document::Text(s, _) => {
                let t = s.as_str();
                if t.unicode_len() == 0 {
                    false
                } else {
                    let c = t.get_char(0);
                    c == '\n' || c == '\r'
                }
            },
            Document::Flatten(d) => d.has_leading_newline(),
            Document::Indent(_, d) => d.has_leading_newline(),
            Document::Concat(a, b) => if a.is_empty() {
                b.has_leading_newline()
            } else {
                a.has_leading_newline()
            },
            Document::Choice(..) => false,
        }
    }
}

/// A line break.
pub fn nl() -> (r: Document)
    ensures
        r@ == Doc::Newline,
{
    Document::Newline
}

/// The given character; a line feed becomes a line break.
pub fn character(c: char) -> (r: Document)
    ensures
        r@ == char_doc(c),
        c != '\r' ==> r@.wf(),
        ' ' <= c <= '~' ==> r@ == Doc::Char(c, 1),
{
    if c == '\n' {
        Document::Newline
    } else {
        let width = match char_width(c) {
            Some(w) => w as u32,
            None => 0,
        };
        Document::Char(c, width)
    }
}

/// The given string exactly. The string is expected to hold no line break:
/// use [split] for one that may.
pub fn text(s: &str) -> (r: Document)
    ensures
        r@ == text_doc(s@),
        no_breaks(s@) ==> r@.wf(),
        printable(s@) ==> r@ == ascii_doc(s@),
{
    let n = s.unicode_len();
    if n == 0 {
        Document::Empty
    } else if n == 1 {
        character(s.get_char(0))
    } else {
        let width = str_width(s) as u32;
        Document::Text(String::from_str(s), width)
    }
}

/// Same as [text], for a string that lives as long as the program.
pub fn const_text(s: &'static str) -> (r: Document)
    ensures
        r@ == text_doc(s@),
        no_breaks(s@) ==> r@.wf(),
        printable(s@) ==> r@ == ascii_doc(s@),
{
    text(s)
}

/// Both documents, one after the other.
pub fn concat(left: Document, right: Document) -> (r: Document)
    ensures
        r@ == concat_doc(left@, right@),
        left@.wf() && right@.wf() ==> r@.wf(),
{
    if left.is_empty() {
        right
    } else if right.is_empty() {
        left
    } else {
        Document::Concat(Rc::new(left), Rc::new(right))
    }
}

/// `primary` where its first line fits the width left, else `fallback`.
pub fn choice(primary: Document, fallback: Document) -> (r: Document)
    ensures
        r@ == choice_doc(primary@, fallback@),
        primary@.wf() && fallback@.wf() ==> r@.wf(),
{
    if primary.is_empty() {
        fallback
    } else if fallback.is_empty() {
        primary
    } else {
        Document::Choice(Rc::new(primary), Rc::new(fallback))
    }
}

/// Takes the primary side of every choice in `doc`.
pub fn flatten(doc: Document) -> (r: Document)
    ensures
        r@ == flatten_doc(doc@),
        doc@.wf() ==> r@.wf(),
{
    if doc.is_empty() {
        return doc;
    }
    Document::Flatten(Rc::new(doc))
}

/// Indents each line that starts inside `doc` by `amount` more columns. The
/// line on which `doc` starts is not indented.
pub fn indent(amount: u32, doc: Document) -> (r: Document)
    ensures
        r@ == indent_doc(amount, doc@),
        doc@.wf() ==> r@.wf(),
{
    if doc.is_empty() {
        return doc;
    }
    Document::Indent(amount, Rc::new(doc))
}

/// The characters of `s`, in order.
fn chars_of(s: &str) -> (r: Vec<char>)
    ensures
        r@ == s@,
{
    let n = s.unicode_len();
    let mut r: Vec<char> = Vec::new();
    let mut i: usize = 0;
    while i < n
        invariant
            n == s@.len(),
            i <= n,
            r@ == s@.subrange(0, i as int),
        decreases n - i,
    {
        r.push(s.get_char(i));
        i = i + 1;
        assert(r@ =~= s@.subrange(0, i as int));
    }
    assert(r@ =~= s@);
    r
}

proof fn lemma_join_push(ls: Seq<Seq<char>>, l: Seq<char>)
    ensures
        join_lines(ls.push(l)) == if ls.len() == 0 {
            text_doc(l)
        } else {
            concat_doc(concat_doc(join_lines(ls), Doc::Newline), text_doc(l))
        },
{
    assert(ls.push(l).drop_last() =~= ls);
}

proof fn lemma_join_wf(ls: Seq<Seq<char>>)
    requires
        forall|k: int| 0 <= k < ls.len() ==> no_breaks(#[trigger] ls[k]),
    ensures
        join_lines(ls).wf(),
        join_lines(ls).is_plain(),
    decreases ls.len(),
{
    if ls.len() > 1 {
        assert forall|k: int| 0 <= k < ls.drop_last().len() implies no_breaks(
            #[trigger] ls.drop_last()[k],
        ) by {
            assert(ls.drop_last()[k] == ls[k]);
        }
        assert(no_breaks(ls[ls.len() - 1]));
        lemma_join_wf(ls.drop_last());
        lemma_text_wf(ls.last());
        lemma_concat_wf(join_lines(ls.drop_last()), Doc::Newline);
        lemma_concat_wf(concat_doc(join_lines(ls.drop_last()), Doc::Newline), text_doc(ls.last()));
    } else if ls.len() == 1 {
        assert(no_breaks(ls[0]));
        lemma_text_wf(ls[0]);
    }
}

proof fn lemma_concat_wf(a: Doc, b: Doc)
    requires
        a.wf(),
        b.wf(),
    ensures
        concat_doc(a, b).wf(),
        a.is_plain() && b.is_plain() ==> concat_doc(a, b).is_plain(),
{
}

proof fn lemma_text_wf(s: Seq<char>)
    requires
        no_breaks(s),
    ensures
        text_doc(s).wf(),
        text_doc(s).is_plain(),
{
    if s.len() == 1 {
        assert(s[0] != '\n' && s[0] != '\r');
    }
}

/// A document for `input`, which may hold line breaks: the text of each of
/// its lines, with a line break between each two.
pub fn split(input: &str) -> (r: Document)
    ensures
        r@ == join_lines(lines_of(input@)),
        r@.wf(),
        r@.is_plain(),
{
    let chars = chars_of(input);
    let n = chars.len();
    let ghost s = input@;
    let ghost mut done: Seq<Seq<char>> = Seq::empty();
    let ghost mut lines: Seq<Seq<char>> = Seq::empty();
    let mut doc = Document::Empty;
    let mut line = String::new();
    let mut count: usize = 0;
    let mut start: usize = 0;
    let mut i: usize = 0;
    assert(s.subrange(0, 0) =~= Seq::<char>::empty());
    assert(segments(Seq::<char>::empty()) =~= seq![Seq::<char>::empty()]);
    while i < n
        invariant
            n == s.len(),
            chars@ == s,
            start <= i <= n,
            count == done.len(),
            count <= i,
            lines.len() == done.len(),
            forall|k: int| 0 <= k < done.len() ==> #[trigger] lines[k] == strip_cr(done[k]),
            segments(s.subrange(0, i as int)) == done.push(s.subrange(start as int, i as int)),
            line@ == strip_cr(s.subrange(start as int, i as int)),
            no_breaks(line@),
            doc@ == join_lines(lines),
            forall|k: int| 0 <= k < lines.len() ==> no_breaks(#[trigger] lines[k]),
        decreases n - i,
    {
        let ghost prev = s.subrange(0, i as int);
        assert(s.subrange(0, i + 1).drop_last() =~= prev);
        let c = chars[i];
        if c == '\n' {
            let ghost seg = s.subrange(start as int, i as int);
            let piece = text(line.as_str());
            proof {
                lemma_join_push(lines, line@);
                assert(s.subrange(i + 1, i + 1) =~= Seq::<char>::empty());
            }
            if count == 0 {
                doc = piece;
            } else {
                doc = concat(concat(doc, nl()), piece);
            }
            proof {
                done = done.push(seg);
                lines = lines.push(line@);
                assert(strip_cr(Seq::<char>::empty()) =~= Seq::<char>::empty());
            }
            line = String::new();
            count = count + 1;
            start = i + 1;
        } else {
            let ghost old_line = line@;
            proof {
                let t = s.subrange(start as int, i + 1);
                assert(t.drop_last() =~= s.subrange(start as int, i as int));
                assert(t.last() == c);
                assert(s.subrange(start as int, i + 1) =~= s.subrange(start as int, i as int).push(
                    c,
                ));
            }
            if c != '\r' {
                push_char(&mut line, c);
                proof {
                    assert forall|j: int| 0 <= j < line@.len() implies line@[j] != '\n' && line@[j]
                        != '\r' by {
                        if j < old_line.len() {
                            assert(line@[j] == old_line[j]);
                        }
                    }
                }
            }
        }
        i = i + 1;
    }
    assert(s.subrange(0, n as int) =~= s);
    proof {
        let p = segments(s);
        assert(p.drop_last() =~= done);
        assert(p.drop_last().map_values(|l: Seq<char>| strip_cr(l)) =~= lines);
        lemma_join_wf(lines);
    }
    if line.as_str().unicode_len() == 0 {
        doc
    } else {
        let piece = text(line.as_str());
        proof {
            lemma_join_push(lines, line@);
            lemma_text_wf(line@);
            lemma_concat_wf(doc@, Doc::Newline);
            lemma_concat_wf(concat_doc(doc@, Doc::Newline), piece@);
        }
        if count == 0 {
            piece
        } else {
            concat(concat(doc, nl()), piece)
        }
    }
}

/// The text that `value`'s `Display` impl writes, which is expected to hold
/// no line break.
pub fn display<T: std::fmt::Display + ?Sized>(value: &T) -> (r: Document)
    ensures
        super::render::displays_as(value, r@),
{
    let s = value.to_string();
    text(s.as_str())
}

/// `a` then `b`, as [concat] builds it.
pub open spec fn concat_of(a: Document, b: Document) -> Document {
    if a is Empty {
        b
    } else if b is Empty {
        a
    } else {
        Document::Concat(Rc::new(a), Rc::new(b))
    }
}

/// The document for a character, as [character] builds it.
pub open spec fn character_of(c: char) -> Document {
    if c == '\n' {
        Document::Newline
    } else {
        Document::Char(c, char_cols(c))
    }
}

fn join(a: Document, b: Document) -> (r: Document)
    ensures
        r == concat_of(a, b),
        r@ == concat_doc(a@, b@),
{
    if a.is_empty() {
        b
    } else if b.is_empty() {
        a
    } else {
        Document::Concat(Rc::new(a), Rc::new(b))
    }
}

fn char_node(c: char) -> (r: Document)
    ensures
        r == character_of(c),
{
    let r = character(c);
    proof {
        match r {
            Document::Char(..) => {},
            _ => {},
        }
    }
    r
}

impl std::ops::Add for Document {
    type Output = Document;

    /// Both documents, one after the other.
    fn add(self, other: Document) -> (r: Document) {
        join(self, other)
    }
}

impl vstd::std_specs::ops::AddSpecImpl for Document {
    open spec fn obeys_add_spec() -> bool {
        true
    }

    open spec fn add_req(self, rhs: Document) -> bool {
        true
    }

    open spec fn add_spec(self, rhs: Document) -> Document {
        concat_of(self, rhs)
    }
}

impl std::ops::Add<char> for Document {
    type Output = Document;

    /// The document, then the character.
    fn add(self, other: char) -> (r: Document) {
        join(self, char_node(other))
    }
}

impl vstd::std_specs::ops::AddSpecImpl<char> for Document {
    open spec fn obeys_add_spec() -> bool {
        true
    }

    open spec fn add_req(self, rhs: char) -> bool {
        true
    }

    open spec fn add_spec(self, rhs: char) -> Document {
        concat_of(self, character_of(rhs))
    }
}

impl std::ops::Add<Document> for char {
    type Output = Document;

    /// The character, then the document.
    fn add(self, other: Document) -> (r: Document) {
        join(char_node(self), other)
    }
}

impl vstd::std_specs::ops::AddSpecImpl<Document> for char {
    open spec fn obeys_add_spec() -> bool {
        true
    }

    open spec fn add_req(self, rhs: Document) -> bool {
        true
    }

    open spec fn add_spec(self, rhs: Document) -> Document {
        concat_of(character_of(self), rhs)
    }
}

impl std::ops::BitOr for Document {
    type Output = Document;

    /// `self` where its first line fits, else `other`.
    fn bitor(self, other: Document) -> (r: Document) {
        if self.is_empty() {
            other
        } else if other.is_empty() {
            self
        } else {
            Document::Choice(Rc::new(self), Rc::new(other))
        }
    }
}

impl vstd::std_specs::ops::BitOrSpecImpl for Document {
    open spec fn obeys_bitor_spec() -> bool {
        true
    }

    open spec fn bitor_req(self, rhs: Document) -> bool {
        true
    }

    open spec fn bitor_spec(self, rhs: Document) -> Document {
        if self is Empty {
            rhs
        } else if rhs is Empty {
            self
        } else {
            Document::Choice(Rc::new(self), Rc::new(rhs))
        }
    }
}

impl std::ops::AddAssign for Document {
    /// Appends `rhs`.
    fn add_assign(&mut self, rhs: Document)
        ensures
            *final(self) == concat_of(*old(self), rhs),
    {
        let mut lhs = Document::Empty;
        std::mem::swap(&mut lhs, self);
        *self = join(lhs, rhs);
    }
}

impl std::ops::AddAssign<char> for Document {
    /// Appends the character `rhs`.
    fn add_assign(&mut self, rhs: char)
        ensures
            *final(self) == concat_of(*old(self), character_of(rhs)),
    {
        let mut lhs = Document::Empty;
        std::mem::swap(&mut lhs, self);
        *self = join(lhs, char_node(rhs));
    }
}

impl From<char> for Document {
    /// The document for a character, as [character] builds it.
    fn from(c: char) -> (r: Document) {
        char_node(c)
    }
}

impl vstd::std_specs::convert::FromSpecImpl<char> for Document {
    open spec fn obeys_from_spec() -> bool {
        true
    }

    open spec fn from_spec(c: char) -> Document {
        character_of(c)
    }
}

impl From<String> for Document {
    /// The document for a string, as [text] builds it.
    fn from(s: String) -> (r: Document) {
        let n = s.as_str().unicode_len();
        if n == 0 {
            Document::Empty
        } else if n == 1 {
            char_node(s.as_str().get_char(0))
        } else {
            let width = str_width(s.as_str()) as u32;
            Document::Text(s, width)
        }
    }
}

impl vstd::std_specs::convert::FromSpecImpl<String> for Document {
    open spec fn obeys_from_spec() -> bool {
        true
    }

    open spec fn from_spec(s: String) -> Document {
        if s@.len() == 0 {
            Document::Empty
        } else if s@.len() == 1 {
            character_of(s@[0])
        } else {
            Document::Text(s, text_cols(s@))
        }
    }
}

} // verus!
