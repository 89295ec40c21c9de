use vstd::prelude::*;

use super::document::{Doc, Document};

verus! {

/// One pending piece of work of the printer: a document, the indentation in
/// force for it, and whether a flatten scope encloses it.
pub struct Frame {
    pub indent: u32,
    pub flat: bool,
    pub doc: Doc,
}

/// `a + b`, held at `u32::MAX`.
pub open spec fn add_u32(a: u32, b: u32) -> u32 {
    if a + b > u32::MAX {
        u32::MAX
    } else {
        (a + b) as u32
    }
}

/// `a + b`, held at `usize::MAX`.
pub open spec fn add_usize(a: usize, b: u32) -> usize {
    if a + b > usize::MAX {
        usize::MAX
    } else {
        (a + b) as usize
    }
}

/// `n` spaces.
pub open spec fn spaces(n: u32) -> Seq<char> {
    Seq::new(n as nat, |i: int| ' ')
}

/// The frame that renders `d` in the scope of `f`.
pub open spec fn with_doc(f: Frame, d: Doc) -> Frame {
    Frame { indent: f.indent, flat: f.flat, doc: d }
}

/// Total number of document nodes on a stack of frames.
pub open spec fn stack_size(s: Seq<Frame>) -> nat
    decreases s.len(),
{
    if s.len() == 0 {
        0
    } else {
        stack_size(s.drop_last()) + s.last().doc.size()
    }
}

pub proof fn lemma_stack_size_push(s: Seq<Frame>, f: Frame)
    ensures
        stack_size(s.push(f)) == stack_size(s) + f.doc.size(),
{
    assert(s.push(f).drop_last() =~= s);
}

pub proof fn lemma_size_positive(d: Doc)
    ensures
        d.size() >= 1,
{
}

/// Whether the stack `s`, its top frame last, prints up to its first line
/// break, or to its end, within `room` columns. Choices outside a flatten
/// scope are measured by their fallback side.
pub open spec fn fits(s: Seq<Frame>, room: usize) -> bool
    decreases stack_size(s),
    via fits_decreases
{
    if s.len() == 0 {
        true
    } else {
        let f = s.last();
        let rest = s.drop_last();
        match f.doc {
            Doc::Empty => fits(rest, room),
            Doc::Newline => true,
            Doc::Char(_, w) => w <= room && fits(rest, (room - w) as usize),
            Doc::Text(_, w) => w <= room && fits(rest, (room - w) as usize),
            Doc::Flatten(d) => fits(rest.push(Frame { indent: f.indent, flat: true, doc: *d }), room),
            Doc::Indent(n, d) => fits(
                rest.push(Frame { indent: add_u32(f.indent, n), flat: f.flat, doc: *d }),
                room,
            ),
            Doc::Concat(a, b) => fits(rest.push(with_doc(f, *b)).push(with_doc(f, *a)), room),
            Doc::Choice(a, b) => if f.flat {
                fits(rest.push(with_doc(f, *a)), room)
            } else {
                fits(rest.push(with_doc(f, *b)), room)
            },
        }
    }
}

#[via_fn]
proof fn fits_decreases(s: Seq<Frame>, room: usize) {
    if s.len() > 0 {
        let f = s.last();
        let rest = s.drop_last();
        assert(s =~= rest.push(f));
        lemma_stack_size_push(rest, f);
        match f.doc {
            Doc::Flatten(d) => lemma_stack_size_push(rest, Frame { indent: f.indent, flat: true, doc: *d }),
            Doc::Indent(n, d) => lemma_stack_size_push(
                rest,
                Frame { indent: add_u32(f.indent, n), flat: f.flat, doc: *d },
            ),
            Doc::Concat(a, b) => {
                lemma_stack_size_push(rest, with_doc(f, *b));
                lemma_stack_size_push(rest.push(with_doc(f, *b)), with_doc(f, *a));
            },
            Doc::Choice(a, b) => {
                lemma_stack_size_push(rest, with_doc(f, *a));
                lemma_stack_size_push(rest, with_doc(f, *b));
            },
            _ => {},
        }
    }
}

/// Whether a choice printed from the top of `rest` under `f`, at column
/// `col`, takes its primary side `a`: always inside a flatten scope, else when
/// `a`, flattened, and what follows it up to the next line break fit in what
/// is left of `width`.
pub open spec fn takes_primary(rest: Seq<Frame>, f: Frame, a: Doc, width: usize, col: usize) -> bool {
    f.flat || (col <= width && fits(
        rest.push(Frame { indent: f.indent, flat: true, doc: a }),
        (width - col) as usize,
    ))
}

/// The text that the stack `s`, its top frame last, prints at `width`,
/// starting at column `col`.
pub open spec fn layout(s: Seq<Frame>, width: usize, col: usize) -> Seq<char>
    decreases stack_size(s),
    via layout_decreases
{
    if s.len() == 0 {
        Seq::empty()
    } else {
        let f = s.last();
        let rest = s.drop_last();
        match f.doc {
            Doc::Empty => layout(rest, width, col),
            Doc::Newline => seq!['\n'] + spaces(f.indent) + layout(rest, width, f.indent as usize),
            Doc::Char(c, w) => seq![c] + layout(rest, width, add_usize(col, w)),
            Doc::Text(t, w) => t + layout(rest, width, add_usize(col, w)),
            Doc::Flatten(d) => layout(
                rest.push(Frame { indent: f.indent, flat: true, doc: *d }),
                width,
                col,
            ),
            Doc::Indent(n, d) => layout(
                rest.push(Frame { indent: add_u32(f.indent, n), flat: f.flat, doc: *d }),
                width,
                col,
            ),
            Doc::Concat(a, b) => layout(rest.push(with_doc(f, *b)).push(with_doc(f, *a)), width, col),
            Doc::Choice(a, b) => if takes_primary(rest, f, *a, width, col) {
                layout(rest.push(with_doc(f, *a)), width, col)
            } else {
                layout(rest.push(with_doc(f, *b)), width, col)
            },
        }
    }
}

#[via_fn]
proof fn layout_decreases(s: Seq<Frame>, width: usize, col: usize) {
    if s.len() > 0 {
        let f = s.last();
        let rest = s.drop_last();
        assert(s =~= rest.push(f));
        lemma_stack_size_push(rest, f);
        match f.doc {
            Doc::Flatten(d) => lemma_stack_size_push(rest, Frame { indent: f.indent, flat: true, doc: *d }),
            Doc::Indent(n, d) => lemma_stack_size_push(
                rest,
                Frame { indent: add_u32(f.indent, n), flat: f.flat, doc: *d },
            ),
            Doc::Concat(a, b) => {
                lemma_stack_size_push(rest, with_doc(f, *b));
                lemma_stack_size_push(rest.push(with_doc(f, *b)), with_doc(f, *a));
            },
            Doc::Choice(a, b) => {
                lemma_stack_size_push(rest, with_doc(f, *a));
                lemma_stack_size_push(rest, with_doc(f, *b));
            },
            _ => {},
        }
    }
}

/// The text that `d` prints at `width`, starting at column `col`, outside any
/// indentation or flatten scope.
pub open spec fn pretty(d: Doc, width: usize, col: usize) -> Seq<char> {
    layout(seq![Frame { indent: 0, flat: false, doc: d }], width, col)
}

/// A frame of the running printer.
#[derive(Clone, Copy)]
struct Chunk<'a> {
    doc: &'a Document,
    indent: u32,
    flat: bool,
}

impl<'a> View for Chunk<'a> {
    type V = Frame;

    closed spec fn view(&self) -> Frame {
        Frame { indent: self.indent, flat: self.flat, doc: (*self.doc)@ }
    }
}

spec fn frames(s: Seq<Chunk>) -> Seq<Frame> {
    s.map_values(|c: Chunk| c@)
}

proof fn lemma_frames_push(s: Seq<Chunk>, c: Chunk)
    ensures
        frames(s.push(c)) == frames(s).push(c@),
{
    assert(frames(s.push(c)) =~= frames(s).push(c@));
}

proof fn lemma_frames_drop_last(s: Seq<Chunk>)
    requires
        s.len() > 0,
    ensures
        frames(s.drop_last()) == frames(s).drop_last(),
        frames(s).last() == s.last()@,
{
    assert(frames(s.drop_last()) =~= frames(s).drop_last());
}

/// Relies on `String::push`: appends the character.
#[verifier::external_body]
pub(crate) fn push_char(out: &mut String, c: char)
    ensures
        final(out)@ == old(out)@.push(c),
{
    out.push(c)
}

fn add_sat_u32(a: u32, b: u32) -> (r: u32)
    ensures
        r == add_u32(a, b),
{
    if a > u32::MAX - b {
        u32::MAX
    } else {
        a + b
    }
}

fn add_sat_usize(a: usize, b: u32) -> (r: usize)
    ensures
        r == add_usize(a, b),
{
    if a > usize::MAX - b as usize {
        usize::MAX
    } else {
        a + b as usize
    }
}

/// Whether the chunks `stack` with `next` on top print up to their first
/// line break within `room` columns.
fn fits_exec<'a>(stack: &Vec<Chunk<'a>>, next: Chunk<'a>, room: usize) -> (r: bool)
    ensures
        r == fits(frames(stack@).push(next@), room),
{
    let mut local: Vec<Chunk<'a>> = Vec::new();
    local.push(next);
    let mut k: usize = stack.len();
    let mut left = room;
    proof {
        lemma_frames_push(stack@, next);
        assert(stack@.subrange(0, k as int) + local@ =~= stack@.push(next));
    }
    loop
        invariant
            k <= stack.len(),
            fits(frames(stack@.subrange(0, k as int) + local@), left) == fits(
                frames(stack@).push(next@),
                room,
            ),
        decreases stack_size(frames(stack@.subrange(0, k as int) + local@)),
    {
        let ghost all = stack@.subrange(0, k as int) + local@;
        if local.len() == 0 && k == 0 {
            assert(all.len() == 0);
            return true;
        }
        let chunk = if local.len() > 0 {
            proof {
                assert(all.drop_last() =~= stack@.subrange(0, k as int) + local@.drop_last());
            }
            local.pop().unwrap()
        } else {
            k = k - 1;
            proof {
                assert(all.drop_last() =~= stack@.subrange(0, k as int) + local@);
            }
            stack[k]
        };
        proof {
            lemma_frames_drop_last(all);
            let rest = stack@.subrange(0, k as int) + local@;
            assert(all.drop_last() == rest);
            assert(all.last() == chunk);
            assert(frames(all) =~= frames(rest).push(chunk@));
            lemma_stack_size_push(frames(rest), chunk@);
            lemma_size_positive(chunk@.doc);
        }
        let ghost rest = stack@.subrange(0, k as int) + local@;
        match chunk.doc {
            Document::Empty => {},
            Document::Newline => {
                return true;
            },
            Document::Char(_, w) | Document::Text(_, w) => {
                if (*w as usize) <= left {
                    left = left - *w as usize;
                } else {
                    return false;
                }
            },
            Document::Flatten(d) => {
                let c = Chunk { doc: &**d, indent: chunk.indent, flat: true };
                local.push(c);
                proof {
                    assert(stack@.subrange(0, k as int) + local@ =~= rest.push(c));
                    lemma_frames_push(rest, c);
                    lemma_stack_size_push(frames(rest), c@);
                }
            },
            Document::Indent(n, d) => {
                let c = Chunk { doc: &**d, indent: add_sat_u32(chunk.indent, *n), flat: chunk.flat };
                local.push(c);
                proof {
                    assert(stack@.subrange(0, k as int) + local@ =~= rest.push(c));
                    lemma_frames_push(rest, c);
                    lemma_stack_size_push(frames(rest), c@);
                }
            },
            Document::Concat(a, b) => {
                let cb = Chunk { doc: &**b, indent: chunk.indent, flat: chunk.flat };
                let ca = Chunk { doc: &**a, indent: chunk.indent, flat: chunk.flat };
                local.push(cb);
                local.push(ca);
                proof {
                    assert(stack@.subrange(0, k as int) + local@ =~= rest.push(cb).push(ca));
                    lemma_frames_push(rest, cb);
                    lemma_frames_push(rest.push(cb), ca);
                    lemma_stack_size_push(frames(rest), cb@);
                    lemma_stack_size_push(frames(rest).push(cb@), ca@);
                }
            },
            Document::Choice(a, b) => {
                let c = if chunk.flat {
                    Chunk { doc: &**a, indent: chunk.indent, flat: chunk.flat }
                } else {
                    Chunk { doc: &**b, indent: chunk.indent, flat: chunk.flat }
                };
                local.push(c);
                proof {
                    assert(stack@.subrange(0, k as int) + local@ =~= rest.push(c));
                    lemma_frames_push(rest, c);
                    lemma_stack_size_push(frames(rest), c@);
                }
            },
        }
    }
}

fn push_spaces(out: &mut String, n: u32)
    ensures
        final(out)@ == old(out)@ + spaces(n),
{
    let mut i: u32 = 0;
    while i < n
        invariant
            i <= n,
            out@ == old(out)@ + Seq::new(i as nat, |j: int| ' '),
        decreases n - i,
    {
        push_char(out, ' ');
        i = i + 1;
        assert(out@ =~= old(out)@ + Seq::new(i as nat, |j: int| ' '));
    }
    assert(out@ =~= old(out)@ + spaces(n));
}

/// Appends to `out` the text that `doc` prints at `width`, starting at column
/// `col`.
pub fn pretty_print(doc: &Document, width: usize, col: usize, out: &mut String)
    ensures
        final(out)@ == old(out)@ + pretty(doc@, width, col),
{
    let mut stack: Vec<Chunk> = Vec::new();
    let top = Chunk { doc, indent: 0, flat: false };
    stack.push(top);
    let ghost start = col;
    let mut col = col;
    proof {
        lemma_frames_push(Seq::empty(), top);
        assert(Seq::<Chunk>::empty().push(top) =~= stack@);
        assert(frames(Seq::empty()) =~= Seq::<Frame>::empty());
        assert(Seq::<Frame>::empty().push(top@) =~= seq![top@]);
    }
    while stack.len() > 0
        invariant
            old(out)@ + pretty(doc@, width, start) == out@ + layout(frames(stack@), width, col),
        decreases stack_size(frames(stack@)),
    {
        let ghost before = stack@;
        let chunk = stack.pop().unwrap();
        proof {
            lemma_frames_drop_last(before);
            assert(before.drop_last() == stack@);
            assert(frames(before) =~= frames(stack@).push(chunk@));
            lemma_stack_size_push(frames(stack@), chunk@);
            lemma_size_positive(chunk@.doc);
        }
        let ghost rest = stack@;
        match chunk.doc {
            Document::Empty => {},
            Document::Newline => {
                push_char(out, '\n');
                push_spaces(out, chunk.indent);
                col = chunk.indent as usize;
                proof {
                    assert(out@ + layout(frames(rest), width, col) =~= old(out)@ + pretty(doc@, width, start));
                }
            },
            Document::Char(c, w) => {
                push_char(out, *c);
                col = add_sat_usize(col, *w);
            },
            Document::Text(t, w) => {
                out.append(t.as_str());
                col = add_sat_usize(col, *w);
            },
            Document::Flatten(d) => {
                let c = Chunk { doc: &**d, indent: chunk.indent, flat: true };
                stack.push(c);
                proof {
                    lemma_frames_push(rest, c);
                    lemma_stack_size_push(frames(rest), c@);
                }
            },
            Document::Indent(n, d) => {
                let c = Chunk { doc: &**d, indent: add_sat_u32(chunk.indent, *n), flat: chunk.flat };
                stack.push(c);
                proof {
                    lemma_frames_push(rest, c);
                    lemma_stack_size_push(frames(rest), c@);
                }
            },
            Document::Concat(a, b) => {
                let cb = Chunk { doc: &**b, indent: chunk.indent, flat: chunk.flat };
                let ca = Chunk { doc: &**a, indent: chunk.indent, flat: chunk.flat };
                stack.push(cb);
                stack.push(ca);
                proof {
                    lemma_frames_push(rest, cb);
                    lemma_frames_push(rest.push(cb), ca);
                    lemma_stack_size_push(frames(rest), cb@);
                    lemma_stack_size_push(frames(rest).push(cb@), ca@);
                }
            },
            Document::Choice(a, b) => {
                let ghost f = chunk@;
                let primary = Chunk { doc: &**a, indent: chunk.indent, flat: chunk.flat };
                let take = chunk.flat || (col <= width && fits_exec(
                    &stack,
                    Chunk { doc: &**a, indent: chunk.indent, flat: true },
                    width - col,
                ));
                let c = if take {
                    primary
                } else {
                    Chunk { doc: &**b, indent: chunk.indent, flat: chunk.flat }
                };
                stack.push(c);
                proof {
                    assert(take == takes_primary(frames(rest), f, (**a)@, width, col));
                    lemma_frames_push(rest, c);
                    lemma_stack_size_push(frames(rest), c@);
                }
            },
        }
    }
    assert(frames(stack@) =~= Seq::<Frame>::empty());
}

} // verus!
