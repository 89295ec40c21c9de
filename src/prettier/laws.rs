use vstd::prelude::*;

use super::document::{choice_doc, concat_doc, flatten_doc, indent_doc, Doc};
use super::print::{
    fits, layout, lemma_size_positive, lemma_stack_size_push, pretty, spaces, stack_size, with_doc,
    add_u32, Frame,
};

verus! {

/// Columns that the stack `s`, its top frame last, prints before its first
/// line break, choices outside a flatten scope counted by their fallback.
pub open spec fn line_width(s: Seq<Frame>) -> nat
    decreases stack_size(s),
    via line_width_decreases
{
    if s.len() == 0 {
        0
    } else {
        let f = s.last();
        let rest = s.drop_last();
        match f.doc {
            Doc::Empty => line_width(rest),
            Doc::Newline => 0,
            Doc::Char(_, w) => (w + line_width(rest)) as nat,
            Doc::Text(_, w) => (w + line_width(rest)) as nat,
            Doc::Flatten(d) => line_width(rest.push(Frame { indent: f.indent, flat: true, doc: *d })),
            Doc::Indent(n, d) => line_width(
                rest.push(Frame { indent: add_u32(f.indent, n), flat: f.flat, doc: *d }),
            ),
            Doc::Concat(a, b) => line_width(rest.push(with_doc(f, *b)).push(with_doc(f, *a))),
            Doc::Choice(a, b) => if f.flat {
                line_width(rest.push(with_doc(f, *a)))
            } else {
                line_width(rest.push(with_doc(f, *b)))
            },
        }
    }
}

proof fn lemma_children_smaller(s: Seq<Frame>)
    requires
        s.len() > 0,
    ensures
        ({
            let f = s.last();
            let rest = s.drop_last();
            &&& stack_size(s) == stack_size(rest) + f.doc.size()
            &&& forall|g: Frame| #[trigger]
                stack_size(rest.push(g)) == stack_size(rest) + g.doc.size()
            &&& forall|g: Frame, h: Frame| #[trigger]
                stack_size(rest.push(g).push(h)) == stack_size(rest) + g.doc.size()
                    + h.doc.size()
        }),
{
    let f = s.last();
    let rest = s.drop_last();
    assert(s =~= rest.push(f));
    lemma_stack_size_push(rest, f);
    assert forall|g: Frame| #[trigger]
        stack_size(rest.push(g)) == stack_size(rest) + g.doc.size() by {
        lemma_stack_size_push(rest, g);
    }
    assert forall|g: Frame, h: Frame| #[trigger]
        stack_size(rest.push(g).push(h)) == stack_size(rest) + g.doc.size() + h.doc.size() by {
        lemma_stack_size_push(rest, g);
        lemma_stack_size_push(rest.push(g), h);
    }
}

#[via_fn]
proof fn line_width_decreases(s: Seq<Frame>) {
    if s.len() > 0 {
        lemma_children_smaller(s);
    }
}

/// The fits check measures the first line: a stack fits in `room` columns
/// exactly when its first line is at most `room` columns wide.
pub proof fn lemma_fits_is_line_width(s: Seq<Frame>, room: usize)
    ensures
        fits(s, room) == (line_width(s) <= room),
    decreases stack_size(s),
{
    if s.len() > 0 {
        lemma_children_smaller(s);
        lemma_size_positive(s.last().doc);
        let f = s.last();
        let rest = s.drop_last();
        match f.doc {
            Doc::Empty => lemma_fits_is_line_width(rest, room),
            Doc::Newline => {},
            Doc::Char(_, w) => {
                if w <= room {
                    lemma_fits_is_line_width(rest, (room - w) as usize);
                }
            },
            Doc::Text(_, w) => {
                if w <= room {
                    lemma_fits_is_line_width(rest, (room - w) as usize);
                }
            },
            Doc::Flatten(d) => {
                lemma_size_positive(*d);
                lemma_fits_is_line_width(
                    rest.push(Frame { indent: f.indent, flat: true, doc: *d }),
                    room,
                );
            },
            Doc::Indent(n, d) => {
                lemma_size_positive(*d);
                lemma_fits_is_line_width(
                    rest.push(Frame { indent: add_u32(f.indent, n), flat: f.flat, doc: *d }),
                    room,
                );
            },
            Doc::Concat(a, b) => {
                lemma_fits_is_line_width(rest.push(with_doc(f, *b)).push(with_doc(f, *a)), room);
            },
            Doc::Choice(a, b) => {
                lemma_fits_is_line_width(rest.push(with_doc(f, *a)), room);
                lemma_fits_is_line_width(rest.push(with_doc(f, *b)), room);
            },
        }
    }
}

/// Empty is an identity: concatenating it on either side, indenting or
/// flattening it, or offering it as one side of a choice prints the same as
/// the other document alone, at every width and column.
pub proof fn lemma_empty_identity(d: Doc, n: u32, width: usize, col: usize)
    ensures
        pretty(concat_doc(Doc::Empty, d), width, col) == pretty(d, width, col),
        pretty(concat_doc(d, Doc::Empty), width, col) == pretty(d, width, col),
        pretty(choice_doc(Doc::Empty, d), width, col) == pretty(d, width, col),
        pretty(choice_doc(d, Doc::Empty), width, col) == pretty(d, width, col),
        pretty(indent_doc(n, Doc::Empty), width, col) == Seq::<char>::empty(),
        pretty(flatten_doc(Doc::Empty), width, col) == Seq::<char>::empty(),
        pretty(Doc::Empty, width, col) == Seq::<char>::empty(),
{
    reveal_with_fuel(layout, 2);
    let s = seq![Frame { indent: 0, flat: false, doc: Doc::Empty }];
    assert(s.drop_last() =~= Seq::<Frame>::empty());
}

/// Outside a flatten scope a choice prints its primary side exactly when
/// the column it starts at plus the width of the primary side's first line,
/// flattened, is at most the target width; otherwise its fallback.
pub proof fn lemma_choice_by_width(primary: Doc, fallback: Doc, width: usize, col: usize)
    requires
        !(primary is Empty),
        !(fallback is Empty),
    ensures
        pretty(choice_doc(primary, fallback), width, col) == if col + line_width(
            seq![Frame { indent: 0, flat: true, doc: primary }],
        ) <= width {
            pretty(primary, width, col)
        } else {
            pretty(fallback, width, col)
        },
{
    let top = Frame { indent: 0, flat: false, doc: choice_doc(primary, fallback) };
    let s = seq![top];
    let e = Seq::<Frame>::empty();
    assert(s.drop_last() =~= e);
    let m = seq![Frame { indent: 0, flat: true, doc: primary }];
    assert(e.push(Frame { indent: 0, flat: true, doc: primary }) =~= m);
    assert(e.push(with_doc(top, primary)) =~= seq![Frame { indent: 0, flat: false, doc: primary }]);
    assert(e.push(with_doc(top, fallback)) =~= seq![Frame { indent: 0, flat: false, doc: fallback }]);
    if col <= width {
        lemma_fits_is_line_width(m, (width - col) as usize);
    }
}

/// Inside a flatten scope a choice prints its primary side, whatever the
/// width and column.
pub proof fn lemma_choice_flattened(primary: Doc, fallback: Doc, width: usize, col: usize)
    requires
        !(primary is Empty),
        !(fallback is Empty),
    ensures
        pretty(flatten_doc(choice_doc(primary, fallback)), width, col) == pretty(
            flatten_doc(primary),
            width,
            col,
        ),
{
    reveal_with_fuel(layout, 4);
    let e = Seq::<Frame>::empty();
    let c = choice_doc(primary, fallback);
    let s1 = seq![Frame { indent: 0, flat: false, doc: flatten_doc(c) }];
    let s2 = seq![Frame { indent: 0, flat: false, doc: flatten_doc(primary) }];
    assert(s1.drop_last() =~= e);
    assert(s2.drop_last() =~= e);
    let t1 = e.push(Frame { indent: 0, flat: true, doc: c });
    assert(t1.drop_last() =~= e);
    assert(e.push(Frame { indent: 0, flat: true, doc: primary }) =~= e.push(
        with_doc(t1.last(), primary),
    ));
}

/// A line break inside an indentation of `n` columns is followed by exactly
/// `n` spaces, and what follows it prints at that indentation from column `n`.
pub proof fn lemma_indent_after_break(n: u32, d: Doc, width: usize, col: usize)
    requires
        !(d is Empty),
    ensures
        pretty(indent_doc(n, concat_doc(Doc::Newline, d)), width, col) == seq!['\n'] + spaces(n)
            + layout(seq![Frame { indent: n, flat: false, doc: d }], width, n as usize),
{
    reveal_with_fuel(layout, 4);
    let e = Seq::<Frame>::empty();
    let cd = concat_doc(Doc::Newline, d);
    let s = seq![Frame { indent: 0, flat: false, doc: indent_doc(n, cd) }];
    assert(s.drop_last() =~= e);
    assert(add_u32(0, n) == n);
    let t = e.push(Frame { indent: n, flat: false, doc: cd });
    assert(t.drop_last() =~= e);
    let u = e.push(Frame { indent: n, flat: false, doc: d }).push(
        Frame { indent: n, flat: false, doc: Doc::Newline },
    );
    assert(u.drop_last() =~= seq![Frame { indent: n, flat: false, doc: d }]);
}

/// Indentation never applies to the line a document starts on.
pub proof fn lemma_indent_first_line(n: u32, t: Seq<char>, w: u32, width: usize, col: usize)
    ensures
        pretty(indent_doc(n, Doc::Text(t, w)), width, col) == t,
{
    reveal_with_fuel(layout, 4);
    let e = Seq::<Frame>::empty();
    let s = seq![Frame { indent: 0, flat: false, doc: indent_doc(n, Doc::Text(t, w)) }];
    assert(s.drop_last() =~= e);
    let u = e.push(Frame { indent: add_u32(0, n), flat: false, doc: Doc::Text(t, w) });
    assert(u.drop_last() =~= e);
    assert(t + Seq::<char>::empty() =~= t);
}

/// Flattening does not remove a hard line break: a flattened document that
/// starts with a line break prints that break, then the rest at column 0.
pub proof fn lemma_flatten_keeps_breaks(d: Doc, width: usize, col: usize)
    requires
        !(d is Empty),
    ensures
        pretty(flatten_doc(concat_doc(Doc::Newline, d)), width, col) == seq!['\n'] + layout(
            seq![Frame { indent: 0, flat: true, doc: d }],
            width,
            0,
        ),
{
    reveal_with_fuel(layout, 4);
    let e = Seq::<Frame>::empty();
    let cd = concat_doc(Doc::Newline, d);
    let s = seq![Frame { indent: 0, flat: false, doc: flatten_doc(cd) }];
    assert(s.drop_last() =~= e);
    let t = e.push(Frame { indent: 0, flat: true, doc: cd });
    assert(t.drop_last() =~= e);
    let u = e.push(Frame { indent: 0, flat: true, doc: d }).push(
        Frame { indent: 0, flat: true, doc: Doc::Newline },
    );
    assert(u.drop_last() =~= seq![Frame { indent: 0, flat: true, doc: d }]);
    assert(spaces(0) =~= Seq::<char>::empty());
    assert(seq!['\n'] + Seq::<char>::empty() =~= seq!['\n']);
}

/// Printing depends on the document, the width and the starting column
/// alone: equal documents printed alike give the same text.
pub proof fn lemma_print_deterministic(a: Doc, b: Doc, width: usize, col: usize)
    requires
        a == b,
    ensures
        pretty(a, width, col) == pretty(b, width, col),
{
}

/// Whether `d` holds no choice.
pub open spec fn choice_free(d: Doc) -> bool
    decreases d,
{
    match d {
        Doc::Flatten(x) => choice_free(*x),
        Doc::Indent(_, x) => choice_free(*x),
        Doc::Concat(a, b) => choice_free(*a) && choice_free(*b),
        Doc::Choice(..) => false,
        _ => true,
    }
}

/// Two stacks that differ at most in their flatten flags, over choice-free
/// documents.
pub open spec fn same_but_flat(s: Seq<Frame>, t: Seq<Frame>) -> bool {
    &&& s.len() == t.len()
    &&& forall|i: int|
        0 <= i < s.len() ==> {
            &&& #[trigger] s[i].indent == t[i].indent
            &&& s[i].doc == t[i].doc
            &&& choice_free(s[i].doc)
        }
}

proof fn lemma_same_but_flat_push(s: Seq<Frame>, t: Seq<Frame>, f: Frame, g: Frame)
    requires
        same_but_flat(s, t),
        f.indent == g.indent,
        f.doc == g.doc,
        choice_free(f.doc),
    ensures
        same_but_flat(s.push(f), t.push(g)),
{
    assert forall|i: int| 0 <= i < s.push(f).len() implies {
        &&& #[trigger] s.push(f)[i].indent == t.push(g)[i].indent
        &&& s.push(f)[i].doc == t.push(g)[i].doc
        &&& choice_free(s.push(f)[i].doc)
    } by {
        if i < s.len() {
            assert(s.push(f)[i] == s[i]);
            assert(t.push(g)[i] == t[i]);
        }
    }
}

/// Without choices, whether a flatten scope encloses a frame changes
/// nothing in what a stack prints.
pub proof fn lemma_flags_irrelevant(s: Seq<Frame>, t: Seq<Frame>, width: usize, col: usize)
    requires
        same_but_flat(s, t),
    ensures
        layout(s, width, col) == layout(t, width, col),
    decreases stack_size(s),
{
    if s.len() > 0 {
        lemma_children_smaller(s);
        let f = s.last();
        let g = t.last();
        let rs = s.drop_last();
        let rt = t.drop_last();
        assert(f == s[s.len() - 1] && g == t[t.len() - 1]);
        assert(same_but_flat(rs, rt)) by {
            assert forall|i: int| 0 <= i < rs.len() implies {
                &&& #[trigger] rs[i].indent == rt[i].indent
                &&& rs[i].doc == rt[i].doc
                &&& choice_free(rs[i].doc)
            } by {
                assert(rs[i] == s[i] && rt[i] == t[i]);
            }
        }
        match f.doc {
            Doc::Empty => lemma_flags_irrelevant(rs, rt, width, col),
            Doc::Newline => lemma_flags_irrelevant(rs, rt, width, f.indent as usize),
            Doc::Char(_, w) => lemma_flags_irrelevant(rs, rt, width, super::print::add_usize(col, w)),
            Doc::Text(_, w) => lemma_flags_irrelevant(rs, rt, width, super::print::add_usize(col, w)),
            Doc::Flatten(d) => {
                let f2 = Frame { indent: f.indent, flat: true, doc: *d };
                let g2 = Frame { indent: g.indent, flat: true, doc: *d };
                lemma_same_but_flat_push(rs, rt, f2, g2);
                lemma_flags_irrelevant(rs.push(f2), rt.push(g2), width, col);
            },
            Doc::Indent(n, d) => {
                let f2 = Frame { indent: add_u32(f.indent, n), flat: f.flat, doc: *d };
                let g2 = Frame { indent: add_u32(g.indent, n), flat: g.flat, doc: *d };
                lemma_same_but_flat_push(rs, rt, f2, g2);
                lemma_flags_irrelevant(rs.push(f2), rt.push(g2), width, col);
            },
            Doc::Concat(a, b) => {
                lemma_same_but_flat_push(rs, rt, with_doc(f, *b), with_doc(g, *b));
                lemma_same_but_flat_push(
                    rs.push(with_doc(f, *b)),
                    rt.push(with_doc(g, *b)),
                    with_doc(f, *a),
                    with_doc(g, *a),
                );
                lemma_flags_irrelevant(
                    rs.push(with_doc(f, *b)).push(with_doc(f, *a)),
                    rt.push(with_doc(g, *b)).push(with_doc(g, *a)),
                    width,
                    col,
                );
            },
            Doc::Choice(..) => {},
        }
    }
}

/// Flattening a document without choices neither adds nor removes a line
/// break: it prints exactly as the document does.
pub proof fn lemma_flatten_choice_free(d: Doc, width: usize, col: usize)
    requires
        choice_free(d),
    ensures
        pretty(flatten_doc(d), width, col) == pretty(d, width, col),
{
    reveal_with_fuel(layout, 2);
    if !(d is Empty) {
        let e = Seq::<Frame>::empty();
        let s = seq![Frame { indent: 0, flat: false, doc: flatten_doc(d) }];
        assert(s.drop_last() =~= e);
        let a = e.push(Frame { indent: 0, flat: true, doc: d });
        let b = seq![Frame { indent: 0, flat: false, doc: d }];
        assert(same_but_flat(a, b));
        lemma_flags_irrelevant(a, b, width, col);
    }
}

/// A choice after a text of `w` columns, with nothing after the choice,
/// prints its primary side exactly when `w` plus the width of the primary
/// side's flattened first line is at most the target width.
pub proof fn lemma_choice_after_text(
    t: Seq<char>,
    w: u32,
    primary: Doc,
    fallback: Doc,
    width: usize,
)
    requires
        !(primary is Empty),
        !(fallback is Empty),
    ensures
        pretty(concat_doc(Doc::Text(t, w), choice_doc(primary, fallback)), width, 0) == if w
            + line_width(seq![Frame { indent: 0, flat: true, doc: primary }]) <= width {
            pretty(concat_doc(Doc::Text(t, w), primary), width, 0)
        } else {
            pretty(concat_doc(Doc::Text(t, w), fallback), width, 0)
        },
{
    reveal_with_fuel(layout, 3);
    let e = Seq::<Frame>::empty();
    let text = Doc::Text(t, w);
    assert(super::print::add_usize(0, w) == w as usize);
    assert forall|x: Doc| !(x is Empty) implies pretty(concat_doc(text, x), width, 0) == t + pretty(
        x,
        width,
        w as usize,
    ) by {
        let s = seq![Frame { indent: 0, flat: false, doc: concat_doc(text, x) }];
        assert(s.drop_last() =~= e);
        let fx = Frame { indent: 0, flat: false, doc: x };
        let ft = Frame { indent: 0, flat: false, doc: text };
        let u = e.push(fx).push(ft);
        assert(u.drop_last() =~= seq![fx]);
        assert(e.push(fx) =~= seq![fx]);
    }
    lemma_choice_by_width(primary, fallback, width, w as usize);
}

/// A choice after a character of `w` columns, with nothing after the choice,
/// prints its primary side exactly when `w` plus the width of the primary
/// side's flattened first line is at most the target width.
pub proof fn lemma_choice_after_char(
    c: char,
    w: u32,
    primary: Doc,
    fallback: Doc,
    width: usize,
)
    requires
        !(primary is Empty),
        !(fallback is Empty),
    ensures
        pretty(concat_doc(Doc::Char(c, w), choice_doc(primary, fallback)), width, 0) == if w
            + line_width(seq![Frame { indent: 0, flat: true, doc: primary }]) <= width {
            pretty(concat_doc(Doc::Char(c, w), primary), width, 0)
        } else {
            pretty(concat_doc(Doc::Char(c, w), fallback), width, 0)
        },
{
    reveal_with_fuel(layout, 3);
    let e = Seq::<Frame>::empty();
    let text = Doc::Char(c, w);
    assert(super::print::add_usize(0, w) == w as usize);
    assert forall|x: Doc| !(x is Empty) implies pretty(concat_doc(text, x), width, 0) == seq![c] + pretty(
        x,
        width,
        w as usize,
    ) by {
        let s = seq![Frame { indent: 0, flat: false, doc: concat_doc(text, x) }];
        assert(s.drop_last() =~= e);
        let fx = Frame { indent: 0, flat: false, doc: x };
        let ft = Frame { indent: 0, flat: false, doc: text };
        let u = e.push(fx).push(ft);
        assert(u.drop_last() =~= seq![fx]);
        assert(e.push(fx) =~= seq![fx]);
    }
    lemma_choice_by_width(primary, fallback, width, w as usize);
}

/// A line break prints a line feed and then exactly as many spaces as the
/// indentation in force for it, which is where the next content starts.
pub proof fn lemma_break_indents(rest: Seq<Frame>, n: u32, flat: bool, width: usize, col: usize)
    ensures
        layout(rest.push(Frame { indent: n, flat, doc: Doc::Newline }), width, col) == seq!['\n']
            + spaces(n) + layout(rest, width, n as usize),
{
    assert(rest.push(Frame { indent: n, flat, doc: Doc::Newline }).drop_last() =~= rest);
}

/// Indentations add up: a document inside an indentation of `m` prints at
/// `m` columns more than the indentation around it.
pub proof fn lemma_indents_add(
    rest: Seq<Frame>,
    n: u32,
    flat: bool,
    m: u32,
    d: Doc,
    width: usize,
    col: usize,
)
    ensures
        layout(rest.push(Frame { indent: n, flat, doc: indent_doc(m, d) }), width, col) == layout(
            rest.push(Frame { indent: add_u32(n, m), flat, doc: d }),
            width,
            col,
        ),
{
    reveal_with_fuel(layout, 2);
    assert(rest.push(Frame { indent: n, flat, doc: indent_doc(m, d) }).drop_last() =~= rest);
    if d is Empty {
        assert(rest.push(Frame { indent: add_u32(n, m), flat, doc: d }).drop_last() =~= rest);
    }
}

/// An indentation reaches its document only through the indentation in
/// force for it: the document prints as it would under `n` more columns of
/// indentation, which only its line breaks read, so the line it starts on
/// is never indented.
pub proof fn lemma_indent_scope(n: u32, d: Doc, width: usize, col: usize)
    requires
        !(d is Empty),
    ensures
        pretty(indent_doc(n, d), width, col) == layout(
            seq![Frame { indent: n, flat: false, doc: d }],
            width,
            col,
        ),
{
    let e = Seq::<Frame>::empty();
    let s = seq![Frame { indent: 0, flat: false, doc: indent_doc(n, d) }];
    assert(s.drop_last() =~= e);
    assert(add_u32(0, n) == n);
    assert(e.push(Frame { indent: n, flat: false, doc: d }) =~= seq![
        Frame { indent: n, flat: false, doc: d },
    ]);
}

} // verus!
