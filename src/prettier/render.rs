use std::collections::{BTreeMap, BTreeSet};
use std::rc::Rc;
use std::sync::Arc;
use vstd::prelude::*;

use super::document::{
    ascii_doc, char_doc, character, choice, choice_doc, concat, concat_doc, display, indent, indent_doc,
    join_lines, lines_of, nl, printable, split, text_doc, Doc, Document,
};
use vstd::std_specs::btree::{spec_btree_map_len, spec_btree_set_len};
use vstd::string::to_string_from_display_ensures;
use super::print::{pretty, pretty_print};

verus! {

/// Relies on `BTreeSet::iter`, collected into a vector: a reference to each
/// element of the set, one per element.
#[verifier::external_body]
fn set_elements<'a, T>(set: &'a BTreeSet<T>) -> (r: Vec<&'a T>)
    ensures
        r@.len() == spec_btree_set_len(set),
        forall|k: int| 0 <= k < r@.len() ==> set@.contains(*#[trigger] r@[k]),
{
    set.iter().collect()
}

/// Relies on `BTreeMap::iter`, collected into a vector: a reference to each
/// key of the map with its value, one per entry.
#[verifier::external_body]
fn map_entries<'a, K, V>(map: &'a BTreeMap<K, V>) -> (r: Vec<(&'a K, &'a V)>)
    ensures
        r@.len() == spec_btree_map_len(map),
        forall|k: int|
            0 <= k < r@.len() ==> map@.contains_key(*(#[trigger] r@[k]).0) && map@[*r@[k].0]
                == *r@[k].1,
{
    map.iter().collect()
}

/// `" => "`, between a key and its value.
pub open spec fn arrow_doc() -> Doc {
    text_doc(seq![' ', '=', '>', ' '])
}

/// The layout of a map entry: the key, `" => "`, the value.
pub open spec fn entry_doc(key: Doc, value: Doc) -> Doc {
    concat_doc(concat_doc(key, arrow_doc()), value)
}

/// The width that printing assumes where none is given.
pub const DEFAULT_WIDTH: usize = 80;

/// The text of `doc` printed at `width` from column 0.
pub fn pretty_string(doc: &Document, width: usize) -> (r: String)
    ensures
        r@ == pretty(doc@, width, 0),
{
    let mut out = String::new();
    pretty_print(doc, width, 0, &mut out);
    out
}

/// Whether `d` is what [display] gives for `value`: the text that its
/// `Display` impl writes.
pub open spec fn displays_as<T: std::fmt::Display + ?Sized>(value: &T, d: Doc) -> bool {
    exists|s: String|
        {
            &&& to_string_from_display_ensures::<T>(value, s)
            &&& d == text_doc(s@)
            &&& printable(s@) ==> d == ascii_doc(s@)
        }
}

/// A value that can be laid out as a [Document].
///
/// Only [PrettyPrint::render] needs an implementation; the document is built
/// anew each time the value is printed.
pub trait PrettyPrint {
    /// Whether `d` is a layout that this value renders as. An impl that
    /// states nothing admits every layout.
    open spec fn renders_as(&self, d: Doc) -> bool {
        true
    }

    /// The layout of this value.
    fn render(&self) -> (r: Document)
        ensures
            self.renders_as(r@),
    ;

    /// This value printed at the default width of 80 columns.
    fn to_pretty_string(&self) -> (r: String)
        ensures
            exists|d: Doc| self.renders_as(d) && r@ == pretty(d, DEFAULT_WIDTH, 0),
    {
        let doc = self.render();
        pretty_string(&doc, DEFAULT_WIDTH)
    }

    /// This value printed at `width`.
    fn pretty_print(&self, width: usize) -> (r: String)
        ensures
            exists|d: Doc| self.renders_as(d) && r@ == pretty(d, width, 0),
    {
        let doc = self.render();
        pretty_string(&doc, width)
    }
}

/// The layout of a container: `open`, the items on one line, `close`; or,
/// where that does not fit, each item on a line of its own, indented by 4.
pub open spec fn bracketed_doc(single: Doc, multi: Doc, open: char, close: char) -> Doc {
    choice_doc(
        concat_doc(concat_doc(char_doc(open), single), char_doc(close)),
        concat_doc(
            concat_doc(
                concat_doc(char_doc(open), indent_doc(4, concat_doc(Doc::Newline, multi))),
                Doc::Newline,
            ),
            char_doc(close),
        ),
    )
}

/// The items one after the other with `sep` between each two; an empty item
/// adds nothing, nor a separator before it while nothing precedes it.
pub open spec fn joined(items: Seq<Doc>, sep: Doc) -> Doc
    decreases items.len(),
{
    if items.len() == 0 {
        Doc::Empty
    } else {
        let acc = joined(items.drop_last(), sep);
        if acc is Empty {
            items.last()
        } else {
            concat_doc(concat_doc(acc, sep), items.last())
        }
    }
}

/// `", "`.
pub open spec fn comma_space_doc() -> Doc {
    Doc::Concat(Box::new(Doc::Char(',', 1)), Box::new(Doc::Char(' ', 1)))
}

/// `','` and a line break.
pub open spec fn comma_break_doc() -> Doc {
    Doc::Concat(Box::new(Doc::Char(',', 1)), Box::new(Doc::Newline))
}

/// The layout of a container of `items` between `open` and `close`: on one
/// line separated by `", "`, or one item per line, each but the last followed
/// by a comma.
pub open spec fn list_layout(items: Seq<Doc>, open: char, close: char) -> Doc {
    bracketed_doc(joined(items, comma_space_doc()), joined(items, comma_break_doc()), open, close)
}

/// The single-line and the multi-line form of a container's items, put
/// between `open` and `close`.
pub fn bracketed(single: Document, multi: Document, open: char, close: char) -> (r: Document)
    ensures
        r@ == bracketed_doc(single@, multi@, open, close),
{
    let single_line = concat(concat(character(open), single), character(close));
    let multi_line = concat(
        concat(concat(character(open), indent(4, concat(nl(), multi))), nl()),
        character(close),
    );
    choice(single_line, multi_line)
}

/// `acc` followed by `item`, with `sep` between them unless `acc` is empty.
fn append_item(acc: Document, sep: Document, item: Document) -> (r: Document)
    ensures
        r@ == if acc@ is Empty {
            item@
        } else {
            concat_doc(concat_doc(acc@, sep@), item@)
        },
{
    if acc.is_empty() {
        item
    } else {
        concat(concat(acc, sep), item)
    }
}

fn comma_space() -> (r: Document)
    ensures
        r@ == comma_space_doc(),
{
    concat(character(','), character(' '))
}

fn comma_break() -> (r: Document)
    ensures
        r@ == comma_break_doc(),
{
    concat(character(','), nl())
}

/// A copy of `d` that shares nothing with it.
fn copy_doc(d: &Document) -> (r: Document)
    ensures
        r@ == d@,
    decreases d,
{
    match d {
        Document::Empty => Document::Empty,
        Document::Newline => Document::Newline,
        Document::Char(c, w) => Document::Char(*c, *w),
        Document::Text(t, w) => Document::Text(t.clone(), *w),
        Document::Flatten(x) => Document::Flatten(Rc::new(copy_doc(&**x))),
        Document::Indent(n, x) => Document::Indent(*n, Rc::new(copy_doc(&**x))),
        Document::Concat(a, b) => Document::Concat(Rc::new(copy_doc(&**a)), Rc::new(copy_doc(&**b))),
        Document::Choice(a, b) => Document::Choice(Rc::new(copy_doc(&**a)), Rc::new(copy_doc(&**b))),
    }
}

/// The views of some documents.
pub open spec fn views(items: Seq<Document>) -> Seq<Doc> {
    items.map_values(|d: Document| d@)
}

/// The layout of a container of `items` between `open` and `close`: on one line as `open a, b, c close`, or,
/// where that does not fit, one item per line at 4 more columns of
/// indentation, each but the last followed by a comma, with `open` and
/// `close` on lines of their own.
pub fn list_doc(items: Vec<Document>, open: char, close: char) -> (r: Document)
    ensures
        r@ == list_layout(views(items@), open, close),
{
    let ghost vs = views(items@);
    let mut single = Document::Empty;
    let mut multi = Document::Empty;
    let mut i: usize = 0;
    assert(vs.take(0) =~= Seq::<Doc>::empty());
    while i < items.len()
        invariant
            i <= items.len(),
            vs == views(items@),
            single@ == joined(vs.take(i as int), comma_space_doc()),
            multi@ == joined(vs.take(i as int), comma_break_doc()),
        decreases items.len() - i,
    {
        proof {
            assert(vs.take(i + 1).drop_last() =~= vs.take(i as int));
            assert(vs.take(i + 1).last() == items@[i as int]@);
        }
        single = append_item(single, comma_space(), copy_doc(&items[i]));
        multi = append_item(multi, comma_break(), copy_doc(&items[i]));
        i = i + 1;
    }
    assert(vs.take(items.len() as int) =~= vs);
    bracketed(single, multi, open, close)
}

impl<'a, T: ?Sized + PrettyPrint> PrettyPrint for &'a T {
    open spec fn renders_as(&self, d: Doc) -> bool {
        (**self).renders_as(d)
    }

    fn render(&self) -> (r: Document) {
        (**self).render()
    }
}

impl PrettyPrint for str {
    open spec fn renders_as(&self, d: Doc) -> bool {
        d == join_lines(lines_of(self@))
    }

    fn render(&self) -> (r: Document) {
        split(self)
    }
}

impl PrettyPrint for String {
    open spec fn renders_as(&self, d: Doc) -> bool {
        d == join_lines(lines_of(self@))
    }

    fn render(&self) -> (r: Document) {
        split(self.as_str())
    }
}

impl<T: PrettyPrint> PrettyPrint for Box<T> {
    open spec fn renders_as(&self, d: Doc) -> bool {
        (**self).renders_as(d)
    }

    fn render(&self) -> (r: Document) {
        (**self).render()
    }
}

impl<T: PrettyPrint> PrettyPrint for Rc<T> {
    open spec fn renders_as(&self, d: Doc) -> bool {
        (**self).renders_as(d)
    }

    fn render(&self) -> (r: Document) {
        (**self).render()
    }
}

impl<T: PrettyPrint> PrettyPrint for Arc<T> {
    open spec fn renders_as(&self, d: Doc) -> bool {
        (**self).renders_as(d)
    }

    fn render(&self) -> (r: Document) {
        (**self).render()
    }
}

impl<T: PrettyPrint> PrettyPrint for Vec<T> {
    open spec fn renders_as(&self, d: Doc) -> bool {
        exists|items: Seq<Doc>|
            {
                &&& items.len() == self@.len()
                &&& forall|k: int| 0 <= k < items.len() ==> #[trigger] self@[k].renders_as(items[k])
                &&& d == list_layout(items, '[', ']')
            }
    }

    fn render(&self) -> (r: Document) {
        let mut docs: Vec<Document> = Vec::new();
        let mut i: usize = 0;
        while i < self.len()
            invariant
                i <= self.len(),
                docs@.len() == i,
                forall|k: int| 0 <= k < i ==> #[trigger] self@[k].renders_as(docs@[k]@),
            decreases self.len() - i,
        {
            let d = self[i].render();
            docs.push(d);
            i = i + 1;
        }
        let ghost items = views(docs@);
        let r = list_doc(docs, '[', ']');
        assert(forall|k: int| 0 <= k < items.len() ==> #[trigger] self@[k].renders_as(items[k]));
        r
    }
}

impl<T: PrettyPrint> PrettyPrint for BTreeSet<T> {
    open spec fn renders_as(&self, d: Doc) -> bool {
        exists|elems: Seq<T>, items: Seq<Doc>|
            {
                &&& elems.len() == spec_btree_set_len(self)
                &&& items.len() == elems.len()
                &&& forall|k: int|
                    0 <= k < items.len() ==> self@.contains(#[trigger] elems[k])
                        && elems[k].renders_as(items[k])
                &&& d == list_layout(items, '{', '}')
            }
    }

    fn render(&self) -> (r: Document) {
        let elems = set_elements(self);
        let mut docs: Vec<Document> = Vec::new();
        let mut i: usize = 0;
        while i < elems.len()
            invariant
                i <= elems.len(),
                docs@.len() == i,
                forall|k: int| 0 <= k < i ==> (*#[trigger] elems@[k]).renders_as(docs@[k]@),
            decreases elems.len() - i,
        {
            let d = elems[i].render();
            docs.push(d);
            i = i + 1;
        }
        let ghost items = views(docs@);
        let ghost es = elems@.map_values(|e: &T| *e);
        let r = list_doc(docs, '{', '}');
        assert(forall|k: int|
            0 <= k < items.len() ==> self@.contains(#[trigger] es[k]) && es[k].renders_as(items[k]))
            by {
            assert forall|k: int| 0 <= k < items.len() implies self@.contains(#[trigger] es[k])
                && es[k].renders_as(items[k]) by {
                assert(es[k] == *elems@[k]);
            }
        }
        assert(es.len() == spec_btree_set_len(self));
        assert(items.len() == es.len());
        assert({
            &&& es.len() == spec_btree_set_len(self)
            &&& items.len() == es.len()
            &&& forall|k: int|
                0 <= k < items.len() ==> self@.contains(#[trigger] es[k]) && es[k].renders_as(
                    items[k],
                )
            &&& r@ == list_layout(items, '{', '}')
        });
        r
    }
}

impl<K: PrettyPrint, V: PrettyPrint> PrettyPrint for BTreeMap<K, V> {
    open spec fn renders_as(&self, d: Doc) -> bool {
        exists|keys: Seq<K>, keydocs: Seq<Doc>, valdocs: Seq<Doc>|
            {
                &&& keys.len() == spec_btree_map_len(self)
                &&& keydocs.len() == keys.len()
                &&& valdocs.len() == keys.len()
                &&& forall|k: int|
                    0 <= k < keys.len() ==> self@.contains_key(#[trigger] keys[k])
                        && keys[k].renders_as(keydocs[k]) && self@[keys[k]].renders_as(valdocs[k])
                &&& d == list_layout(
                    Seq::new(keys.len(), |k: int| entry_doc(keydocs[k], valdocs[k])),
                    '{',
                    '}',
                )
            }
    }

    fn render(&self) -> (r: Document) {
        let entries = map_entries(self);
        let mut docs: Vec<Document> = Vec::new();
        let ghost mut keydocs: Seq<Doc> = Seq::empty();
        let ghost mut valdocs: Seq<Doc> = Seq::empty();
        let mut i: usize = 0;
        while i < entries.len()
            invariant
                i <= entries.len(),
                docs@.len() == i,
                keydocs.len() == i,
                valdocs.len() == i,
                forall|k: int|
                    0 <= k < i ==> (*(#[trigger] entries@[k]).0).renders_as(keydocs[k]) && (
                    *entries@[k].1).renders_as(valdocs[k]) && docs@[k]@ == entry_doc(
                        keydocs[k],
                        valdocs[k],
                    ),
            decreases entries.len() - i,
        {
            let (key, value) = entries[i];
            let kd = key.render();
            let vd = value.render();
            let ghost kv = kd@;
            let ghost vv = vd@;
            let arrow = super::document::text(" => ");
            proof {
                reveal_strlit(" => ");
                assert(" => "@ =~= seq![' ', '=', '>', ' ']);
            }
            let d = concat(concat(kd, arrow), vd);
            docs.push(d);
            proof {
                keydocs = keydocs.push(kv);
                valdocs = valdocs.push(vv);
            }
            i = i + 1;
        }
        let ghost items = views(docs@);
        let ghost keys = entries@.map_values(|e: (&K, &V)| *e.0);
        let r = list_doc(docs, '{', '}');
        proof {
            assert forall|k: int| 0 <= k < items.len() implies items[k] == entry_doc(
                keydocs[k],
                valdocs[k],
            ) by {
                let e = entries@[k];
                assert((*e.0).renders_as(keydocs[k]));
            }
            assert(items =~= Seq::new(keys.len(), |k: int| entry_doc(keydocs[k], valdocs[k])));
            assert forall|k: int| 0 <= k < keys.len() implies self@.contains_key(
                #[trigger] keys[k],
            ) && keys[k].renders_as(keydocs[k]) && self@[keys[k]].renders_as(valdocs[k]) by {
                assert(keys[k] == *entries@[k].0);
            }
            assert({
                &&& keys.len() == spec_btree_map_len(self)
                &&& keydocs.len() == keys.len()
                &&& valdocs.len() == keys.len()
                &&& forall|k: int|
                    0 <= k < keys.len() ==> self@.contains_key(#[trigger] keys[k])
                        && keys[k].renders_as(keydocs[k]) && self@[keys[k]].renders_as(valdocs[k])
                &&& r@ == list_layout(
                    Seq::new(keys.len(), |k: int| entry_doc(keydocs[k], valdocs[k])),
                    '{',
                    '}',
                )
            });
        }
        r
    }
}

impl PrettyPrint for bool {
    open spec fn renders_as(&self, d: Doc) -> bool {
        displays_as(self, d)
    }

    fn render(&self) -> (r: Document) {
        display(self)
    }
}

impl PrettyPrint for u8 {
    open spec fn renders_as(&self, d: Doc) -> bool {
        displays_as(self, d)
    }

    fn render(&self) -> (r: Document) {
        display(self)
    }
}

impl PrettyPrint for i8 {
    open spec fn renders_as(&self, d: Doc) -> bool {
        displays_as(self, d)
    }

    fn render(&self) -> (r: Document) {
        display(self)
    }
}

impl PrettyPrint for u16 {
    open spec fn renders_as(&self, d: Doc) -> bool {
        displays_as(self, d)
    }

    fn render(&self) -> (r: Document) {
        display(self)
    }
}

impl PrettyPrint for i16 {
    open spec fn renders_as(&self, d: Doc) -> bool {
        displays_as(self, d)
    }

    fn render(&self) -> (r: Document) {
        display(self)
    }
}

impl PrettyPrint for u32 {
    open spec fn renders_as(&self, d: Doc) -> bool {
        displays_as(self, d)
    }

    fn render(&self) -> (r: Document) {
        display(self)
    }
}

impl PrettyPrint for i32 {
    open spec fn renders_as(&self, d: Doc) -> bool {
        displays_as(self, d)
    }

    fn render(&self) -> (r: Document) {
        display(self)
    }
}

impl PrettyPrint for u64 {
    open spec fn renders_as(&self, d: Doc) -> bool {
        displays_as(self, d)
    }

    fn render(&self) -> (r: Document) {
        display(self)
    }
}

impl PrettyPrint for i64 {
    open spec fn renders_as(&self, d: Doc) -> bool {
        displays_as(self, d)
    }

    fn render(&self) -> (r: Document) {
        display(self)
    }
}

impl PrettyPrint for u128 {
    open spec fn renders_as(&self, d: Doc) -> bool {
        displays_as(self, d)
    }

    fn render(&self) -> (r: Document) {
        display(self)
    }
}

impl PrettyPrint for i128 {
    open spec fn renders_as(&self, d: Doc) -> bool {
        displays_as(self, d)
    }

    fn render(&self) -> (r: Document) {
        display(self)
    }
}

impl PrettyPrint for usize {
    open spec fn renders_as(&self, d: Doc) -> bool {
        displays_as(self, d)
    }

    fn render(&self) -> (r: Document) {
        display(self)
    }
}

impl PrettyPrint for isize {
    open spec fn renders_as(&self, d: Doc) -> bool {
        displays_as(self, d)
    }

    fn render(&self) -> (r: Document) {
        display(self)
    }
}

} // verus!
