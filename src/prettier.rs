//! Documents describing alternative layouts, and the printer that resolves
//! them against a target width.
mod document;
mod laws;
mod print;
mod render;
mod width;

pub use self::document::{
    ascii_doc, char_cols, char_doc, character, character_of, choice, choice_doc, concat, concat_doc,
    concat_of, const_text,
    display, flatten, flatten_doc, indent, indent_doc, join_lines, lines_of, nl, no_breaks, printable,
    segments, split, strip_cr, text, text_cols, text_doc, Doc, Document,
};
pub use self::laws::{
    choice_free, lemma_break_indents, lemma_choice_after_char, lemma_choice_after_text, lemma_choice_by_width,
    lemma_choice_flattened, lemma_empty_identity, lemma_fits_is_line_width,
    lemma_flags_irrelevant, lemma_flatten_choice_free, lemma_flatten_keeps_breaks,
    lemma_indent_after_break, lemma_indent_first_line, lemma_indent_scope, lemma_indents_add,
    lemma_print_deterministic, line_width, same_but_flat,
};
pub use self::print::{pretty, pretty_print, Frame};
pub(crate) use self::print::push_char;
pub use self::render::{
    bracketed, bracketed_doc, comma_break_doc, comma_space_doc, displays_as, joined, list_doc,
    list_layout, pretty_string, views, PrettyPrint, DEFAULT_WIDTH,
};
