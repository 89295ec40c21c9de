//! Formatting of bytes as hexadecimal digits.
use vstd::prelude::*;

use crate::prettier::{text, text_doc, Doc, Document, PrettyPrint};

verus! {

/// The lowercase hexadecimal digit for `n`, which is below 16.
pub open spec fn hex_digit(n: u8) -> char {
    seq!['0', '1', '2', '3', '4', '5', '6', '7', '8', '9', 'a', 'b', 'c', 'd', 'e', 'f'][n as int]
}

/// Two lowercase hexadecimal digits for each byte, high digit first.
pub open spec fn hex_of(b: Seq<u8>) -> Seq<char>
    decreases b.len(),
{
    if b.len() == 0 {
        Seq::empty()
    } else {
        hex_of(b.drop_last()) + seq![hex_digit(b.last() / 16), hex_digit(b.last() % 16)]
    }
}

/// `hex_of(b)`, after `"0x"` if `prefix` holds.
pub open spec fn hex_text(b: Seq<u8>, prefix: bool) -> Seq<char> {
    if prefix {
        seq!['0', 'x'] + hex_of(b)
    } else {
        hex_of(b)
    }
}

fn digit(n: u8) -> (c: char)
    requires
        n < 16,
    ensures
        c == hex_digit(n),
{
    let digits: [char; 16] = [
        '0', '1', '2', '3', '4', '5', '6', '7', '8', '9', 'a', 'b', 'c', 'd', 'e', 'f',
    ];
    assert(digits@ =~= seq![
        '0', '1', '2', '3', '4', '5', '6', '7', '8', '9', 'a', 'b', 'c', 'd', 'e', 'f'
    ]);
    digits[n as usize]
}

/// The hexadecimal digits of `bytes`, after `"0x"` if `prefix` holds.
pub fn hex_string(bytes: &[u8], prefix: bool) -> (r: String)
    ensures
        r@ == hex_text(bytes@, prefix),
{
    let mut r = String::new();
    if prefix {
        r.append("0x");
        proof {
            reveal_strlit("0x");
        }
    }
    let ghost start = r@;
    let mut i: usize = 0;
    while i < bytes.len()
        invariant
            i <= bytes@.len(),
            start == if prefix {
                seq!['0', 'x']
            } else {
                Seq::<char>::empty()
            },
            r@ == start + hex_of(bytes@.subrange(0, i as int)),
        decreases bytes@.len() - i,
    {
        let b = bytes[i];
        crate::prettier::push_char(&mut r, digit(b / 16));
        crate::prettier::push_char(&mut r, digit(b % 16));
        proof {
            let p = bytes@.subrange(0, i + 1);
            assert(p.drop_last() =~= bytes@.subrange(0, i as int));
        }
        i = i + 1;
        assert(r@ =~= start + hex_of(bytes@.subrange(0, i as int)));
    }
    assert(bytes@.subrange(0, bytes@.len() as int) =~= bytes@);
    assert(r@ =~= hex_text(bytes@, prefix));
    r
}

/// A value whose bytes can be written as hexadecimal digits.
pub trait ToHex: View<V = Seq<u8>> {
    /// The digits, without a prefix.
    fn to_hex(&self) -> (r: String)
        ensures
            r@ == hex_of(self@),
    ;

    /// The digits after `"0x"`.
    fn to_hex_with_prefix(&self) -> (r: String)
        ensures
            r@ == seq!['0', 'x'] + hex_of(self@),
    ;
}

impl ToHex for [u8] {
    fn to_hex(&self) -> (r: String) {
        hex_string(self, false)
    }

    fn to_hex_with_prefix(&self) -> (r: String) {
        hex_string(self, true)
    }
}

/// The hexadecimal digits of `bytes`.
pub fn to_hex(bytes: &[u8]) -> (r: String)
    ensures
        r@ == hex_of(bytes@),
{
    hex_string(bytes, false)
}

/// A view of bytes that prints them as hexadecimal digits.
pub struct DisplayHex<'a>(pub &'a [u8]);

impl<'a> View for DisplayHex<'a> {
    type V = Seq<u8>;

    open spec fn view(&self) -> Seq<u8> {
        self.0@
    }
}

impl<'a> DisplayHex<'a> {
    /// Shows the bytes of `item` as hexadecimal digits.
    pub fn new(item: &'a [u8]) -> (r: Self)
        ensures
            r@ == item@,
    {
        DisplayHex(item)
    }
}

impl<'a> ToHex for DisplayHex<'a> {
    fn to_hex(&self) -> (r: String) {
        hex_string(self.0, false)
    }

    fn to_hex_with_prefix(&self) -> (r: String) {
        hex_string(self.0, true)
    }
}

impl<'a> PrettyPrint for DisplayHex<'a> {
    open spec fn renders_as(&self, d: Doc) -> bool {
        d == text_doc(hex_text(self@, true))
    }

    fn render(&self) -> (r: Document) {
        let digits = hex_string(self.0, true);
        text(digits.as_str())
    }
}

} // verus!
