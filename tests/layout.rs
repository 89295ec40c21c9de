use std::fmt;

use formatting::prettier::{
    character, choice, const_text, display, flatten, indent, nl, pretty_string, split,
    text, Document, PrettyPrint,
};

fn cat(a: Document, b: Document) -> Document {
    formatting::prettier::concat(a, b)
}

fn s(t: &'static str) -> Document {
    const_text(t)
}

fn c(ch: char) -> Document {
    character(ch)
}

pub struct Function {
    pub name: Ident,
    pub args: Vec<TypedIdent>,
    pub ret: Option<Type>,
    pub body: Block,
}

impl PrettyPrint for Function {
    fn render(&self) -> Document {
        let mut singleline_params = Document::Empty;
        for ti in self.args.iter() {
            singleline_params = if singleline_params.is_empty() {
                ti.render()
            } else {
                cat(cat(singleline_params, s(", ")), ti.render())
            };
        }
        let mut multiline_params = Document::Empty;
        for ti in self.args.iter() {
            multiline_params = if multiline_params.is_empty() {
                ti.render()
            } else {
                cat(cat(cat(multiline_params, c(',')), nl()), ti.render())
            };
        }
        let params = choice(
            cat(cat(c('('), singleline_params), c(')')),
            cat(cat(indent(4, cat(cat(c('('), nl()), multiline_params)), nl()), c(')')),
        );
        let return_ty = match self.ret {
            Some(ty) => cat(s(" -> "), display(&ty)),
            None => Document::Empty,
        };
        cat(
            cat(cat(cat(cat(s("fn "), text(self.name.as_str())), params), return_ty), s(" = ")),
            self.body.render(),
        )
    }
}

pub struct Block {
    pub body: Expr,
}

impl PrettyPrint for Block {
    fn render(&self) -> Document {
        if self.body.is_block_like() {
            cat(cat(indent(4, cat(cat(c('{'), nl()), self.body.render())), nl()), c('}'))
        } else {
            let body = self.body.render();
            let single_line = body.clone();
            let multi_line = cat(cat(indent(4, cat(cat(c('{'), nl()), body)), nl()), c('}'));
            choice(single_line, multi_line)
        }
    }
}

pub enum Expr {
    Var(Ident),
    Num(i64),
    Let(Box<LetExpr>),
    Binary(BinaryExpr),
}

impl Expr {
    pub fn is_block_like(&self) -> bool {
        match self {
            Self::Let(_) => true,
            Self::Binary(expr) => expr.lhs.is_block_like() || expr.rhs.is_block_like(),
            Self::Var(_) | Self::Num(_) => false,
        }
    }
}

impl PrettyPrint for Expr {
    fn render(&self) -> Document {
        match self {
            Self::Var(id) => id.render(),
            Self::Num(n) => display(n),
            Self::Let(expr) => expr.render(),
            Self::Binary(expr) => expr.render(),
        }
    }
}

pub struct LetExpr {
    pub bound: Ident,
    pub expr: Expr,
    pub body: Block,
}

impl PrettyPrint for LetExpr {
    fn render(&self) -> Document {
        let decl = flatten(cat(cat(cat(s("let "), self.bound.render()), c(' ')), c('=')));
        let expr = self.expr.render();
        let sl_expr = cat(c(' '), expr.clone());
        let ml_expr = cat(indent(4, cat(nl(), expr.clone())), nl());
        let expr = choice(sl_expr, ml_expr);
        let body = self.body.render();
        let sl_body = cat(s(" in "), body.clone());
        let ml_body = indent(4, cat(s("in "), body));
        let body = choice(sl_body, ml_body);
        cat(cat(decl, expr), body)
    }
}

pub struct BinaryExpr {
    pub op: BinaryOp,
    pub lhs: Box<Expr>,
    pub rhs: Box<Expr>,
}

impl PrettyPrint for BinaryExpr {
    fn render(&self) -> Document {
        cat(cat(cat(cat(self.lhs.render(), c(' ')), self.op.render()), c(' ')), self.rhs.render())
    }
}

#[derive(Debug, Copy, Clone)]
pub enum BinaryOp {
    Add,
    Mul,
}

impl PrettyPrint for BinaryOp {
    fn render(&self) -> Document {
        match self {
            Self::Add => character('+'),
            Self::Mul => character('*'),
        }
    }
}

#[derive(Debug, Copy, Clone)]
pub enum Type {
    Number,
}

impl fmt::Display for Type {
    fn fmt(&self, f: &mut fmt::Formatter) -> fmt::Result {
        match self {
            Self::Number => f.write_str("number"),
        }
    }
}

#[derive(Debug, Clone)]
pub struct Ident(String);

impl Ident {
    pub fn new(s: &str) -> Self {
        Self(s.to_string())
    }

    pub fn as_str(&self) -> &str {
        self.0.as_str()
    }
}

impl fmt::Display for Ident {
    fn fmt(&self, f: &mut fmt::Formatter) -> fmt::Result {
        f.write_str(self.0.as_str())
    }
}

impl PrettyPrint for Ident {
    fn render(&self) -> Document {
        display(self)
    }
}

#[derive(Debug, Clone)]
pub struct TypedIdent {
    pub id: Ident,
    pub ty: Type,
}

impl PrettyPrint for TypedIdent {
    fn render(&self) -> Document {
        cat(cat(self.id.render(), s(": ")), display(&self.ty))
    }
}

fn var(name: &str) -> Expr {
    Expr::Var(Ident::new(name))
}

fn bin(op: BinaryOp, lhs: Expr, rhs: Expr) -> Expr {
    Expr::Binary(BinaryExpr { op, lhs: Box::new(lhs), rhs: Box::new(rhs) })
}

#[test]
fn integration_test() {
    let body = Expr::Let(Box::new(LetExpr {
        bound: Ident::new("c"),
        expr: bin(BinaryOp::Mul, var("a"), var("b")),
        body: Block { body: bin(BinaryOp::Add, var("c"), Expr::Num(1)) },
    }));
    let ast = Function {
        name: Ident::new("square_plus_1"),
        args: vec![
            TypedIdent { id: Ident::new("a"), ty: Type::Number },
            TypedIdent { id: Ident::new("b"), ty: Type::Number },
        ],
        ret: Some(Type::Number),
        body: Block { body },
    };
    let expected = "\
fn square_plus_1(a: number, b: number) -> number = {
    let c = a * b in c + 1
}";
    let actual = ast.to_pretty_string();
    assert_eq!(actual, expected);
}

fn render_at(doc: &Document, width: usize) -> String {
    pretty_string(doc, width)
}

#[test]
fn empty_is_identity_for_every_combinator() {
    for width in [0usize, 1, 2, 80] {
        let x = text("x");
        let plain = render_at(&x, width);
        assert_eq!(render_at(&cat(Document::Empty, text("x")), width), plain);
        assert_eq!(render_at(&cat(text("x"), Document::Empty), width), plain);
        assert_eq!(render_at(&choice(Document::Empty, text("x")), width), plain);
        assert_eq!(render_at(&choice(text("x"), Document::Empty), width), plain);
        assert_eq!(render_at(&indent(3, Document::Empty), width), "");
        assert_eq!(render_at(&flatten(Document::Empty), width), "");
    }
    assert!(indent(3, Document::Empty).is_empty());
    assert!(flatten(Document::Empty).is_empty());
    assert!(matches!(cat(Document::Empty, text("xy")), Document::Text(_, 2)));
}

#[test]
fn choice_follows_width() {
    let doc = choice(text("ab"), cat(nl(), text("ab")));
    assert_eq!(render_at(&doc, 2), "ab");
    assert_eq!(render_at(&doc, 1), "\nab");
    assert_eq!(render_at(&doc, 0), "\nab");
}

#[test]
fn choice_inside_flatten_takes_primary() {
    let doc = flatten(choice(text("abcdef"), text("x")));
    assert_eq!(render_at(&doc, 0), "abcdef");
    assert_eq!(render_at(&doc, 3), "abcdef");
}

#[test]
fn choice_counts_what_follows_on_the_line() {
    let doc = cat(choice(text("ab"), text("a")), text("cd"));
    assert_eq!(render_at(&doc, 4), "abcd");
    assert_eq!(render_at(&doc, 3), "acd");
    let broken = cat(cat(choice(text("ab"), text("a")), nl()), text("cdefgh"));
    assert_eq!(render_at(&broken, 2), "ab\ncdefgh");
}

#[test]
fn choice_starting_mid_line() {
    let doc = choice(text("ab"), text("z"));
    let mut out = String::new();
    formatting::prettier::pretty_print(&doc, 4, 2, &mut out);
    assert_eq!(out, "ab");
    let mut out = String::from("xyz");
    formatting::prettier::pretty_print(&doc, 4, 3, &mut out);
    assert_eq!(out, "xyzz");
}

#[test]
fn indentation_follows_line_breaks() {
    let doc = indent(4, cat(nl(), text("y")));
    assert_eq!(render_at(&doc, 80), "\n    y");
    let nested = indent(2, cat(text("a"), indent(2, cat(nl(), text("b")))));
    assert_eq!(render_at(&nested, 80), "a\n    b");
    let first = indent(8, text("top"));
    assert_eq!(render_at(&first, 80), "top");
}

#[test]
fn flatten_keeps_hard_breaks() {
    let doc = flatten(cat(nl(), text("z")));
    assert_eq!(render_at(&doc, 80), "\nz");
}

#[test]
fn printing_twice_gives_the_same_text() {
    let doc = cat(choice(text("hello"), cat(nl(), text("hello"))), text(" world"));
    for width in [0usize, 5, 11, 80] {
        assert_eq!(render_at(&doc, width), render_at(&doc, width));
    }
}

#[test]
fn vector_of_three_on_one_line_or_many() {
    let v = vec!["a".to_string(), "b".to_string(), "c".to_string()];
    assert_eq!(v.to_pretty_string(), "[a, b, c]");
    assert_eq!(v.pretty_print(9), "[a, b, c]");
    assert_eq!(v.pretty_print(8), "[\n    a,\n    b,\n    c\n]");
    let n: Vec<u32> = vec![1, 22, 333];
    assert_eq!(n.to_pretty_string(), "[1, 22, 333]");
    let none: Vec<u8> = Vec::new();
    assert_eq!(none.to_pretty_string(), "[]");
}

#[test]
fn scalars_render_as_their_text() {
    assert_eq!(true.to_pretty_string(), "true");
    assert_eq!((-42i64).to_pretty_string(), "-42");
    assert_eq!(7usize.to_pretty_string(), "7");
    assert_eq!(Box::new(5u8).to_pretty_string(), "5");
    assert_eq!(std::rc::Rc::new(6u16).to_pretty_string(), "6");
    assert_eq!(std::sync::Arc::new(7i32).to_pretty_string(), "7");
    assert_eq!((&8u64).to_pretty_string(), "8");
}

#[test]
fn constructors_normalise() {
    assert!(matches!(character('\n'), Document::Newline));
    assert!(matches!(character('a'), Document::Char('a', 1)));
    assert!(matches!(character('\u{1}'), Document::Char('\u{1}', 0)));
    assert!(matches!(character('日'), Document::Char('日', 2)));
    assert!(text("").is_empty());
    assert!(matches!(text("q"), Document::Char('q', 1)));
    assert!(matches!(text("\n"), Document::Newline));
    match text("日本語") {
        Document::Text(t, w) => {
            assert_eq!(t, "日本語");
            assert_eq!(w, 6);
        },
        other => panic!("unexpected {:?}", other),
    }
    assert!(matches!(const_text("abc"), Document::Text(_, 3)));
    assert!(matches!(nl(), Document::Newline));
}

#[test]
fn wide_text_counts_columns_not_characters() {
    let doc = choice(text("日本"), text("x"));
    assert_eq!(render_at(&doc, 4), "日本");
    assert_eq!(render_at(&doc, 3), "x");
}

#[test]
fn leading_newline() {
    assert!(nl().has_leading_newline());
    assert!(!Document::Empty.has_leading_newline());
    assert!(!text("ab").has_leading_newline());
    assert!(cat(nl(), text("ab")).has_leading_newline());
    assert!(indent(2, cat(nl(), text("ab"))).has_leading_newline());
    assert!(flatten(cat(nl(), text("ab"))).has_leading_newline());
    assert!(!choice(cat(nl(), text("a")), nl()).has_leading_newline());
    assert!(Document::Char('\r', 0).has_leading_newline());
    assert!(Document::Text("\rx".to_string(), 1).has_leading_newline());
    let shared = std::rc::Rc::new(Document::Empty);
    let odd = Document::Concat(shared, std::rc::Rc::new(nl()));
    assert!(odd.has_leading_newline());
}

#[test]
fn split_joins_lines_with_breaks() {
    assert!(split("").is_empty());
    assert_eq!(render_at(&split("one"), 80), "one");
    assert_eq!(render_at(&split("a\nbc"), 80), "a\nbc");
    assert_eq!(render_at(&split("a\r\nbc\n"), 80), "a\nbc");
    assert_eq!(render_at(&split("a\n\nb"), 80), "a\n\nb");
    assert_eq!(render_at(&indent(2, split("x\ny")), 80), "x\n  y");
    assert_eq!("p\nq".to_pretty_string(), "p\nq");
    assert_eq!(String::from("p\nq").to_pretty_string(), "p\nq");
}

#[test]
fn display_uses_the_display_text() {
    assert!(matches!(display(&5u8), Document::Char('5', 1)));
    assert!(matches!(display(&123u32), Document::Text(_, 3)));
    assert_eq!(render_at(&display("hi there"), 80), "hi there");
}

#[test]
fn zero_width_terminates_and_breaks() {
    let doc = cat(text("abc"), choice(text(" d"), cat(nl(), text("d"))));
    assert_eq!(render_at(&doc, 0), "abc\nd");
    assert_eq!(render_at(&doc, 5), "abc d");
}

#[test]
fn operators_build_the_same_documents() {
    let doc = (text("ab") | (nl() + text("ab"))) + text("cd");
    assert_eq!(render_at(&doc, 4), "abcd");
    assert_eq!(render_at(&doc, 3), "\nabcd");
    let with_chars = '(' + text("x") + ')';
    assert_eq!(render_at(&with_chars, 80), "(x)");
    let mut acc = Document::Empty;
    acc += text("a");
    acc += ',';
    acc += text("b");
    assert_eq!(render_at(&acc, 80), "a,b");
    assert!((Document::Empty | text("y")).has_leading_newline() == false);
    assert!(matches!(Document::from('z'), Document::Char('z', 1)));
    assert!(matches!(Document::from('\n'), Document::Newline));
    assert!(matches!(Document::from(String::from("hey")), Document::Text(_, 3)));
    assert!(Document::from(String::new()).is_empty());
}

#[test]
fn list_doc_lays_out_items() {
    let items = vec![text("a"), text("b"), text("c")];
    let doc = formatting::prettier::list_doc(items, '{', '}');
    assert_eq!(render_at(&doc, 9), "{a, b, c}");
    assert_eq!(render_at(&doc, 8), "{\n    a,\n    b,\n    c\n}");
    let empty = formatting::prettier::list_doc(Vec::new(), '[', ']');
    assert_eq!(render_at(&empty, 80), "[]");
    let skipped = formatting::prettier::list_doc(vec![Document::Empty, text("q")], '[', ']');
    assert_eq!(render_at(&skipped, 80), "[q]");
}

#[test]
fn references_render_like_values() {
    let v = vec![1u8, 2];
    assert_eq!((&v).to_pretty_string(), v.to_pretty_string());
    assert_eq!((&&"a\nb").to_pretty_string(), "a\nb");
}

#[test]
fn split_drops_carriage_returns() {
    assert!(split("\r").is_empty());
    assert_eq!(render_at(&split("a\rb"), 80), "ab");
    assert!(matches!(split("a\rb"), Document::Text(_, 2)));
    assert_eq!(render_at(&split("x\r\n\ry\n\r"), 80), "x\ny");
}

#[test]
fn add_assign_matches_add() {
    let mut a = text("ab");
    a += Document::Empty;
    assert!(matches!(a, Document::Text(_, 2)));
    let mut b = Document::Empty;
    b += text("cd");
    assert!(matches!(b, Document::Text(_, 2)));
    let mut c = text("ab");
    c += '!';
    assert_eq!(render_at(&c, 80), "ab!");
    assert_eq!(render_at(&(text("ab") + '!'), 80), "ab!");
}

#[test]
fn sets_and_maps_render_in_braces() {
    let set: std::collections::BTreeSet<u32> = [3u32, 1, 2].into_iter().collect();
    assert_eq!(set.to_pretty_string(), "{1, 2, 3}");
    assert_eq!(set.pretty_print(8), "{\n    1,\n    2,\n    3\n}");
    let mut map = std::collections::BTreeMap::new();
    map.insert(1u8, "one".to_string());
    map.insert(2u8, "two".to_string());
    assert_eq!(map.to_pretty_string(), "{1 => one, 2 => two}");
    assert_eq!(map.pretty_print(10), "{\n    1 => one,\n    2 => two\n}");
    let none: std::collections::BTreeMap<u8, u8> = std::collections::BTreeMap::new();
    assert_eq!(none.to_pretty_string(), "{}");
}

#[test]
fn brackets_of_any_width() {
    let doc = formatting::prettier::list_doc(vec![text("a")], '「', '」');
    assert_eq!(render_at(&doc, 80), "「a」");
}
