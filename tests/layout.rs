use wbproto_beautifier::beautifier::{format_comment, format_node};
use wbproto_beautifier::beautify;
use wbproto_beautifier::emit::State;
use wbproto_beautifier::layout::{FormatError, FormattedCode};
use wbproto_beautifier::syntax::{collect_code, Kind, SyntaxNode};

fn chars(s: &str) -> Vec<char> {
    s.chars().collect()
}

fn text(v: &[char]) -> String {
    v.iter().collect()
}

fn leaf(kind: Kind, named: bool, s: &str, row: usize, col: usize) -> SyntaxNode {
    SyntaxNode {
        kind,
        named,
        is_name: false,
        text: chars(s),
        start_row: row,
        start_col: col,
        end_row: row,
        children: Vec::new(),
    }
}

fn tok(s: &str, row: usize) -> SyntaxNode {
    let kind = match s {
        "[" => Kind::OpenBracket,
        "]" => Kind::CloseBracket,
        "{" => Kind::OpenBrace,
        "}" => Kind::CloseBrace,
        "," => Kind::Comma,
        "DEF" => Kind::Def,
        "USE" => Kind::Use,
        _ => Kind::Other,
    };
    leaf(kind, false, s, row, 0)
}

fn ident(s: &str, row: usize) -> SyntaxNode {
    leaf(Kind::Other, true, s, row, 0)
}

fn tree(kind: Kind, start_row: usize, end_row: usize, children: Vec<SyntaxNode>) -> SyntaxNode {
    SyntaxNode {
        kind,
        named: true,
        is_name: false,
        text: Vec::new(),
        start_row,
        start_col: 0,
        end_row,
        children,
    }
}

fn field(kind: &str, ty: &str, name: &str, value: &str, row: usize) -> SyntaxNode {
    tree(Kind::Field, row, row, vec![tok(kind, row), ident(ty, row), ident(name, row), ident(value, row)])
}

fn proto(name: &str, header: Vec<SyntaxNode>, body: Vec<SyntaxNode>, end_row: usize) -> SyntaxNode {
    let mut name_node = ident(name, 0);
    name_node.is_name = true;
    let mut children = vec![tok("PROTO", 0), name_node, tok("[", 0)];
    children.extend(header);
    children.push(tok("]", 0));
    children.push(tok("{", 0));
    children.extend(body);
    children.push(tok("}", end_row));
    tree(Kind::Proto, 0, end_row, children)
}

fn document(children: Vec<SyntaxNode>, end_row: usize) -> SyntaxNode {
    tree(Kind::Document, 0, end_row, children)
}

fn run(root: &SyntaxNode, table: &Vec<FormattedCode>) -> Result<String, FormatError> {
    beautify(root, table).map(|v| text(&v))
}

fn node_text(n: &SyntaxNode, level: usize) -> String {
    let mut state = State::new(2);
    state.level = level;
    format_node(&mut state, n, &Vec::new()).unwrap();
    text(&state.formatted)
}

fn comment_text(s: &str) -> String {
    let mut state = State::new(2);
    format_comment(&mut state, &leaf(Kind::Comment, true, s, 0, 0));
    text(&state.formatted)
}

#[test]
fn fields_are_aligned_in_columns() {
    let p = proto(
        "X",
        vec![field("field", "SFFloat", "a", "1", 0), field("field", "SFInt32", "bb", "2", 0)],
        vec![],
        0,
    );
    let out = run(&document(vec![p], 0), &Vec::new()).unwrap();
    assert_eq!(out, "\nPROTO X [\n  field  SFFloat  a   1\n  field  SFInt32  bb  2\n]\n{\n}\n");
}

#[test]
fn alignment_follows_the_widest_part() {
    let p = proto(
        "Robot",
        vec![
            field("field", "SFVec3f", "translation", "0 0 0", 1),
            field("exposedField", "SFBool", "on", "TRUE", 2),
        ],
        vec![],
        3,
    );
    let out = run(&document(vec![p], 3), &Vec::new()).unwrap();
    assert_eq!(
        out,
        "\nPROTO Robot [\n  field         SFVec3f  translation  0 0 0\n  exposedField  SFBool   on           TRUE\n]\n{\n}\n"
    );
}

#[test]
fn trailing_comment_is_padded_after_the_value() {
    let mut c = leaf(Kind::Comment, true, "#note", 1, 20);
    c.end_row = 1;
    let p = proto("X", vec![field("field", "SFInt32", "a", "1", 1), c], vec![], 2);
    let out = run(&document(vec![p], 2), &Vec::new()).unwrap();
    assert_eq!(out, "\nPROTO X [\n  field  SFInt32  a  1  # note\n]\n{\n}\n");
}

#[test]
fn embedded_code_is_reindented() {
    let mut block = tree(
        Kind::JavascriptBlock,
        1,
        3,
        vec![tok("%<", 1), leaf(Kind::Code, true, "if(x){y();}", 2, 0), tok(">%", 3)],
    );
    block.start_col = 0;
    let p = proto("X", vec![], vec![block], 4);
    let table = vec![FormattedCode { source: chars("if(x){y();}"), formatted: chars("if (x) {\n  y();\n}\n") }];
    let out = run(&document(vec![p], 4), &table).unwrap();
    assert_eq!(out, "\nPROTO X [\n]\n{\n%<\n  if (x) {\n    y();\n  }\n>%\n}\n");
}

#[test]
fn one_line_code_stays_on_one_line() {
    let block = tree(
        Kind::JavascriptExpression,
        0,
        0,
        vec![tok("%<=", 0), leaf(Kind::Code, true, " a+b ", 0, 3), tok(">%", 0)],
    );
    let table = vec![FormattedCode { source: chars(" a+b "), formatted: chars("a + b\n") }];
    let mut state = State::new(2);
    format_node(&mut state, &block, &table).unwrap();
    assert_eq!(text(&state.formatted), "%<= a + b >%");
}

#[test]
fn code_without_formatted_text_is_an_error() {
    let block = tree(
        Kind::JavascriptBlock,
        2,
        4,
        vec![tok("%<", 2), leaf(Kind::Code, true, "x", 3, 0), tok(">%", 4)],
    );
    let p = proto("X", vec![], vec![block], 5);
    let r = run(&document(vec![p], 5), &Vec::new());
    assert_eq!(r, Err(FormatError::UnformattedCode { row: 2, col: 0 }));
}

#[test]
fn error_node_rejects_the_document() {
    let mut bad = leaf(Kind::Error, true, "@@", 3, 4);
    bad.end_row = 3;
    let p = proto("X", vec![bad], vec![], 5);
    let r = run(&document(vec![p], 5), &Vec::new());
    assert_eq!(r, Err(FormatError::Syntax { row: 3, col: 4 }));
}

#[test]
fn missing_node_without_error_node_is_rejected() {
    let gap = leaf(Kind::Missing, true, "", 1, 0);
    let r = run(&document(vec![gap], 2), &Vec::new());
    assert_eq!(r, Err(FormatError::UnlocatedSyntax));
}

#[test]
fn field_without_value_is_malformed() {
    let short = tree(Kind::Field, 1, 1, vec![tok("field", 1), ident("SFInt32", 1), ident("a", 1)]);
    let p = proto("X", vec![short], vec![], 2);
    let r = run(&document(vec![p], 2), &Vec::new());
    assert_eq!(r, Err(FormatError::MalformedField { row: 1, col: 0 }));
}

#[test]
fn proto_without_name_is_an_error() {
    let p = tree(Kind::Proto, 0, 0, vec![tok("PROTO", 0), tok("[", 0), tok("]", 0), tok("{", 0), tok("}", 0)]);
    let r = run(&document(vec![p], 0), &Vec::new());
    assert_eq!(r, Err(FormatError::MissingToken { row: 0, col: 0 }));
}

#[test]
fn one_row_node_stays_inline() {
    let prop = tree(Kind::Property, 0, 0, vec![ident("translation", 0), ident("0", 0), ident("0", 0), ident("1", 0)]);
    let n = tree(Kind::Node, 0, 0, vec![ident("Transform", 0), tok("{", 0), prop, tok("}", 0)]);
    assert_eq!(node_text(&n, 0), "Transform { translation 0 0 1 }");
}

#[test]
fn multi_row_node_puts_each_child_on_its_line() {
    let prop = tree(Kind::Property, 1, 1, vec![ident("translation", 1), ident("0", 1), ident("0", 1), ident("1", 1)]);
    let n = tree(Kind::Node, 0, 2, vec![ident("Transform", 0), tok("{", 0), prop, tok("}", 2)]);
    assert_eq!(node_text(&n, 0), "Transform {\n  translation 0 0 1\n}");
}

#[test]
fn def_and_use_forms() {
    let n = tree(Kind::Node, 0, 0, vec![tok("DEF", 0), ident("BODY", 0), ident("Solid", 0), tok("{", 0), tok("}", 0)]);
    assert_eq!(node_text(&n, 0), "DEF BODY Solid { }");
    let u = tree(Kind::Node, 0, 0, vec![tok("USE", 0), ident("BODY", 0)]);
    assert_eq!(node_text(&u, 0), "USE BODY");
}

#[test]
fn vector_with_node_is_multi_line() {
    let inner = tree(Kind::Node, 0, 0, vec![ident("Shape", 0), tok("{", 0), tok("}", 0)]);
    let v = tree(Kind::Vector, 0, 0, vec![tok("[", 0), inner, tok("]", 0)]);
    assert_eq!(node_text(&v, 0), "[\n  Shape { }\n]");
}

#[test]
fn one_row_vector_stays_inline() {
    let v = tree(
        Kind::Vector,
        0,
        0,
        vec![tok("[", 0), ident("1", 0), tok(",", 0), ident("2", 0), tok(",", 0), ident("3", 0), tok("]", 0)],
    );
    assert_eq!(node_text(&v, 0), "[ 1, 2, 3 ]");
}

#[test]
fn multi_row_vector_puts_each_element_on_its_line() {
    let v = tree(
        Kind::Vector,
        0,
        2,
        vec![tok("[", 0), ident("1", 1), tok(",", 1), ident("2", 1), tok("]", 2)],
    );
    assert_eq!(node_text(&v, 1), "[\n    1,\n    2\n  ]");
}

#[test]
fn header_comment_keeps_its_marker_glued() {
    assert_eq!(comment_text("#VRML_SIM R2023b utf8"), "#VRML_SIM R2023b utf8");
}

#[test]
fn plain_comment_gets_one_space() {
    assert_eq!(comment_text("#   hello world  "), "# hello world");
    assert_eq!(comment_text("#x"), "# x");
}

#[test]
fn section_marker_is_verbatim() {
    assert_eq!(comment_text("  ## Section  "), "## Section");
}

#[test]
fn comments_and_externs_at_top_level() {
    let c1 = leaf(Kind::Comment, true, "#VRML_SIM R2023b utf8", 0, 0);
    let c2 = leaf(Kind::Comment, true, "#tags: static", 1, 0);
    let ext = tree(Kind::Extern, 3, 3, vec![tok("EXTERNPROTO", 3), ident("\"a.proto\"", 3)]);
    let p = proto("X", vec![], vec![], 5);
    let mut p = p;
    p.start_row = 5;
    let out = run(&document(vec![c1, c2, ext, p], 5), &Vec::new()).unwrap();
    assert_eq!(out, "#VRML_SIM R2023b utf8\n# tags: static\n\nEXTERNPROTO \"a.proto\"\n\nPROTO X [\n]\n{\n}\n");
}

#[test]
fn reformatting_formatted_fields_is_a_no_op() {
    let p = proto(
        "X",
        vec![field("field", "SFFloat", "a", "1", 0), field("field", "SFInt32", "bb", "2", 0)],
        vec![],
        0,
    );
    let first = run(&document(vec![p], 0), &Vec::new()).unwrap();
    // The tree the parser builds from `first`: the same fields, one per row.
    let mut q = proto(
        "X",
        vec![field("field", "SFFloat", "a", "1", 2), field("field", "SFInt32", "bb", "2", 3)],
        vec![],
        6,
    );
    q.start_row = 1;
    let second = run(&document(vec![q], 7), &Vec::new()).unwrap();
    assert_eq!(first, second);
}

#[test]
fn first_error_is_deepest_first_left_to_right() {
    let mut inner = leaf(Kind::Error, true, "!", 4, 2);
    inner.end_row = 4;
    let outer = tree(Kind::Property, 4, 4, vec![ident("a", 4), inner]);
    let mut later = leaf(Kind::Error, true, "?", 6, 1);
    later.end_row = 6;
    let r = run(&document(vec![outer, later], 7), &Vec::new());
    assert_eq!(r, Err(FormatError::Syntax { row: 4, col: 2 }));
}

#[test]
fn code_spans_are_listed_in_document_order() {
    let a = tree(Kind::JavascriptBlock, 1, 1, vec![tok("%<", 1), leaf(Kind::Code, true, "a()", 1, 2), tok(">%", 1)]);
    let b = tree(Kind::JavascriptBlock, 2, 2, vec![tok("%<", 2), leaf(Kind::Code, true, "b()", 2, 2), tok(">%", 2)]);
    let p = proto("X", vec![], vec![a, b], 3);
    let mut out = Vec::new();
    collect_code(&document(vec![p], 3), &mut out);
    let texts: Vec<String> = out.iter().map(|v| text(v)).collect();
    assert_eq!(texts, vec!["a()".to_string(), "b()".to_string()]);
}

#[test]
fn extern_tokens_are_space_separated() {
    let ext = tree(Kind::Extern, 0, 0, vec![tok("EXTERNPROTO", 0), ident("\"b.proto\"", 0)]);
    assert_eq!(node_text(&ext, 0), "EXTERNPROTO \"b.proto\"");
}

#[test]
fn comment_on_the_row_of_an_inline_body_follows_it() {
    let prop = tree(Kind::Property, 1, 1, vec![ident("size", 1), ident("1", 1)]);
    let mut c = leaf(Kind::Comment, true, "#  why", 1, 12);
    c.end_row = 1;
    let n = tree(Kind::Node, 0, 2, vec![ident("Box", 0), tok("{", 0), prop, c, tok("}", 2)]);
    assert_eq!(node_text(&n, 0), "Box {\n  size 1 # why\n}");
}

#[test]
fn indent_writes_the_level_width() {
    let mut state = State::new(2);
    state.level = 2;
    state.indent();
    assert_eq!(text(&state.formatted), "    ");
    assert_eq!(state.col, 4);
    state.extra_indentation = 1;
    state.newline();
    state.indent();
    assert_eq!(text(&state.formatted), "    \n     ");
}
