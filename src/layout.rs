//! The layout rules, stated as spec functions over the emission model.
//!
//! Each rule takes the emission state before a node is laid out and gives the
//! state after it, or the error that stops the run.

use crate::emit::{sat, Emit};
use crate::syntax::{contains_error, first_error, Kind, SyntaxNode};
use crate::text::{starts_with, trim, trim_hi, trim_lo};
use vstd::prelude::*;

verus! {

/// Why a document could not be formatted.
#[derive(Clone, Copy, Debug, PartialEq, Eq, Structural)]
pub enum FormatError {
    /// The tree holds an error node, the first of which starts here.
    Syntax { row: usize, col: usize },
    /// The tree is flagged as erroneous but holds no error node.
    UnlocatedSyntax,
    /// An expected token of the node starting here is absent.
    MissingToken { row: usize, col: usize },
    /// A parameter declaration lacks one of its four parts.
    MalformedField { row: usize, col: usize },
    /// No formatted text was supplied for the code block starting here.
    UnformattedCode { row: usize, col: usize },
}

/// What the external code formatter made of one embedded code block.
pub struct FormattedCode {
    pub source: Vec<char>,
    pub formatted: Vec<char>,
}

/// Column widths of a parameter list: kind, type, name and value.
#[derive(Clone, Copy, Debug, PartialEq, Eq, Structural)]
pub struct Widths {
    pub kind: usize,
    pub ty: usize,
    pub name: usize,
    pub value: usize,
}

pub type Res = Result<Emit, FormatError>;

pub open spec fn missing(n: SyntaxNode) -> FormatError {
    FormatError::MissingToken { row: n.start_row, col: n.start_col }
}

pub open spec fn malformed(n: SyntaxNode) -> FormatError {
    FormatError::MalformedField { row: n.start_row, col: n.start_col }
}

/// Formatted text for `code`: the first entry whose source is `code`.
pub open spec fn lookup(t: Seq<FormattedCode>, code: Seq<char>, j: int) -> Option<Seq<char>>
    decreases t.len() - j,
{
    if j < 0 || j >= t.len() {
        None
    } else if t[j].source@ == code {
        Some(t[j].formatted@)
    } else {
        lookup(t, code, j + 1)
    }
}

/// Index of the `k`-th named child of `n`, counting from child `i`.
pub open spec fn nth_named(n: SyntaxNode, i: int, k: nat) -> Option<int>
    decreases n.len() - i,
{
    if i < 0 || i >= n.len() {
        None
    } else if n.child(i).named {
        if k == 0 {
            Some(i)
        } else {
            nth_named(n, i + 1, (k - 1) as nat)
        }
    } else {
        nth_named(n, i + 1, k)
    }
}

/// Index of the first child from `i` on that stands in the name field.
pub open spec fn name_child(n: SyntaxNode, i: int) -> Option<int>
    decreases n.len() - i,
{
    if i < 0 || i >= n.len() {
        None
    } else if n.child(i).is_name {
        Some(i)
    } else {
        name_child(n, i + 1)
    }
}

/// Index of the first child from `i` on that is a code span.
pub open spec fn code_child(n: SyntaxNode, i: int) -> Option<int>
    decreases n.len() - i,
{
    if i < 0 || i >= n.len() {
        None
    } else if n.child(i).kind == Kind::Code {
        Some(i)
    } else {
        code_child(n, i + 1)
    }
}

/// Some child of `n` is a node instance.
pub open spec fn has_node_child(n: SyntaxNode) -> bool {
    exists|i: int| 0 <= i < n.len() && #[trigger] n.child(i).kind == Kind::Node
}

// ----- comments -----

/// A normal comment's text: its single leading marker stripped, then trimmed.
pub open spec fn comment_body(t: Seq<char>) -> Seq<char> {
    trim(if t.len() > 0 && t[0] == '#' { t.drop_first() } else { t })
}

pub open spec fn is_section_marker(t: Seq<char>) -> bool {
    starts_with(trim(t), seq!['#', '#'])
}

/// The text a comment is rendered as. Section markers are kept verbatim, a
/// header keyword is glued to the marker, other comments get one space.
pub open spec fn comment_text(t: Seq<char>) -> Seq<char> {
    if is_section_marker(t) {
        trim(t)
    } else if starts_with(comment_body(t), seq!['V', 'R', 'M', 'L']) {
        seq!['#'] + comment_body(t)
    } else {
        seq!['#', ' '] + comment_body(t)
    }
}

pub open spec fn fmt_comment(e: Emit, n: SyntaxNode) -> Emit {
    e.print(comment_text(n.text@))
}

// ----- extern declarations -----

/// The texts of the children from `i` on, separated by single spaces.
pub open spec fn extern_from(e: Emit, n: SyntaxNode, i: nat) -> Emit
    decreases n.len() - i,
{
    if i >= n.len() {
        e
    } else {
        let e1 = if i != 0 { e.print(seq![' ']) } else { e };
        extern_from(e1.print(n.child(i as int).text@), n, i + 1)
    }
}

pub open spec fn fmt_extern(e: Emit, n: SyntaxNode) -> Emit {
    extern_from(e, n, 0)
}

// ----- embedded code -----

/// Index of the first line break in `s[i..hi]`, or `hi`.
pub open spec fn next_break(s: Seq<char>, i: int, hi: int) -> int
    decreases hi - i,
{
    if i >= hi {
        hi
    } else if s[i] == '\n' {
        i
    } else {
        next_break(s, i + 1, hi)
    }
}

/// `l` without one trailing carriage return.
pub open spec fn strip_cr(l: Seq<char>) -> Seq<char> {
    if l.len() > 0 && l.last() == '\r' { l.drop_last() } else { l }
}

/// Each line of `s[i..hi]` on an indented line of its own.
pub open spec fn emit_lines(e: Emit, s: Seq<char>, i: int, hi: int) -> Emit
    decreases hi - i,
{
    if i >= hi {
        e
    } else {
        let k = next_break(s, i, hi);
        let e2 = e.indent().println(strip_cr(s.subrange(i, k)));
        if i <= k < hi {
            emit_lines(e2, s, k + 1, hi)
        } else {
            e2
        }
    }
}

pub open spec fn fmt_code(e: Emit, n: SyntaxNode, t: Seq<FormattedCode>) -> Res {
    if n.len() == 0 {
        Err(missing(n))
    } else {
        match code_child(n, 0) {
            None => Err(missing(n)),
            Some(ci) => match lookup(t, n.child(ci).text@, 0) {
                None => Err(FormatError::UnformattedCode { row: n.start_row, col: n.start_col }),
                Some(f) => {
                    let opener = n.child(0).text@;
                    if n.one_row() {
                        Ok(e.print(opener).print(seq![' ']).print(trim(f)).print(seq![' ', '>', '%']))
                    } else {
                        let e1 = e.println(opener).push_level();
                        let e2 = emit_lines(e1, f, trim_lo(f) as int, trim_hi(f) as int);
                        Ok(e2.pop_level().indent().print(seq!['>', '%']))
                    }
                },
            },
        }
    }
}

// ----- the recursive layout rules -----

/// Lays out one node, dispatching on its kind; unknown kinds are verbatim.
pub open spec fn fmt_node(e: Emit, n: SyntaxNode, t: Seq<FormattedCode>) -> Res
    decreases n, n.len() + 3,
{
    match n.kind {
        Kind::Node => fmt_def(e, n, t),
        Kind::Comment => Ok(fmt_comment(e, n)),
        Kind::Extern => Ok(fmt_extern(e, n)),
        Kind::Property => prop_from(e, n, t, 0),
        Kind::Proto => fmt_proto(e, n, t),
        Kind::Vector => fmt_vec(e, n, t),
        Kind::JavascriptBlock | Kind::JavascriptExpression => fmt_code(e, n, t),
        _ => Ok(e.print(n.text@)),
    }
}

/// A property: its children from `i` on, separated by single spaces.
pub open spec fn prop_from(e: Emit, n: SyntaxNode, t: Seq<FormattedCode>, i: nat) -> Res
    decreases n, n.len() - i,
{
    if i >= n.len() {
        Ok(e)
    } else {
        let e1 = if i != 0 { e.print(seq![' ']) } else { e };
        match fmt_node(e1, n.child(i as int), t) {
            Ok(e2) => prop_from(e2, n, t, i + 1),
            Err(x) => Err(x),
        }
    }
}

/// The header of a node instance: `DEF name Type`, `USE name` or `Type`.
/// `None` stands for a `USE`, which has no body.
pub open spec fn def_head(e: Emit, n: SyntaxNode) -> Result<Option<Emit>, FormatError> {
    if n.len() == 0 {
        Err(missing(n))
    } else if n.child(0).kind == Kind::Def {
        match (nth_named(n, 0, 0), nth_named(n, 0, 1)) {
            (Some(a), Some(b)) => Ok(
                Some(
                    e.print(seq!['D', 'E', 'F', ' ']).print(n.child(a).text@).print(seq![' ']).print(
                        n.child(b).text@,
                    ),
                ),
            ),
            _ => Err(missing(n)),
        }
    } else {
        match nth_named(n, 0, 0) {
            Some(a) => if n.child(0).kind == Kind::Use {
                Ok(None)
            } else {
                Ok(Some(e.print(n.child(a).text@)))
            },
            None => Err(missing(n)),
        }
    }
}

/// A node instance, its body inline when its source spans one row.
pub open spec fn fmt_def(e: Emit, n: SyntaxNode, t: Seq<FormattedCode>) -> Res
    decreases n, n.len() + 2,
{
    match def_head(e, n) {
        Err(x) => Err(x),
        Ok(None) => Ok(e.print(seq!['U', 'S', 'E', ' ']).print(n.child(nth_named(n, 0, 0).unwrap()).text@)),
        Ok(Some(e1)) => {
            let e2 = e1.print(seq![' ', '{']).push_level();
            match def_from(e2, n, t, 0, false, 0, n.one_row()) {
                Err(x) => Err(x),
                Ok(e3) => {
                    let e4 = e3.pop_level();
                    let e5 = if n.one_row() { e4.print(seq![' ']) } else { e4.println(seq![]).indent() };
                    Ok(e5.print(seq!['}']))
                },
            }
        },
    }
}

/// The body of a node instance from child `i` on. `inside` tells whether the
/// opening brace has been seen, `last_row` is where the previous child ended.
pub open spec fn def_from(
    e: Emit,
    n: SyntaxNode,
    t: Seq<FormattedCode>,
    i: nat,
    inside: bool,
    last_row: nat,
    one_line: bool,
) -> Res
    decreases n, n.len() - i,
{
    if i >= n.len() {
        Ok(e)
    } else {
        let c = n.child(i as int);
        let end = c.end_row as nat;
        if c.kind == Kind::OpenBrace && !inside {
            def_from(e, n, t, i + 1, true, end, one_line)
        } else if c.kind == Kind::CloseBrace && inside {
            def_from(e, n, t, i + 1, false, end, one_line)
        } else if c.kind == Kind::Comment && inside {
            let e1 = if !one_line && last_row != c.start_row {
                e.println(seq![]).indent()
            } else if last_row == c.start_row {
                e.print(seq![' '])
            } else {
                e
            };
            def_from(fmt_comment(e1, c), n, t, i + 1, inside, end, one_line)
        } else if inside {
            let e1 = if !one_line { e.println(seq![]).indent() } else { e.print(seq![' ']) };
            match fmt_node(e1, c, t) {
                Ok(e2) => def_from(e2, n, t, i + 1, inside, end, one_line),
                Err(x) => Err(x),
            }
        } else {
            def_from(e, n, t, i + 1, inside, last_row, one_line)
        }
    }
}

/// A vector is laid out on one line when its source spans one row and no
/// element is a node instance.
pub open spec fn vec_one_line(n: SyntaxNode) -> bool {
    n.one_row() && !has_node_child(n)
}

pub open spec fn fmt_vec(e: Emit, n: SyntaxNode, t: Seq<FormattedCode>) -> Res
    decreases n, n.len() + 2,
{
    vec_from(e, n, t, 0, vec_one_line(n), true, n.end_row as nat, false)
}

/// The vector's children from `i` on. `after_self` tells whether no element
/// has been seen since the opening bracket, `last_end` is where the previous
/// child ended and `brackets` whether a bracket has been seen.
pub open spec fn vec_from(
    e: Emit,
    n: SyntaxNode,
    t: Seq<FormattedCode>,
    i: nat,
    one_line: bool,
    after_self: bool,
    last_end: nat,
    brackets: bool,
) -> Res
    decreases n, n.len() - i,
{
    if i >= n.len() {
        Ok(e)
    } else {
        let c = n.child(i as int);
        let end = c.end_row as nat;
        if c.kind == Kind::OpenBracket {
            let e1 = e.print(seq!['[']);
            let e2 = if !one_line { e1.push_level() } else { e1 };
            vec_from(e2, n, t, i + 1, one_line, true, n.end_row as nat, true)
        } else if c.kind == Kind::CloseBracket {
            let e1 = if one_line {
                e.print(seq![' ', ']'])
            } else {
                e.pop_level().println(seq![]).indent().print(seq![']'])
            };
            vec_from(e1, n, t, i + 1, one_line, false, end, brackets)
        } else if c.kind == Kind::Comma {
            vec_from(e.print(seq![',']), n, t, i + 1, one_line, false, end, brackets)
        } else if c.kind == Kind::Comment {
            let e1 = if last_end != c.start_row { e.println(seq![]).indent() } else { e.print(seq![' ']) };
            vec_from(fmt_comment(e1, c), n, t, i + 1, one_line, false, end, brackets)
        } else {
            let e1 = if one_line && (brackets || !after_self) {
                e.print(seq![' '])
            } else if !one_line {
                e.println(seq![]).indent()
            } else {
                e
            };
            match fmt_node(e1, c, t) {
                Ok(e2) => vec_from(e2, n, t, i + 1, one_line, false, end, brackets),
                Err(x) => Err(x),
            }
        }
    }
}

/// The emission state in which a field part is measured: nothing written yet.
pub open spec fn measuring(e: Emit) -> Emit {
    Emit { out: Seq::empty(), col: 0, row: 0, ..e }
}

/// Length of the text a part is laid out as, measured in isolation.
pub open spec fn part_width(e: Emit, p: SyntaxNode, t: Seq<FormattedCode>) -> Result<nat, FormatError>
    decreases p, p.len() + 4,
{
    match fmt_node(measuring(e), p, t) {
        Ok(m) => Ok(m.out.len()),
        Err(x) => Err(x),
    }
}

/// `w` widened to hold a part of length `len` and its padding.
pub open spec fn widen(w: usize, len: nat, pad: nat) -> usize {
    if w >= sat(len + pad as int) { w } else { sat(len + pad as int) as usize }
}

/// The widths of one field's four parts, each with its padding, merged into `w`.
pub open spec fn field_widths(e: Emit, f: SyntaxNode, t: Seq<FormattedCode>, w: Widths) -> Result<Widths, FormatError>
    decreases f, f.len() + 2,
{
    if f.len() < 4 {
        Err(malformed(f))
    } else {
        match (part_width(e, f.child(0), t), part_width(e, f.child(1), t), part_width(e, f.child(2), t), part_width(e, f.child(3), t)) {
            (Ok(a), Ok(b), Ok(c), Ok(d)) => Ok(Widths {
                kind: widen(w.kind, a, e.num_spaces),
                ty: widen(w.ty, b, e.num_spaces),
                name: widen(w.name, c, e.num_spaces),
                value: widen(w.value, d, e.num_spaces),
            }),
            (Err(x), _, _, _) => Err(x),
            (_, Err(x), _, _) => Err(x),
            (_, _, Err(x), _) => Err(x),
            (_, _, _, Err(x)) => Err(x),
        }
    }
}

pub open spec fn is_field(c: SyntaxNode) -> bool {
    c.named && c.kind == Kind::Field
}

/// Column widths over the fields among the children from `i` on.
pub open spec fn widths_from(e: Emit, n: SyntaxNode, t: Seq<FormattedCode>, i: nat, w: Widths) -> Result<Widths, FormatError>
    decreases n, n.len() - i,
{
    if i >= n.len() {
        Ok(w)
    } else if is_field(n.child(i as int)) {
        match field_widths(e, n.child(i as int), t, w) {
            Ok(w2) => widths_from(e, n, t, i + 1, w2),
            Err(x) => Err(x),
        }
    } else {
        widths_from(e, n, t, i + 1, w)
    }
}

pub open spec fn zero_widths() -> Widths {
    Widths { kind: 0, ty: 0, name: 0, value: 0 }
}

/// Column at which the type of a field starts, given the indentation width.
pub open spec fn type_column(base: nat, w: Widths) -> nat {
    sat(base + w.kind as int)
}

pub open spec fn name_column(base: nat, w: Widths) -> nat {
    sat(type_column(base, w) + w.ty as int)
}

pub open spec fn value_column(base: nat, w: Widths) -> nat {
    sat(name_column(base, w) + w.name as int)
}

/// Column at which a comment that trails a field starts.
pub open spec fn comment_column(base: nat, w: Widths) -> nat {
    sat(value_column(base, w) + w.value as int)
}

/// One field, its parts padded to the columns of `w`, the cursor standing at
/// the indentation of a fresh line.
pub open spec fn fmt_field(e: Emit, f: SyntaxNode, t: Seq<FormattedCode>, w: Widths) -> Res
    decreases f, f.len() + 2,
{
    if f.len() < 4 {
        Err(malformed(f))
    } else {
        let base = sat(e.indent_width() as int);
        match fmt_node(e, f.child(0), t) {
            Err(x) => Err(x),
            Ok(e1) => match fmt_node(e1.pad_to(type_column(base, w) as int), f.child(1), t) {
                Err(x) => Err(x),
                Ok(e2) => match fmt_node(e2.pad_to(name_column(base, w) as int), f.child(2), t) {
                    Err(x) => Err(x),
                    Ok(e3) => fmt_node(e3.pad_to(value_column(base, w) as int), f.child(3), t),
                },
            },
        }
    }
}

/// The parameter list from child `i` on. `inside` tells whether the opening
/// bracket has been seen, `last_line` is the source row the previous entry ended on.
pub open spec fn header_from(
    e: Emit,
    n: SyntaxNode,
    t: Seq<FormattedCode>,
    w: Widths,
    i: nat,
    inside: bool,
    last_line: nat,
) -> Res
    decreases n, n.len() - i,
{
    if i >= n.len() {
        Ok(e)
    } else {
        let c = n.child(i as int);
        let end = c.end_row as nat;
        if c.kind == Kind::OpenBracket && !inside {
            header_from(e, n, t, w, i + 1, true, last_line)
        } else if c.kind == Kind::CloseBracket && inside {
            header_from(e, n, t, w, i + 1, false, last_line)
        } else if c.kind == Kind::Field && inside {
            match fmt_field(e.println(seq![]).indent(), c, t, w) {
                Ok(e1) => header_from(e1, n, t, w, i + 1, inside, end),
                Err(x) => Err(x),
            }
        } else if c.kind == Kind::Comment && inside {
            let e1 = if c.start_row != last_line {
                e.println(seq![]).indent()
            } else {
                e.pad_to(comment_column(sat(e.indent_width() as int), w) as int)
            };
            header_from(fmt_comment(e1, c), n, t, w, i + 1, inside, end)
        } else {
            header_from(e, n, t, w, i + 1, inside, last_line)
        }
    }
}

/// The body of a PROTO from child `i` on, one entry per line.
pub open spec fn body_from(e: Emit, n: SyntaxNode, t: Seq<FormattedCode>, i: nat, inside: bool) -> Res
    decreases n, n.len() - i,
{
    if i >= n.len() {
        Ok(e)
    } else {
        let c = n.child(i as int);
        if c.kind == Kind::OpenBrace && !inside {
            body_from(e, n, t, i + 1, true)
        } else if inside && (c.kind == Kind::Node || c.kind == Kind::Comment || c.kind == Kind::JavascriptBlock) {
            match fmt_node(e, c, t) {
                Ok(e1) => body_from(e1.println(seq![]), n, t, i + 1, inside),
                Err(x) => Err(x),
            }
        } else {
            body_from(e, n, t, i + 1, inside)
        }
    }
}

/// A PROTO declaration: name, aligned parameter list and body.
pub open spec fn fmt_proto(e: Emit, n: SyntaxNode, t: Seq<FormattedCode>) -> Res
    decreases n, n.len() + 2,
{
    match name_child(n, 0) {
        None => Err(missing(n)),
        Some(ni) => match widths_from(e, n, t, 0, zero_widths()) {
            Err(x) => Err(x),
            Ok(w) => {
                let e1 = e.print(seq!['P', 'R', 'O', 'T', 'O', ' ']).print(n.child(ni).text@).print(
                    seq![' ', '['],
                ).set_level(1);
                match header_from(e1, n, t, w, 0, false, 0) {
                    Err(x) => Err(x),
                    Ok(e2) => {
                        let e3 = e2.println(seq![]).println(seq![']']).println(seq!['{']).set_level(0);
                        match body_from(e3, n, t, 0, false) {
                            Err(x) => Err(x),
                            Ok(e4) => Ok(e4.print(seq!['}'])),
                        }
                    },
                }
            },
        },
    }
}

// ----- the document -----

/// The top-level children from `i` on. `after_self` tells whether no child has
/// been laid out yet; `last_kind` and `last_end` describe the previous one.
pub open spec fn doc_from(
    e: Emit,
    n: SyntaxNode,
    t: Seq<FormattedCode>,
    i: nat,
    after_self: bool,
    last_kind: Kind,
    last_end: nat,
) -> Res
    decreases n.len() - i,
{
    if i >= n.len() {
        Ok(e)
    } else {
        let c = n.child(i as int);
        let start = c.start_row as nat;
        let r = if c.kind == Kind::Comment {
            let e1 = if last_end == start {
                e.print(seq![' '])
            } else if !after_self && start > last_end + 1 {
                e.println(seq![])
            } else {
                e
            };
            Ok(fmt_comment(e1, c).println(seq![]))
        } else if c.kind == Kind::Extern {
            let e1 = if !after_self && (last_kind == Kind::Comment || start > last_end + 1) {
                e.println(seq![])
            } else {
                e
            };
            Ok(fmt_extern(e1, c).println(seq![]))
        } else {
            fmt_node(e.println(seq![]), c, t)
        };
        match r {
            Ok(e2) => doc_from(e2, n, t, i + 1, false, c.kind, c.end_row as nat),
            Err(x) => Err(x),
        }
    }
}

/// The emission state a run starts from: two spaces per level.
pub open spec fn initial() -> Emit {
    Emit { out: Seq::empty(), col: 0, row: 0, level: 0, num_spaces: 2, extra: 0 }
}

/// The text a document is formatted as, or why it cannot be.
pub open spec fn beautified(root: SyntaxNode, t: Seq<FormattedCode>) -> Result<Seq<char>, FormatError> {
    if contains_error(root) {
        match first_error(root) {
            Some(p) => Err(FormatError::Syntax { row: p.0, col: p.1 }),
            None => Err(FormatError::UnlocatedSyntax),
        }
    } else {
        match doc_from(initial(), root, t, 0, true, root.kind, root.end_row as nat) {
            Ok(e) => Ok(e.println(seq![]).out),
            Err(x) => Err(x),
        }
    }
}

/// A run's result, seen as the state it leaves or the error it stops with.
pub open spec fn outcome(r: Result<(), FormatError>, e: Emit) -> Res {
    match r {
        Ok(_) => Ok(e),
        Err(x) => Err(x),
    }
}

} // verus!
