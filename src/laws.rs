//! Properties of the layout rules that hold for every input.

use crate::emit::{sat, Emit};
use crate::layout::{
    field_widths, part_width, is_field, type_column, name_column, value_column,
    nth_named,
    beautified, body_from, comment_body, comment_text, def_from, def_head, emit_lines,
    extern_from, fmt_code, fmt_def, fmt_field, fmt_node, fmt_proto, header_from,
    is_section_marker, prop_from, has_node_child, vec_one_line, vec_from, widths_from, zero_widths, FormattedCode, Res, Widths,
};
use crate::syntax::{contains_error, Kind, SyntaxNode};
use crate::text::{is_ws, lemma_trim, starts_with, trim, trim_hi, trim_lo};
use vstd::prelude::*;

verus! {

/// A comment whose text begins with the header keyword keeps its marker
/// glued to it; every other comment that is not a section marker gets
/// exactly one space after its marker.
pub proof fn lemma_comment_fidelity(t: Seq<char>)
    requires
        !is_section_marker(t),
    ensures
        starts_with(comment_body(t), seq!['V', 'R', 'M', 'L']) ==> comment_text(t) == seq!['#'] + comment_body(t),
        !starts_with(comment_body(t), seq!['V', 'R', 'M', 'L']) ==> {
            &&& comment_text(t) == seq!['#', ' '] + comment_body(t)
            &&& (comment_body(t).len() == 0 || !is_ws(comment_body(t)[0]))
        },
{
    lemma_trim(if t.len() > 0 && t[0] == '#' { t.drop_first() } else { t });
}

/// A tree that holds an error node is never formatted: the run fails and
/// no text comes out.
pub proof fn lemma_error_rejected(root: SyntaxNode, t: Seq<FormattedCode>)
    requires
        contains_error(root),
    ensures
        beautified(root, t) is Err,
{
}

/// `b` holds everything `a` had written, and maybe more.
pub open spec fn extends(a: Emit, b: Emit) -> bool {
    &&& a.out.len() <= b.out.len()
    &&& forall|k: int| 0 <= k < a.out.len() ==> #[trigger] b.out[k] == a.out[k]
}

/// A successful run only appends to what `e` had written.
pub open spec fn ok_extends(e: Emit, r: Res) -> bool {
    match r {
        Ok(e2) => extends(e, e2),
        Err(_) => true,
    }
}

pub broadcast proof fn lemma_print_extends(e: Emit, s: Seq<char>)
    ensures
        #[trigger] extends(e, e.print(s)),
{
}

pub broadcast proof fn lemma_println_extends(e: Emit, s: Seq<char>)
    ensures
        #[trigger] extends(e, e.println(s)),
{
}

pub broadcast group group_extends {
    lemma_print_extends,
    lemma_println_extends,
}

proof fn lemma_lines_extend(e: Emit, s: Seq<char>, i: int, hi: int)
    ensures
        extends(e, emit_lines(e, s, i, hi)),
    decreases hi - i,
{
    broadcast use group_extends;

    if i < hi {
        let k = crate::layout::next_break(s, i, hi);
        let e2 = e.indent().println(crate::layout::strip_cr(s.subrange(i, k)));
        assert(extends(e, e.indent()));
        assert(extends(e.indent(), e2));
        if i <= k < hi {
            lemma_lines_extend(e2, s, k + 1, hi);
        }
    }
}

proof fn lemma_extern_extends(e: Emit, n: SyntaxNode, i: nat)
    ensures
        extends(e, extern_from(e, n, i)),
    decreases n.len() - i,
{
    broadcast use group_extends;

    if i < n.len() {
        let e1 = if i != 0 { e.print(seq![' ']) } else { e };
        lemma_extern_extends(e1.print(n.child(i as int).text@), n, i + 1);
        assert(extends(e, e1));
        assert(extends(e1, e1.print(n.child(i as int).text@)));
    }
}

proof fn lemma_code_extends(e: Emit, n: SyntaxNode, t: Seq<FormattedCode>)
    ensures
        ok_extends(e, fmt_code(e, n, t)),
{
    broadcast use group_extends;

    if let Ok(r) = fmt_code(e, n, t) {
        let ci = crate::layout::code_child(n, 0).unwrap();
        let f = crate::layout::lookup(t, n.child(ci).text@, 0).unwrap();
        if !n.one_row() {
            let e1 = e.println(n.child(0).text@).push_level();
            let e2 = emit_lines(e1, f, crate::text::trim_lo(f) as int, crate::text::trim_hi(f) as int);
            lemma_lines_extend(e1, f, crate::text::trim_lo(f) as int, crate::text::trim_hi(f) as int);
            assert(extends(e2.pop_level(), e2.pop_level().indent()));
            assert(extends(e2.pop_level().indent(), r));
        }
    }
}

/// Laying out a node only appends to the output.
pub proof fn lemma_node_extends(e: Emit, n: SyntaxNode, t: Seq<FormattedCode>)
    ensures
        ok_extends(e, fmt_node(e, n, t)),
    decreases n, n.len() + 3,
{
    broadcast use group_extends;

    match n.kind {
        Kind::Node => lemma_def_extends(e, n, t),
        Kind::Comment => {},
        Kind::Extern => lemma_extern_extends(e, n, 0),
        Kind::Property => lemma_prop_extends(e, n, t, 0),
        Kind::Proto => lemma_proto_extends(e, n, t),
        Kind::Vector => lemma_vec_extends(e, n, t, 0, crate::layout::vec_one_line(n), true, n.end_row as nat, false),
        Kind::JavascriptBlock | Kind::JavascriptExpression => lemma_code_extends(e, n, t),
        _ => {},
    }
}

proof fn lemma_prop_extends(e: Emit, n: SyntaxNode, t: Seq<FormattedCode>, i: nat)
    ensures
        ok_extends(e, prop_from(e, n, t, i)),
    decreases n, n.len() - i,
{
    broadcast use group_extends;

    if i < n.len() {
        let e1 = if i != 0 { e.print(seq![' ']) } else { e };
        lemma_node_extends(e1, n.child(i as int), t);
        if let Ok(e2) = fmt_node(e1, n.child(i as int), t) {
            lemma_prop_extends(e2, n, t, i + 1);
        }
    }
}

proof fn lemma_def_extends(e: Emit, n: SyntaxNode, t: Seq<FormattedCode>)
    ensures
        ok_extends(e, fmt_def(e, n, t)),
    decreases n, n.len() + 2,
{
    broadcast use group_extends;

    if let Ok(Some(e1)) = def_head(e, n) {
        let e2 = e1.print(seq![' ', '{']).push_level();
        assert(extends(e, e1));
        lemma_def_from_extends(e2, n, t, 0, false, 0, n.one_row());
        if let Ok(e3) = def_from(e2, n, t, 0, false, 0, n.one_row()) {
            let e4 = e3.pop_level();
            let e5 = if n.one_row() { e4.print(seq![' ']) } else { e4.println(seq![]).indent() };
            assert(extends(e4, e5));
        }
    }
}

proof fn lemma_def_from_extends(
    e: Emit,
    n: SyntaxNode,
    t: Seq<FormattedCode>,
    i: nat,
    inside: bool,
    last_row: nat,
    one_line: bool,
)
    ensures
        ok_extends(e, def_from(e, n, t, i, inside, last_row, one_line)),
    decreases n, n.len() - i,
{
    broadcast use group_extends;

    if i < n.len() {
        let c = n.child(i as int);
        let end = c.end_row as nat;
        if c.kind == Kind::OpenBrace && !inside {
            lemma_def_from_extends(e, n, t, i + 1, true, end, one_line);
        } else if c.kind == Kind::CloseBrace && inside {
            lemma_def_from_extends(e, n, t, i + 1, false, end, one_line);
        } else if c.kind == Kind::Comment && inside {
            let e1 = if !one_line && last_row != c.start_row {
                e.println(seq![]).indent()
            } else if last_row == c.start_row {
                e.print(seq![' '])
            } else {
                e
            };
            assert(extends(e, e1));
            lemma_def_from_extends(crate::layout::fmt_comment(e1, c), n, t, i + 1, inside, end, one_line);
        } else if inside {
            let e1 = if !one_line { e.println(seq![]).indent() } else { e.print(seq![' ']) };
            assert(extends(e, e1));
            lemma_node_extends(e1, c, t);
            if let Ok(e2) = fmt_node(e1, c, t) {
                lemma_def_from_extends(e2, n, t, i + 1, inside, end, one_line);
            }
        } else {
            lemma_def_from_extends(e, n, t, i + 1, inside, last_row, one_line);
        }
    }
}

proof fn lemma_vec_extends(
    e: Emit,
    n: SyntaxNode,
    t: Seq<FormattedCode>,
    i: nat,
    one_line: bool,
    after_self: bool,
    last_end: nat,
    brackets: bool,
)
    ensures
        ok_extends(e, vec_from(e, n, t, i, one_line, after_self, last_end, brackets)),
    decreases n, n.len() - i,
{
    broadcast use group_extends;

    if i < n.len() {
        let c = n.child(i as int);
        let end = c.end_row as nat;
        if c.kind == Kind::OpenBracket {
            let e1 = e.print(seq!['[']);
            let e2 = if !one_line { e1.push_level() } else { e1 };
            lemma_vec_extends(e2, n, t, i + 1, one_line, true, n.end_row as nat, true);
        } else if c.kind == Kind::CloseBracket {
            let e1 = if one_line {
                e.print(seq![' ', ']'])
            } else {
                e.pop_level().println(seq![]).indent().print(seq![']'])
            };
            assert(extends(e, e1));
            lemma_vec_extends(e1, n, t, i + 1, one_line, false, end, brackets);
        } else if c.kind == Kind::Comma {
            lemma_vec_extends(e.print(seq![',']), n, t, i + 1, one_line, false, end, brackets);
        } else if c.kind == Kind::Comment {
            let e1 = if last_end != c.start_row { e.println(seq![]).indent() } else { e.print(seq![' ']) };
            assert(extends(e, e1));
            lemma_vec_extends(crate::layout::fmt_comment(e1, c), n, t, i + 1, one_line, false, end, brackets);
        } else {
            let e1 = if one_line && (brackets || !after_self) {
                e.print(seq![' '])
            } else if !one_line {
                e.println(seq![]).indent()
            } else {
                e
            };
            assert(extends(e, e1));
            lemma_node_extends(e1, c, t);
            if let Ok(e2) = fmt_node(e1, c, t) {
                lemma_vec_extends(e2, n, t, i + 1, one_line, false, end, brackets);
            }
        }
    }
}

proof fn lemma_field_extends(e: Emit, f: SyntaxNode, t: Seq<FormattedCode>, w: Widths)
    ensures
        ok_extends(e, fmt_field(e, f, t, w)),
    decreases f, f.len() + 2,
{
    broadcast use group_extends;

    if f.len() >= 4 {
        let base = crate::emit::sat(e.indent_width() as int);
        lemma_node_extends(e, f.child(0), t);
        if let Ok(e1) = fmt_node(e, f.child(0), t) {
            let p1 = e1.pad_to(crate::layout::type_column(base, w) as int);
            lemma_node_extends(p1, f.child(1), t);
            if let Ok(e2) = fmt_node(p1, f.child(1), t) {
                let p2 = e2.pad_to(crate::layout::name_column(base, w) as int);
                lemma_node_extends(p2, f.child(2), t);
                if let Ok(e3) = fmt_node(p2, f.child(2), t) {
                    let p3 = e3.pad_to(crate::layout::value_column(base, w) as int);
                    lemma_node_extends(p3, f.child(3), t);
                }
            }
        }
    }
}

proof fn lemma_header_extends(
    e: Emit,
    n: SyntaxNode,
    t: Seq<FormattedCode>,
    w: Widths,
    i: nat,
    inside: bool,
    last_line: nat,
)
    ensures
        ok_extends(e, header_from(e, n, t, w, i, inside, last_line)),
    decreases n, n.len() - i,
{
    broadcast use group_extends;

    if i < n.len() {
        let c = n.child(i as int);
        let end = c.end_row as nat;
        if c.kind == Kind::OpenBracket && !inside {
            lemma_header_extends(e, n, t, w, i + 1, true, last_line);
        } else if c.kind == Kind::CloseBracket && inside {
            lemma_header_extends(e, n, t, w, i + 1, false, last_line);
        } else if c.kind == Kind::Field && inside {
            let e0 = e.println(seq![]).indent();
            assert(extends(e, e0));
            lemma_field_extends(e0, c, t, w);
            if let Ok(e1) = fmt_field(e0, c, t, w) {
                lemma_header_extends(e1, n, t, w, i + 1, inside, end);
            }
        } else if c.kind == Kind::Comment && inside {
            let e1 = if c.start_row != last_line {
                e.println(seq![]).indent()
            } else {
                e.pad_to(crate::layout::comment_column(crate::emit::sat(e.indent_width() as int), w) as int)
            };
            assert(extends(e, e1));
            lemma_header_extends(crate::layout::fmt_comment(e1, c), n, t, w, i + 1, inside, end);
        } else {
            lemma_header_extends(e, n, t, w, i + 1, inside, last_line);
        }
    }
}

proof fn lemma_body_extends(e: Emit, n: SyntaxNode, t: Seq<FormattedCode>, i: nat, inside: bool)
    ensures
        ok_extends(e, body_from(e, n, t, i, inside)),
    decreases n, n.len() - i,
{
    broadcast use group_extends;

    if i < n.len() {
        let c = n.child(i as int);
        if c.kind == Kind::OpenBrace && !inside {
            lemma_body_extends(e, n, t, i + 1, true);
        } else if inside && (c.kind == Kind::Node || c.kind == Kind::Comment || c.kind == Kind::JavascriptBlock) {
            lemma_node_extends(e, c, t);
            if let Ok(e1) = fmt_node(e, c, t) {
                lemma_body_extends(e1.println(seq![]), n, t, i + 1, inside);
            }
        } else {
            lemma_body_extends(e, n, t, i + 1, inside);
        }
    }
}

proof fn lemma_proto_extends(e: Emit, n: SyntaxNode, t: Seq<FormattedCode>)
    ensures
        ok_extends(e, fmt_proto(e, n, t)),
    decreases n, n.len() + 2,
{
    broadcast use group_extends;

    if let Some(ni) = crate::layout::name_child(n, 0) {
        if let Ok(w) = widths_from(e, n, t, 0, zero_widths()) {
            let e1 = e.print(seq!['P', 'R', 'O', 'T', 'O', ' ']).print(n.child(ni).text@).print(seq![' ', '[']).set_level(1);
            assert(extends(e, e1));
            lemma_header_extends(e1, n, t, w, 0, false, 0);
            if let Ok(e2) = header_from(e1, n, t, w, 0, false, 0) {
                let e3 = e2.println(seq![]).println(seq![']']).println(seq!['{']).set_level(0);
                assert(extends(e2, e3));
                lemma_body_extends(e3, n, t, 0, false);
            }
        }
    }
}

/// `b` holds a line break past what `a` had written.
pub open spec fn breaks_after(a: Emit, b: Emit) -> bool {
    exists|k: int| a.out.len() <= k < b.out.len() && #[trigger] b.out[k] == '\n'
}

proof fn lemma_vec_breaks(
    e: Emit,
    n: SyntaxNode,
    t: Seq<FormattedCode>,
    i: nat,
    j: int,
    after_self: bool,
    last_end: nat,
    brackets: bool,
)
    requires
        i <= j < n.len(),
        n.child(j).kind == Kind::Node,
        vec_from(e, n, t, i, false, after_self, last_end, brackets) is Ok,
    ensures
        breaks_after(e, vec_from(e, n, t, i, false, after_self, last_end, brackets).unwrap()),
    decreases n.len() - i,
{
    broadcast use group_extends;

    let r = vec_from(e, n, t, i, false, after_self, last_end, brackets).unwrap();
    let c = n.child(i as int);
    let end = c.end_row as nat;
    if c.kind == Kind::OpenBracket {
        let e2 = e.print(seq!['[']).push_level();
        lemma_vec_breaks(e2, n, t, i + 1, j, true, n.end_row as nat, true);
        let k = choose|k: int| e2.out.len() <= k < r.out.len() && #[trigger] r.out[k] == '\n';
        assert(e.out.len() <= k);
    } else if c.kind == Kind::CloseBracket {
        let e1 = e.pop_level().println(seq![]).indent().print(seq![']']);
        assert(extends(e, e1));
        lemma_vec_breaks(e1, n, t, i + 1, j, false, end, brackets);
        let k = choose|k: int| e1.out.len() <= k < r.out.len() && #[trigger] r.out[k] == '\n';
        assert(e.out.len() <= k);
    } else if c.kind == Kind::Comma {
        let e1 = e.print(seq![',']);
        lemma_vec_breaks(e1, n, t, i + 1, j, false, end, brackets);
        let k = choose|k: int| e1.out.len() <= k < r.out.len() && #[trigger] r.out[k] == '\n';
        assert(e.out.len() <= k);
    } else if c.kind == Kind::Comment {
        let e1 = if last_end != c.start_row { e.println(seq![]).indent() } else { e.print(seq![' ']) };
        assert(extends(e, e1));
        let e2 = crate::layout::fmt_comment(e1, c);
        lemma_vec_breaks(e2, n, t, i + 1, j, false, end, brackets);
        let k = choose|k: int| e2.out.len() <= k < r.out.len() && #[trigger] r.out[k] == '\n';
        assert(e.out.len() <= k);
    } else {
        let e0 = e.println(seq![]);
        let e1 = e0.indent();
        assert(e0.out[e.out.len() as int] == '\n');
        assert(extends(e0, e1));
        lemma_node_extends(e1, c, t);
        let e2 = fmt_node(e1, c, t).unwrap();
        lemma_vec_extends(e2, n, t, i + 1, false, false, end, brackets);
        assert(r.out[e.out.len() as int] == '\n');
    }
}

/// A vector literal that holds a node instance is laid out on several lines,
/// even when its source spans a single row.
pub proof fn lemma_forced_multi_line(e: Emit, n: SyntaxNode, t: Seq<FormattedCode>)
    requires
        n.kind == Kind::Vector,
        has_node_child(n),
        fmt_node(e, n, t) is Ok,
    ensures
        !vec_one_line(n),
        breaks_after(e, fmt_node(e, n, t).unwrap()),
{
    let j = choose|j: int| 0 <= j < n.len() && #[trigger] n.child(j).kind == Kind::Node;
    lemma_vec_breaks(e, n, t, 0, j, true, n.end_row as nat, false);
}

/// `s` holds no line break.
pub open spec fn no_break(s: Seq<char>) -> bool {
    forall|k: int| 0 <= k < s.len() ==> #[trigger] s[k] != '\n'
}

/// `b` extends `a` and adds no line break to it.
pub open spec fn inline_extends(a: Emit, b: Emit) -> bool {
    &&& extends(a, b)
    &&& forall|k: int| a.out.len() <= k < b.out.len() ==> #[trigger] b.out[k] != '\n'
}

/// Kinds that are laid out as their verbatim text.
pub open spec fn is_verbatim(k: Kind) -> bool {
    !(k == Kind::Node || k == Kind::Comment || k == Kind::Extern || k == Kind::Property || k == Kind::Proto
        || k == Kind::Vector || k == Kind::JavascriptBlock || k == Kind::JavascriptExpression)
}

/// A token laid out verbatim, on one line.
pub open spec fn inline_leaf(c: SyntaxNode) -> bool {
    is_verbatim(c.kind) && no_break(c.text@)
}

/// A body entry that is no multi-field object: a one-line token, a one-line
/// comment, or a property made of one-line tokens.
pub open spec fn inline_item(c: SyntaxNode) -> bool {
    &&& no_break(c.text@)
    &&& (is_verbatim(c.kind) || c.kind == Kind::Comment || (c.kind == Kind::Property && forall|i: int|
        0 <= i < c.len() ==> #[trigger] inline_leaf(c.child(i))))
}

proof fn lemma_inline_trans(a: Emit, b: Emit, c: Emit)
    requires
        inline_extends(a, b),
        inline_extends(b, c),
    ensures
        inline_extends(a, c),
{
    assert forall|k: int| a.out.len() <= k < c.out.len() implies #[trigger] c.out[k] != '\n' by {
        if k < b.out.len() {
            assert(c.out[k] == b.out[k]);
        }
    }
}

proof fn lemma_nth_named_range(n: SyntaxNode, i: int, k: nat)
    requires
        0 <= i,
    ensures
        nth_named(n, i, k) matches Some(j) ==> i <= j < n.len(),
    decreases n.len() - i,
{
    if i < n.len() {
        if n.child(i).named {
            if k > 0 {
                lemma_nth_named_range(n, i + 1, (k - 1) as nat);
            }
        } else {
            lemma_nth_named_range(n, i + 1, k);
        }
    }
}

proof fn lemma_print_inline(e: Emit, s: Seq<char>)
    requires
        no_break(s),
    ensures
        inline_extends(e, e.print(s)),
{
    assert forall|k: int| e.out.len() <= k < e.print(s).out.len() implies #[trigger] e.print(s).out[k] != '\n' by {
        assert(e.print(s).out[k] == s[k - e.out.len()]);
    }
}

proof fn lemma_trim_no_break(x: Seq<char>)
    requires
        no_break(x),
    ensures
        no_break(trim(x)),
{
    lemma_trim(x);
    assert forall|k: int| 0 <= k < trim(x).len() implies #[trigger] trim(x)[k] != '\n' by {
        assert(trim(x)[k] == x[trim_lo(x) + k]);
    }
}

proof fn lemma_comment_no_break(t: Seq<char>)
    requires
        no_break(t),
    ensures
        no_break(comment_text(t)),
{
    let x = if t.len() > 0 && t[0] == '#' { t.drop_first() } else { t };
    assert(no_break(x)) by {
        assert forall|k: int| 0 <= k < x.len() implies #[trigger] x[k] != '\n' by {
            if t.len() > 0 && t[0] == '#' {
                assert(x[k] == t[k + 1]);
            }
        }
    }
    lemma_trim_no_break(t);
    lemma_trim_no_break(x);
    let b = comment_body(t);
    let h1 = seq!['#'];
    let h2 = seq!['#', ' '];
    assert(no_break(h1 + b)) by {
        assert forall|k: int| 0 <= k < (h1 + b).len() implies #[trigger] (h1 + b)[k] != '\n' by {
            if k >= 1 {
                assert((h1 + b)[k] == b[k - 1]);
            }
        }
    }
    assert(no_break(h2 + b)) by {
        assert forall|k: int| 0 <= k < (h2 + b).len() implies #[trigger] (h2 + b)[k] != '\n' by {
            if k >= 2 {
                assert((h2 + b)[k] == b[k - 2]);
            }
        }
    }
}

proof fn lemma_prop_inline(e: Emit, n: SyntaxNode, t: Seq<FormattedCode>, i: nat)
    requires
        forall|j: int| 0 <= j < n.len() ==> #[trigger] inline_leaf(n.child(j)),
    ensures
        prop_from(e, n, t, i) is Ok,
        inline_extends(e, prop_from(e, n, t, i).unwrap()),
    decreases n.len() - i,
{
    if i < n.len() {
        let e1 = if i != 0 { e.print(seq![' ']) } else { e };
        lemma_print_inline(e, seq![' ']);
        let c = n.child(i as int);
        assert(inline_leaf(c));
        assert(fmt_node(e1, c, t) == Ok::<Emit, crate::layout::FormatError>(e1.print(c.text@)));
        lemma_print_inline(e1, c.text@);
        lemma_prop_inline(e1.print(c.text@), n, t, i + 1);
        lemma_inline_trans(e1, e1.print(c.text@), prop_from(e, n, t, i).unwrap());
        if i != 0 {
            lemma_inline_trans(e, e1, prop_from(e, n, t, i).unwrap());
        }
    }
}

proof fn lemma_item_inline(e: Emit, c: SyntaxNode, t: Seq<FormattedCode>)
    requires
        inline_item(c),
    ensures
        fmt_node(e, c, t) is Ok,
        inline_extends(e, fmt_node(e, c, t).unwrap()),
{
    if c.kind == Kind::Comment {
        lemma_comment_no_break(c.text@);
        lemma_print_inline(e, comment_text(c.text@));
    } else if c.kind == Kind::Property {
        lemma_prop_inline(e, c, t, 0);
    } else {
        lemma_print_inline(e, c.text@);
    }
}

proof fn lemma_def_body_inline(e: Emit, n: SyntaxNode, t: Seq<FormattedCode>, i: nat, inside: bool, last_row: nat)
    requires
        forall|j: int| 0 <= j < n.len() ==> #[trigger] inline_item(n.child(j)),
    ensures
        def_from(e, n, t, i, inside, last_row, true) is Ok,
        inline_extends(e, def_from(e, n, t, i, inside, last_row, true).unwrap()),
    decreases n.len() - i,
{
    if i < n.len() {
        let c = n.child(i as int);
        assert(inline_item(c));
        let end = c.end_row as nat;
        lemma_print_inline(e, seq![' ']);
        if c.kind == Kind::OpenBrace && !inside {
            lemma_def_body_inline(e, n, t, i + 1, true, end);
        } else if c.kind == Kind::CloseBrace && inside {
            lemma_def_body_inline(e, n, t, i + 1, false, end);
        } else if c.kind == Kind::Comment && inside {
            let e1 = if last_row == c.start_row { e.print(seq![' ']) } else { e };
            lemma_item_inline(e1, c, t);
            lemma_def_body_inline(crate::layout::fmt_comment(e1, c), n, t, i + 1, inside, end);
        } else if inside {
            let e1 = e.print(seq![' ']);
            lemma_item_inline(e1, c, t);
            lemma_def_body_inline(fmt_node(e1, c, t).unwrap(), n, t, i + 1, inside, end);
        } else {
            lemma_def_body_inline(e, n, t, i + 1, inside, last_row);
        }
    }
}

/// A node instance whose source spans one row, and whose body holds no
/// multi-field object, is laid out on a single line.
pub proof fn lemma_one_liner(e: Emit, n: SyntaxNode, t: Seq<FormattedCode>)
    requires
        n.kind == Kind::Node,
        n.one_row(),
        forall|j: int| 0 <= j < n.len() ==> #[trigger] inline_item(n.child(j)),
        fmt_node(e, n, t) is Ok,
    ensures
        inline_extends(e, fmt_node(e, n, t).unwrap()),
{
    let d = seq!['D', 'E', 'F', ' '];
    let u = seq!['U', 'S', 'E', ' '];
    let sp = seq![' '];
    let ob = seq![' ', '{'];
    let cb = seq!['}'];
    assert(no_break(d));
    assert(no_break(u));
    assert(no_break(sp));
    assert(no_break(ob));
    assert(no_break(cb));
    lemma_nth_named_range(n, 0, 0);
    lemma_nth_named_range(n, 0, 1);
    match def_head(e, n) {
        Ok(None) => {
            let a = crate::layout::nth_named(n, 0, 0).unwrap();
            assert(inline_item(n.child(a)));
            lemma_print_inline(e, u);
            lemma_print_inline(e.print(u), n.child(a).text@);
        },
        Ok(Some(e1)) => {
            if n.child(0).kind == Kind::Def {
                let a = crate::layout::nth_named(n, 0, 0).unwrap();
                let b = crate::layout::nth_named(n, 0, 1).unwrap();
                assert(inline_item(n.child(a)));
                assert(inline_item(n.child(b)));
                let x1 = e.print(d);
                let x2 = x1.print(n.child(a).text@);
                let x3 = x2.print(sp);
                lemma_print_inline(e, d);
                lemma_print_inline(x1, n.child(a).text@);
                lemma_print_inline(x2, sp);
                lemma_print_inline(x3, n.child(b).text@);
            } else {
                let a = crate::layout::nth_named(n, 0, 0).unwrap();
                assert(inline_item(n.child(a)));
                lemma_print_inline(e, n.child(a).text@);
            }
            let e2 = e1.print(ob).push_level();
            lemma_print_inline(e1, ob);
            lemma_def_body_inline(e2, n, t, 0, false, 0);
            let e3 = def_from(e2, n, t, 0, false, 0, true).unwrap();
            let e4 = e3.pop_level();
            lemma_print_inline(e4, sp);
            lemma_print_inline(e4.print(sp), cb);
        },
        Err(_) => {},
    }
}

/// Every column of `w` is at least as wide as in `v`.
pub open spec fn at_least(w: Widths, v: Widths) -> bool {
    w.kind >= v.kind && w.ty >= v.ty && w.name >= v.name && w.value >= v.value
}

/// The columns of `w` hold each of the four parts of `f`, with padding.
pub open spec fn covers(w: Widths, e: Emit, f: SyntaxNode, t: Seq<FormattedCode>) -> bool {
    match (part_width(e, f.child(0), t), part_width(e, f.child(1), t), part_width(e, f.child(2), t), part_width(e, f.child(3), t)) {
        (Ok(a), Ok(b), Ok(c), Ok(d)) => {
            &&& w.kind >= sat(a + e.num_spaces as int)
            &&& w.ty >= sat(b + e.num_spaces as int)
            &&& w.name >= sat(c + e.num_spaces as int)
            &&& w.value >= sat(d + e.num_spaces as int)
        },
        _ => false,
    }
}

proof fn lemma_widths_cover(e: Emit, n: SyntaxNode, t: Seq<FormattedCode>, i: nat, v: Widths)
    requires
        widths_from(e, n, t, i, v) is Ok,
    ensures
        at_least(widths_from(e, n, t, i, v).unwrap(), v),
        forall|j: int|
            i <= j < n.len() && is_field(#[trigger] n.child(j)) ==> covers(widths_from(e, n, t, i, v).unwrap(), e, n.child(j), t),
    decreases n.len() - i,
{
    if i < n.len() {
        let c = n.child(i as int);
        if is_field(c) {
            let v2 = field_widths(e, c, t, v).unwrap();
            lemma_widths_cover(e, n, t, i + 1, v2);
        } else {
            lemma_widths_cover(e, n, t, i + 1, v);
        }
    }
}

/// Within one parameter list, every field whose kind, type and name are
/// one-line tokens has its type start at the indentation plus the width of
/// the kind column, its name one type column further and its value one name
/// column further. The columns depend on the list's widths and the
/// indentation alone, so they are the same for all such fields. The value
/// is then laid out from there.
pub proof fn lemma_alignment(e: Emit, n: SyntaxNode, t: Seq<FormattedCode>, j: int, line: Emit)
    requires
        widths_from(e, n, t, 0, zero_widths()) is Ok,
        0 <= j < n.len(),
        is_field(n.child(j)),
        n.child(j).len() >= 4,
        inline_leaf(n.child(j).child(0)),
        inline_leaf(n.child(j).child(1)),
        inline_leaf(n.child(j).child(2)),
        line.col == line.indent_width(),
        line.indent_width() + widths_from(e, n, t, 0, zero_widths()).unwrap().kind + widths_from(
            e,
            n,
            t,
            0,
            zero_widths(),
        ).unwrap().ty + widths_from(e, n, t, 0, zero_widths()).unwrap().name <= usize::MAX,
        n.child(j).child(0).text@.len() + e.num_spaces <= usize::MAX,
        n.child(j).child(1).text@.len() + e.num_spaces <= usize::MAX,
        n.child(j).child(2).text@.len() + e.num_spaces <= usize::MAX,
    ensures
        ({
            let w = widths_from(e, n, t, 0, zero_widths()).unwrap();
            let f = n.child(j);
            let base = line.indent_width();
            let at_type = line.print(f.child(0).text@).pad_to(type_column(base, w) as int);
            let at_name = at_type.print(f.child(1).text@).pad_to(name_column(base, w) as int);
            let at_value = at_name.print(f.child(2).text@).pad_to(value_column(base, w) as int);
            &&& at_type.col == base + w.kind
            &&& at_name.col == base + w.kind + w.ty
            &&& at_value.col == base + w.kind + w.ty + w.name
            &&& crate::layout::fmt_field(line, f, t, w) == fmt_node(at_value, f.child(3), t)
        }),
{
    let w = widths_from(e, n, t, 0, zero_widths()).unwrap();
    let f = n.child(j);
    lemma_widths_cover(e, n, t, 0, zero_widths());
    assert(covers(w, e, f, t));
    let m = crate::layout::measuring(e);
    assert(m.print(f.child(0).text@).out.len() == f.child(0).text@.len());
    assert(m.print(f.child(1).text@).out.len() == f.child(1).text@.len());
    assert(m.print(f.child(2).text@).out.len() == f.child(2).text@.len());
    assert(part_width(e, f.child(0), t) == Ok::<nat, crate::layout::FormatError>(f.child(0).text@.len()));
    assert(part_width(e, f.child(1), t) == Ok::<nat, crate::layout::FormatError>(f.child(1).text@.len()));
    assert(part_width(e, f.child(2), t) == Ok::<nat, crate::layout::FormatError>(f.child(2).text@.len()));
    let base = line.indent_width();
    assert(sat(base as int) == base);
    assert(fmt_node(line, f.child(0), t) == Ok::<Emit, crate::layout::FormatError>(line.print(f.child(0).text@)));
    let at_type = line.print(f.child(0).text@).pad_to(type_column(base, w) as int);
    assert(fmt_node(at_type, f.child(1), t) == Ok::<Emit, crate::layout::FormatError>(at_type.print(f.child(1).text@)));
    let at_name = at_type.print(f.child(1).text@).pad_to(name_column(base, w) as int);
    assert(fmt_node(at_name, f.child(2), t) == Ok::<Emit, crate::layout::FormatError>(at_name.print(f.child(2).text@)));
}

} // verus!
