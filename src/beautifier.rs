//! The layout engine: each routine appends to the emission state exactly what
//! the matching rule of `layout` states.

use crate::emit::{lemma_print_print, State};
use crate::layout::{
    code_child, comment_body, emit_lines, extern_from, fmt_code, fmt_comment,
    fmt_extern, lookup, name_child, next_break, nth_named, outcome,
    strip_cr, FormatError, FormattedCode, has_node_child, fmt_node, prop_from, def_head, fmt_def,
    def_from, vec_one_line, fmt_vec, vec_from, measuring, part_width, field_widths,
    widths_from, zero_widths, fmt_field, type_column, name_column, value_column,
    comment_column, header_from, body_from, fmt_proto, Widths, doc_from, beautified, initial,
};
use crate::syntax::{find_first_error_node, has_error, Kind, SyntaxNode};
use crate::text::{range_starts_with, trim_range};
use vstd::prelude::*;

verus! {

/// Whether two texts are equal.
pub fn same_text(a: &[char], b: &[char]) -> (r: bool)
    ensures
        r == (a@ == b@),
{
    if a.len() != b.len() {
        return false;
    }
    let mut i: usize = 0;
    while i < a.len()
        invariant
            i <= a@.len() == b@.len(),
            forall|k: int| 0 <= k < i ==> a@[k] == b@[k],
        decreases a@.len() - i,
    {
        if a[i] != b[i] {
            return false;
        }
        i = i + 1;
    }
    assert(a@ =~= b@);
    true
}

/// Index of the table entry whose source is `code`, the first one if several are.
pub fn lookup_code(t: &Vec<FormattedCode>, code: &[char]) -> (r: Option<usize>)
    ensures
        match r {
            Some(j) => j < t@.len() && lookup(t@, code@, 0) == Some(t@[j as int].formatted@),
            None => lookup(t@, code@, 0) is None,
        },
{
    let mut j: usize = 0;
    while j < t.len()
        invariant
            j <= t@.len(),
            lookup(t@, code@, 0) == lookup(t@, code@, j as int),
        decreases t@.len() - j,
    {
        if same_text(t[j].source.as_slice(), code) {
            return Some(j);
        }
        j = j + 1;
    }
    None
}

/// Index of the `k`-th named child of `n`.
pub fn nth_named_child(n: &SyntaxNode, k: usize) -> (r: Option<usize>)
    ensures
        match r {
            Some(j) => nth_named(*n, 0, k as nat) == Some(j as int) && j < n.len(),
            None => nth_named(*n, 0, k as nat) is None,
        },
{
    let mut i: usize = 0;
    let mut left: usize = k;
    while i < n.children.len()
        invariant
            i <= n.len(),
            nth_named(*n, 0, k as nat) == nth_named(*n, i as int, left as nat),
        decreases n.len() - i,
    {
        if n.children[i].named {
            if left == 0 {
                return Some(i);
            }
            left = left - 1;
        }
        i = i + 1;
    }
    None
}

/// Index of the child that stands in the name field.
pub fn name_child_index(n: &SyntaxNode) -> (r: Option<usize>)
    ensures
        match r {
            Some(k) => name_child(*n, 0) == Some(k as int) && k < n.len(),
            None => name_child(*n, 0) is None,
        },
{
    let mut i: usize = 0;
    while i < n.children.len()
        invariant
            i <= n.len(),
            name_child(*n, 0) == name_child(*n, i as int),
        decreases n.len() - i,
    {
        if n.children[i].is_name {
            return Some(i);
        }
        i = i + 1;
    }
    None
}

/// Index of the first child that is a code span.
pub fn code_child_index(n: &SyntaxNode) -> (r: Option<usize>)
    ensures
        match r {
            Some(k) => code_child(*n, 0) == Some(k as int) && k < n.len(),
            None => code_child(*n, 0) is None,
        },
{
    let mut i: usize = 0;
    while i < n.children.len()
        invariant
            i <= n.len(),
            code_child(*n, 0) == code_child(*n, i as int),
        decreases n.len() - i,
    {
        if n.children[i].kind == Kind::Code {
            return Some(i);
        }
        i = i + 1;
    }
    None
}

/// Whether some child of `n` is a node instance.
pub fn contains_node_child(n: &SyntaxNode) -> (r: bool)
    ensures
        r == has_node_child(*n),
{
    let mut i: usize = 0;
    while i < n.children.len()
        invariant
            i <= n.len(),
            forall|j: int| 0 <= j < i ==> #[trigger] n.child(j).kind != Kind::Node,
        decreases n.len() - i,
    {
        if n.children[i].kind == Kind::Node {
            assert(n.child(i as int).kind == Kind::Node);
            return true;
        }
        i = i + 1;
    }
    false
}

/// Writes a comment, its marker and spacing normalized.
pub fn format_comment(state: &mut State, n: &SyntaxNode)
    requires
        old(state).wf(),
    ensures
        final(state).wf(),
        final(state)@ == fmt_comment(old(state)@, *n),
{
    let text = n.text.as_slice();
    let ghost tx = n.text@;
    assert(tx.subrange(0, tx.len() as int) =~= tx);
    let (a, b) = trim_range(text, 0, text.len());
    let section: [char; 2] = ['#', '#'];
    assert(section@ =~= seq!['#', '#']);
    if range_starts_with(text, a, b, section.as_slice()) {
        state.print_range(text, a, b);
    } else {
        let lo: usize = if text.len() > 0 && text[0] == '#' { 1 } else { 0 };
        assert(lo == 1 ==> tx.subrange(1, tx.len() as int) =~= tx.drop_first());
        let (c, d) = trim_range(text, lo, text.len());
        let ghost body = comment_body(tx);
        assert(text@.subrange(c as int, d as int) == body);
        let ghost e0 = state@;
        let marker: [char; 1] = ['#'];
        let space: [char; 1] = [' '];
        let header: [char; 4] = ['V', 'R', 'M', 'L'];
        assert(marker@ =~= seq!['#']);
        assert(space@ =~= seq![' ']);
        assert(header@ =~= seq!['V', 'R', 'M', 'L']);
        state.print(marker.as_slice());
        if !range_starts_with(text, c, d, header.as_slice()) {
            state.print(space.as_slice());
            proof {
                lemma_print_print(e0, seq!['#'], seq![' ']);
                lemma_print_print(e0, seq!['#'] + seq![' '], body);
                assert(seq!['#'] + seq![' '] =~= seq!['#', ' ']);
            }
        } else {
            proof {
                lemma_print_print(e0, seq!['#'], body);
            }
        }
        state.print_range(text, c, d);
    }
}

/// Writes an extern declaration: its tokens separated by single spaces.
pub fn format_extern(state: &mut State, n: &SyntaxNode)
    requires
        old(state).wf(),
    ensures
        final(state).wf(),
        final(state)@ == fmt_extern(old(state)@, *n),
{
    let space: [char; 1] = [' '];
    assert(space@ =~= seq![' ']);
    let mut i: usize = 0;
    while i < n.children.len()
        invariant
            i <= n.len(),
            state.wf(),
            space@ == seq![' '],
            fmt_extern(old(state)@, *n) == extern_from(state@, *n, i as nat),
        decreases n.len() - i,
    {
        if i != 0 {
            state.print(space.as_slice());
        }
        state.print(n.children[i].text.as_slice());
        i = i + 1;
    }
}

/// Writes each line of `s[lo..hi]` on an indented line of its own.
pub fn emit_code_lines(state: &mut State, s: &[char], lo: usize, hi: usize)
    requires
        old(state).wf(),
        lo <= hi <= s@.len(),
    ensures
        final(state).wf(),
        final(state)@ == emit_lines(old(state)@, s@, lo as int, hi as int),
{
    let mut i: usize = lo;
    while i < hi
        invariant
            lo <= i <= hi <= s@.len(),
            state.wf(),
            emit_lines(old(state)@, s@, lo as int, hi as int) == emit_lines(state@, s@, i as int, hi as int),
        decreases hi - i,
    {
        let mut k: usize = i;
        while k < hi && s[k] != '\n'
            invariant
                i <= k <= hi <= s@.len(),
                next_break(s@, i as int, hi as int) == next_break(s@, k as int, hi as int),
            decreases hi - k,
        {
            k = k + 1;
        }
        let mut m: usize = k;
        if m > i && s[m - 1] == '\r' {
            m = m - 1;
        }
        assert(strip_cr(s@.subrange(i as int, k as int)) =~= s@.subrange(i as int, m as int));
        state.indent();
        state.println_range(s, i, m);
        if k < hi {
            i = k + 1;
        } else {
            i = hi;
        }
    }
}

/// Writes an embedded code block, its code replaced by the formatted text
/// that `t` holds for it.
pub fn format_code(state: &mut State, n: &SyntaxNode, t: &Vec<FormattedCode>) -> (r: Result<(), FormatError>)
    requires
        old(state).wf(),
    ensures
        final(state).wf(),
        outcome(r, final(state)@) == fmt_code(old(state)@, *n, t@),
{
    if n.children.len() == 0 {
        return Err(FormatError::MissingToken { row: n.start_row, col: n.start_col });
    }
    let ci = match code_child_index(n) {
        None => {
            return Err(FormatError::MissingToken { row: n.start_row, col: n.start_col });
        },
        Some(ci) => ci,
    };
    let j = match lookup_code(t, n.children[ci].text.as_slice()) {
        None => {
            return Err(FormatError::UnformattedCode { row: n.start_row, col: n.start_col });
        },
        Some(j) => j,
    };
    let f = t[j].formatted.as_slice();
    assert(f@.subrange(0, f@.len() as int) =~= f@);
    let (a, b) = trim_range(f, 0, f.len());
    let opener = n.children[0].text.as_slice();
    let space: [char; 1] = [' '];
    let closer: [char; 2] = ['>', '%'];
    let spaced_closer: [char; 3] = [' ', '>', '%'];
    assert(space@ =~= seq![' ']);
    assert(closer@ =~= seq!['>', '%']);
    assert(spaced_closer@ =~= seq![' ', '>', '%']);
    if n.start_row == n.end_row {
        state.print(opener);
        state.print(space.as_slice());
        state.print_range(f, a, b);
        state.print(spaced_closer.as_slice());
    } else {
        state.println(opener);
        state.push_level();
        emit_code_lines(state, f, a, b);
        state.pop_level();
        state.indent();
        state.print(closer.as_slice());
    }
    Ok(())
}

/// Lays out one node, dispatching on its kind; unknown kinds are verbatim.
pub fn format_node(state: &mut State, n: &SyntaxNode, t: &Vec<FormattedCode>) -> (r: Result<(), FormatError>)
    requires
        old(state).wf(),
    ensures
        final(state).wf(),
        outcome(r, final(state)@) == fmt_node(old(state)@, *n, t@),
    decreases n, n.len() + 3,
{
    match n.kind {
        Kind::Node => format_node_def(state, n, t),
        Kind::Comment => {
            format_comment(state, n);
            Ok(())
        },
        Kind::Extern => {
            format_extern(state, n);
            Ok(())
        },
        Kind::Property => format_property(state, n, t),
        Kind::Proto => format_proto(state, n, t),
        Kind::Vector => format_vector(state, n, t),
        Kind::JavascriptBlock | Kind::JavascriptExpression => format_code(state, n, t),
        _ => {
            state.print(n.text.as_slice());
            Ok(())
        },
    }
}

/// A property: its children separated by single spaces.
pub fn format_property(state: &mut State, n: &SyntaxNode, t: &Vec<FormattedCode>) -> (r: Result<(), FormatError>)
    requires
        old(state).wf(),
    ensures
        final(state).wf(),
        outcome(r, final(state)@) == prop_from(old(state)@, *n, t@, 0),
    decreases n, n.len() + 2,
{
    let space: [char; 1] = [' '];
    assert(space@ =~= seq![' ']);
    let mut i: usize = 0;
    while i < n.children.len()
        invariant
            i <= n.len(),
            state.wf(),
            space@ == seq![' '],
            prop_from(old(state)@, *n, t@, 0) == prop_from(state@, *n, t@, i as nat),
        decreases n.len() - i,
    {
        if i != 0 {
            state.print(space.as_slice());
        }
        match format_node(state, &n.children[i], t) {
            Err(x) => {
                return Err(x);
            },
            Ok(_) => {},
        }
        i = i + 1;
    }
    Ok(())
}

/// A node instance: `DEF name Type { ... }`, `USE name` or `Type { ... }`, its
/// body inline when its source spans one row.
pub fn format_node_def(state: &mut State, n: &SyntaxNode, t: &Vec<FormattedCode>) -> (r: Result<(), FormatError>)
    requires
        old(state).wf(),
    ensures
        final(state).wf(),
        outcome(r, final(state)@) == fmt_def(old(state)@, *n, t@),
    decreases n, n.len() + 2,
{
    let ghost e0 = state@;
    if n.children.len() == 0 {
        return Err(FormatError::MissingToken { row: n.start_row, col: n.start_col });
    }
    let space: [char; 1] = [' '];
    assert(space@ =~= seq![' ']);
    let first = n.children[0].kind;
    if first == Kind::Def {
        let a = nth_named_child(n, 0);
        let b = nth_named_child(n, 1);
        if a.is_none() || b.is_none() {
            return Err(FormatError::MissingToken { row: n.start_row, col: n.start_col });
        }
        let a = a.unwrap();
        let b = b.unwrap();
        let def_kw: [char; 4] = ['D', 'E', 'F', ' '];
        assert(def_kw@ =~= seq!['D', 'E', 'F', ' ']);
        state.print(def_kw.as_slice());
        state.print(n.children[a].text.as_slice());
        state.print(space.as_slice());
        state.print(n.children[b].text.as_slice());
    } else {
        let a = match nth_named_child(n, 0) {
            None => {
                return Err(FormatError::MissingToken { row: n.start_row, col: n.start_col });
            },
            Some(a) => a,
        };
        if first == Kind::Use {
            let use_kw: [char; 4] = ['U', 'S', 'E', ' '];
            assert(use_kw@ =~= seq!['U', 'S', 'E', ' ']);
            state.print(use_kw.as_slice());
            state.print(n.children[a].text.as_slice());
            return Ok(());
        }
        state.print(n.children[a].text.as_slice());
    }
    assert(def_head(e0, *n) == Ok::<Option<crate::emit::Emit>, FormatError>(Some(state@)));
    let open: [char; 2] = [' ', '{'];
    assert(open@ =~= seq![' ', '{']);
    state.print(open.as_slice());
    state.push_level();
    let one_line = n.start_row == n.end_row;
    let ghost target = def_from(state@, *n, t@, 0, false, 0, one_line);
    assert(target is Err ==> fmt_def(e0, *n, t@) == target);
    let mut i: usize = 0;
    let mut inside = false;
    let mut last_row: usize = 0;
    while i < n.children.len()
        invariant
            i <= n.len(),
            state.wf(),
            space@ == seq![' '],
            one_line == n.one_row(),
            e0 == old(state)@,
            target is Err ==> fmt_def(e0, *n, t@) == target,
            def_from(state@, *n, t@, i as nat, inside, last_row as nat, one_line) == target,
        decreases n.len() - i,
    {
        let c = &n.children[i];
        if c.kind == Kind::OpenBrace && !inside {
            inside = true;
            last_row = c.end_row;
        } else if c.kind == Kind::CloseBrace && inside {
            inside = false;
            last_row = c.end_row;
        } else if c.kind == Kind::Comment && inside {
            if !one_line && last_row != c.start_row {
                state.newline();
                state.indent();
            } else if last_row == c.start_row {
                state.print(space.as_slice());
            }
            format_comment(state, c);
            last_row = c.end_row;
        } else if inside {
            if !one_line {
                state.newline();
                state.indent();
            } else {
                state.print(space.as_slice());
            }
            match format_node(state, c, t) {
                Err(x) => {
                    return Err(x);
                },
                Ok(_) => {},
            }
            last_row = c.end_row;
        }
        i = i + 1;
    }
    state.pop_level();
    if one_line {
        state.print(space.as_slice());
    } else {
        state.newline();
        state.indent();
    }
    let close: [char; 1] = ['}'];
    assert(close@ =~= seq!['}']);
    state.print(close.as_slice());
    Ok(())
}

/// A vector literal, inline when its source spans one row and it holds no
/// node instance, else one element per line.
pub fn format_vector(state: &mut State, n: &SyntaxNode, t: &Vec<FormattedCode>) -> (r: Result<(), FormatError>)
    requires
        old(state).wf(),
    ensures
        final(state).wf(),
        outcome(r, final(state)@) == fmt_vec(old(state)@, *n, t@),
    decreases n, n.len() + 2,
{
    let one_line = n.start_row == n.end_row && !contains_node_child(n);
    let space: [char; 1] = [' '];
    let open: [char; 1] = ['['];
    let close: [char; 1] = [']'];
    let spaced_close: [char; 2] = [' ', ']'];
    let comma: [char; 1] = [','];
    assert(space@ =~= seq![' ']);
    assert(open@ =~= seq!['[']);
    assert(close@ =~= seq![']']);
    assert(spaced_close@ =~= seq![' ', ']']);
    assert(comma@ =~= seq![',']);
    let mut i: usize = 0;
    let mut after_self = true;
    let mut last_end: usize = n.end_row;
    let mut brackets = false;
    while i < n.children.len()
        invariant
            i <= n.len(),
            state.wf(),
            space@ == seq![' '],
            open@ == seq!['['],
            close@ == seq![']'],
            spaced_close@ == seq![' ', ']'],
            comma@ == seq![','],
            one_line == vec_one_line(*n),
            fmt_vec(old(state)@, *n, t@) == vec_from(state@, *n, t@, i as nat, one_line, after_self, last_end as nat, brackets),
        decreases n.len() - i,
    {
        let c = &n.children[i];
        if c.kind == Kind::OpenBracket {
            state.print(open.as_slice());
            if !one_line {
                state.push_level();
            }
            after_self = true;
            last_end = n.end_row;
            brackets = true;
        } else {
            if c.kind == Kind::CloseBracket {
                if one_line {
                    state.print(spaced_close.as_slice());
                } else {
                    state.pop_level();
                    state.newline();
                    state.indent();
                    state.print(close.as_slice());
                }
            } else if c.kind == Kind::Comma {
                state.print(comma.as_slice());
            } else if c.kind == Kind::Comment {
                if last_end != c.start_row {
                    state.newline();
                    state.indent();
                } else {
                    state.print(space.as_slice());
                }
                format_comment(state, c);
            } else {
                if one_line && (brackets || !after_self) {
                    state.print(space.as_slice());
                } else if !one_line {
                    state.newline();
                    state.indent();
                }
                match format_node(state, c, t) {
                    Err(x) => {
                        return Err(x);
                    },
                    Ok(_) => {},
                }
            }
            after_self = false;
            last_end = c.end_row;
        }
        i = i + 1;
    }
    Ok(())
}

/// Length of the text a field part is laid out as, measured in isolation.
/// Everything but the written text is put back afterwards.
pub fn measure_part(state: &mut State, p: &SyntaxNode, t: &Vec<FormattedCode>) -> (r: Result<usize, FormatError>)
    requires
        old(state).wf(),
    ensures
        final(state).wf(),
        final(state).level == old(state).level,
        final(state).num_spaces == old(state).num_spaces,
        final(state).extra_indentation == old(state).extra_indentation,
        match r {
            Ok(l) => part_width(old(state)@, *p, t@) == Ok::<nat, FormatError>(l as nat),
            Err(x) => part_width(old(state)@, *p, t@) == Err::<nat, FormatError>(x),
        },
    decreases p, p.len() + 4,
{
    let level = state.level;
    let num_spaces = state.num_spaces;
    let extra = state.extra_indentation;
    state.formatted = Vec::new();
    state.col = 0;
    state.row = 0;
    assert(state@ == measuring(old(state)@));
    let r = format_node(state, p, t);
    let len = state.formatted.len();
    state.level = level;
    state.num_spaces = num_spaces;
    state.extra_indentation = extra;
    match r {
        Ok(_) => Ok(len),
        Err(x) => Err(x),
    }
}

/// `w` merged with the widths of one field's four parts.
pub fn measure_field(state: &mut State, f: &SyntaxNode, t: &Vec<FormattedCode>, w: Widths) -> (r: Result<Widths, FormatError>)
    requires
        old(state).wf(),
    ensures
        final(state).wf(),
        final(state).level == old(state).level,
        final(state).num_spaces == old(state).num_spaces,
        final(state).extra_indentation == old(state).extra_indentation,
        match r {
            Ok(v) => field_widths(old(state)@, *f, t@, w) == Ok::<Widths, FormatError>(v),
            Err(x) => field_widths(old(state)@, *f, t@, w) == Err::<Widths, FormatError>(x),
        },
    decreases f, f.len() + 2,
{
    let ghost e0 = state@;
    if f.children.len() < 4 {
        return Err(FormatError::MalformedField { row: f.start_row, col: f.start_col });
    }
    let a = measure_part(state, &f.children[0], t);
    assert(measuring(state@) == measuring(e0));
    let b = measure_part(state, &f.children[1], t);
    assert(measuring(state@) == measuring(e0));
    let c = measure_part(state, &f.children[2], t);
    assert(measuring(state@) == measuring(e0));
    let d = measure_part(state, &f.children[3], t);
    assert(measuring(state@) == measuring(e0));
    match (a, b, c, d) {
        (Ok(a), Ok(b), Ok(c), Ok(d)) => {
            let pad = state.num_spaces;
            Ok(Widths {
                kind: max_usize(w.kind, a.saturating_add(pad)),
                ty: max_usize(w.ty, b.saturating_add(pad)),
                name: max_usize(w.name, c.saturating_add(pad)),
                value: max_usize(w.value, d.saturating_add(pad)),
            })
        },
        (Err(x), _, _, _) => Err(x),
        (_, Err(x), _, _) => Err(x),
        (_, _, Err(x), _) => Err(x),
        (_, _, _, Err(x)) => Err(x),
    }
}

fn max_usize(a: usize, b: usize) -> (r: usize)
    ensures
        r == if a >= b { a } else { b },
{
    if a >= b { a } else { b }
}

/// The column widths of a parameter list, measured over its fields. The
/// state is left as it was.
pub fn field_sizes(state: &mut State, n: &SyntaxNode, t: &Vec<FormattedCode>) -> (r: Result<Widths, FormatError>)
    requires
        old(state).wf(),
    ensures
        final(state).wf(),
        r is Ok ==> final(state)@ == old(state)@,
        match r {
            Ok(v) => widths_from(old(state)@, *n, t@, 0, zero_widths()) == Ok::<Widths, FormatError>(v),
            Err(x) => widths_from(old(state)@, *n, t@, 0, zero_widths()) == Err::<Widths, FormatError>(x),
        },
    decreases n, n.len() + 1,
{
    let ghost e0 = state@;
    let mut saved: Vec<char> = Vec::new();
    std::mem::swap(&mut saved, &mut state.formatted);
    let col = state.col;
    let row = state.row;
    state.col = 0;
    state.row = 0;
    let mut w = Widths { kind: 0, ty: 0, name: 0, value: 0 };
    let mut i: usize = 0;
    while i < n.children.len()
        invariant
            i <= n.len(),
            state.wf(),
            measuring(state@) == measuring(e0),
            e0 == old(state)@,
            widths_from(e0, *n, t@, 0, zero_widths()) == widths_from(e0, *n, t@, i as nat, w),
        decreases n.len() - i,
    {
        let c = &n.children[i];
        if c.named && c.kind == Kind::Field {
            let ghost before = state@;
            match measure_field(state, c, t, w) {
                Err(x) => {
                    assert(field_widths(before, *c, t@, w) == field_widths(e0, *c, t@, w));
                    return Err(x);
                },
                Ok(v) => {
                    assert(field_widths(before, *c, t@, w) == field_widths(e0, *c, t@, w));
                    w = v;
                },
            }
        }
        i = i + 1;
    }
    state.formatted = saved;
    state.col = col;
    state.row = row;
    assert(state@ == e0);
    Ok(w)
}

/// One field, its parts padded to the columns of `w`. The cursor stands at
/// the indentation of a fresh line.
pub fn format_field(state: &mut State, f: &SyntaxNode, t: &Vec<FormattedCode>, w: Widths) -> (r: Result<(), FormatError>)
    requires
        old(state).wf(),
    ensures
        final(state).wf(),
        outcome(r, final(state)@) == fmt_field(old(state)@, *f, t@, w),
    decreases f, f.len() + 2,
{
    if f.children.len() < 4 {
        return Err(FormatError::MalformedField { row: f.start_row, col: f.start_col });
    }
    let base = state.indent_width();
    let type_at = base.saturating_add(w.kind);
    let name_at = type_at.saturating_add(w.ty);
    let value_at = name_at.saturating_add(w.name);
    assert(type_at == type_column(base as nat, w));
    assert(name_at == name_column(base as nat, w));
    assert(value_at == value_column(base as nat, w));
    match format_node(state, &f.children[0], t) {
        Err(x) => {
            return Err(x);
        },
        Ok(_) => {},
    }
    state.pad_to(type_at);
    match format_node(state, &f.children[1], t) {
        Err(x) => {
            return Err(x);
        },
        Ok(_) => {},
    }
    state.pad_to(name_at);
    match format_node(state, &f.children[2], t) {
        Err(x) => {
            return Err(x);
        },
        Ok(_) => {},
    }
    state.pad_to(value_at);
    format_node(state, &f.children[3], t)
}

/// The parameter list of a PROTO, between its brackets.
fn format_header(state: &mut State, n: &SyntaxNode, t: &Vec<FormattedCode>, w: Widths) -> (r: Result<(), FormatError>)
    requires
        old(state).wf(),
    ensures
        final(state).wf(),
        outcome(r, final(state)@) == header_from(old(state)@, *n, t@, w, 0, false, 0),
    decreases n, n.len() + 1,
{
    let mut i: usize = 0;
    let mut inside = false;
    let mut last_line: usize = 0;
    while i < n.children.len()
        invariant
            i <= n.len(),
            state.wf(),
            header_from(old(state)@, *n, t@, w, 0, false, 0) == header_from(state@, *n, t@, w, i as nat, inside, last_line as nat),
        decreases n.len() - i,
    {
        let c = &n.children[i];
        if c.kind == Kind::OpenBracket && !inside {
            inside = true;
        } else if c.kind == Kind::CloseBracket && inside {
            inside = false;
        } else if c.kind == Kind::Field && inside {
            state.newline();
            state.indent();
            match format_field(state, c, t, w) {
                Err(x) => {
                    return Err(x);
                },
                Ok(_) => {},
            }
            last_line = c.end_row;
        } else if c.kind == Kind::Comment && inside {
            if c.start_row != last_line {
                state.newline();
                state.indent();
            } else {
                let base = state.indent_width();
                let at = base.saturating_add(w.kind).saturating_add(w.ty).saturating_add(w.name).saturating_add(w.value);
                assert(at == comment_column(base as nat, w));
                state.pad_to(at);
            }
            format_comment(state, c);
            last_line = c.end_row;
        }
        i = i + 1;
    }
    Ok(())
}

/// The body of a PROTO, one entry per line.
fn format_body(state: &mut State, n: &SyntaxNode, t: &Vec<FormattedCode>) -> (r: Result<(), FormatError>)
    requires
        old(state).wf(),
    ensures
        final(state).wf(),
        outcome(r, final(state)@) == body_from(old(state)@, *n, t@, 0, false),
    decreases n, n.len() + 1,
{
    let mut i: usize = 0;
    let mut inside = false;
    while i < n.children.len()
        invariant
            i <= n.len(),
            state.wf(),
            body_from(old(state)@, *n, t@, 0, false) == body_from(state@, *n, t@, i as nat, inside),
        decreases n.len() - i,
    {
        let c = &n.children[i];
        if c.kind == Kind::OpenBrace && !inside {
            inside = true;
        } else if inside && (c.kind == Kind::Node || c.kind == Kind::Comment || c.kind == Kind::JavascriptBlock) {
            match format_node(state, c, t) {
                Err(x) => {
                    return Err(x);
                },
                Ok(_) => {},
            }
            state.newline();
        }
        i = i + 1;
    }
    Ok(())
}

/// A PROTO declaration: its name, its aligned parameter list and its body.
pub fn format_proto(state: &mut State, n: &SyntaxNode, t: &Vec<FormattedCode>) -> (r: Result<(), FormatError>)
    requires
        old(state).wf(),
    ensures
        final(state).wf(),
        outcome(r, final(state)@) == fmt_proto(old(state)@, *n, t@),
    decreases n, n.len() + 2,
{
    let ni = match name_child_index(n) {
        None => {
            return Err(FormatError::MissingToken { row: n.start_row, col: n.start_col });
        },
        Some(ni) => ni,
    };
    let ghost e0 = state@;
    let w = match field_sizes(state, n, t) {
        Err(x) => {
            return Err(x);
        },
        Ok(w) => w,
    };
    let head: [char; 6] = ['P', 'R', 'O', 'T', 'O', ' '];
    let open: [char; 2] = [' ', '['];
    let close: [char; 1] = [']'];
    let brace_open: [char; 1] = ['{'];
    let brace_close: [char; 1] = ['}'];
    assert(head@ =~= seq!['P', 'R', 'O', 'T', 'O', ' ']);
    assert(open@ =~= seq![' ', '[']);
    assert(close@ =~= seq![']']);
    assert(brace_open@ =~= seq!['{']);
    assert(brace_close@ =~= seq!['}']);
    state.print(head.as_slice());
    state.print(n.children[ni].text.as_slice());
    state.print(open.as_slice());
    state.set_level(1);
    let ghost e1 = state@;
    assert(widths_from(e0, *n, t@, 0, zero_widths()) == Ok::<Widths, FormatError>(w));
    assert(name_child(*n, 0) == Some(ni as int));
    assert(e1 == e0.print(seq!['P', 'R', 'O', 'T', 'O', ' ']).print(n.child(ni as int).text@).print(seq![' ', '[']).set_level(1));
    match format_header(state, n, t, w) {
        Err(x) => {
            return Err(x);
        },
        Ok(_) => {},
    }
    state.newline();
    state.println(close.as_slice());
    state.println(brace_open.as_slice());
    state.set_level(0);
    match format_body(state, n, t) {
        Err(x) => {
            return Err(x);
        },
        Ok(_) => {},
    }
    state.print(brace_close.as_slice());
    Ok(())
}

/// The top-level declarations of a document, with the blank-line policy
/// between them.
pub fn format_document(state: &mut State, n: &SyntaxNode, t: &Vec<FormattedCode>) -> (r: Result<(), FormatError>)
    requires
        old(state).wf(),
    ensures
        final(state).wf(),
        outcome(r, final(state)@) == doc_from(old(state)@, *n, t@, 0, true, n.kind, n.end_row as nat),
{
    let space: [char; 1] = [' '];
    assert(space@ =~= seq![' ']);
    let mut i: usize = 0;
    let mut after_self = true;
    let mut last_kind = n.kind;
    let mut last_end: usize = n.end_row;
    while i < n.children.len()
        invariant
            i <= n.len(),
            state.wf(),
            space@ == seq![' '],
            doc_from(old(state)@, *n, t@, 0, true, n.kind, n.end_row as nat) == doc_from(
                state@,
                *n,
                t@,
                i as nat,
                after_self,
                last_kind,
                last_end as nat,
            ),
        decreases n.len() - i,
    {
        let c = &n.children[i];
        if c.kind == Kind::Comment {
            if last_end == c.start_row {
                state.print(space.as_slice());
            } else if !after_self && c.start_row > last_end && c.start_row - last_end > 1 {
                state.newline();
            }
            format_comment(state, c);
            state.newline();
        } else if c.kind == Kind::Extern {
            if !after_self && (last_kind == Kind::Comment || (c.start_row > last_end && c.start_row - last_end > 1)) {
                state.newline();
            }
            format_extern(state, c);
            state.newline();
        } else {
            state.newline();
            match format_node(state, c, t) {
                Err(x) => {
                    return Err(x);
                },
                Ok(_) => {},
            }
        }
        after_self = false;
        last_kind = c.kind;
        last_end = c.end_row;
        i = i + 1;
    }
    Ok(())
}

/// Formats a whole document. `t` holds, for each embedded code block, what
/// the external code formatter made of it. A tree that holds an error node
/// is rejected, and no text is returned.
pub fn beautify(root: &SyntaxNode, t: &Vec<FormattedCode>) -> (r: Result<Vec<char>, FormatError>)
    ensures
        match r {
            Ok(v) => beautified(*root, t@) == Ok::<Seq<char>, FormatError>(v@),
            Err(x) => beautified(*root, t@) == Err::<Seq<char>, FormatError>(x),
        },
{
    if has_error(root) {
        return match find_first_error_node(root) {
            Some(p) => Err(FormatError::Syntax { row: p.0, col: p.1 }),
            None => Err(FormatError::UnlocatedSyntax),
        };
    }
    let mut state = State::new(2);
    assert(state@ == initial());
    match format_document(&mut state, root, t) {
        Err(x) => {
            return Err(x);
        },
        Ok(_) => {},
    }
    state.newline();
    Ok(state.formatted)
}

} // verus!
