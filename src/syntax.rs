//! The concrete syntax tree that the layout engine reads.

use vstd::prelude::*;

verus! {

/// The kinds of syntax node that the layout rules tell apart.
#[derive(Clone, Copy, Debug, PartialEq, Eq, Structural)]
pub enum Kind {
    Document,
    Comment,
    Extern,
    Proto,
    Field,
    Node,
    Property,
    Vector,
    JavascriptBlock,
    JavascriptExpression,
    Code,
    Def,
    Use,
    OpenBracket,
    CloseBracket,
    OpenBrace,
    CloseBrace,
    Comma,
    Error,
    Missing,
    Other,
}

/// A node of the concrete syntax tree, with its verbatim source text.
pub struct SyntaxNode {
    pub kind: Kind,
    /// Named nodes are grammar symbols; anonymous ones are literal tokens.
    pub named: bool,
    /// The node stands in its parent's name field (the name of a PROTO).
    pub is_name: bool,
    pub text: Vec<char>,
    pub start_row: usize,
    pub start_col: usize,
    pub end_row: usize,
    pub children: Vec<SyntaxNode>,
}

impl SyntaxNode {
    pub open spec fn len(self) -> int {
        self.children@.len() as int
    }

    pub open spec fn child(self, i: int) -> SyntaxNode {
        self.children@[i]
    }

    /// The source spans a single row.
    pub open spec fn one_row(self) -> bool {
        self.start_row == self.end_row
    }
}

/// The node is, or holds below it, an error or a missing node.
pub open spec fn contains_error(n: SyntaxNode) -> bool
    decreases n, n.len() + 1,
{
    n.kind == Kind::Error || n.kind == Kind::Missing || error_from(n, 0)
}

/// Some child of `n` at index `i` or later contains an error.
pub open spec fn error_from(n: SyntaxNode, i: int) -> bool
    decreases n, n.len() - i,
{
    if i < 0 || i >= n.len() {
        false
    } else {
        contains_error(n.child(i)) || error_from(n, i + 1)
    }
}

/// Row and column of the first error node, depth first and left to right.
pub open spec fn first_error(n: SyntaxNode) -> Option<(usize, usize)>
    decreases n, n.len() + 1,
{
    if n.kind == Kind::Error {
        Some((n.start_row, n.start_col))
    } else {
        first_error_from(n, 0)
    }
}

pub open spec fn first_error_from(n: SyntaxNode, i: int) -> Option<(usize, usize)>
    decreases n, n.len() - i,
{
    if i < 0 || i >= n.len() {
        None
    } else {
        match first_error(n.child(i)) {
            Some(p) => Some(p),
            None => first_error_from(n, i + 1),
        }
    }
}

/// Whether the tree holds an error or a missing node.
pub fn has_error(n: &SyntaxNode) -> (r: bool)
    ensures
        r == contains_error(*n),
    decreases n, n.len() + 1,
{
    if matches!(n.kind, Kind::Error | Kind::Missing) {
        return true;
    }
    let mut i: usize = 0;
    while i < n.children.len()
        invariant
            i <= n.len(),
            error_from(*n, 0) == error_from(*n, i as int),
        decreases n.len() - i,
    {
        if has_error(&n.children[i]) {
            return true;
        }
        i = i + 1;
    }
    false
}

/// Row and column of the first error node, depth first and left to right.
pub fn find_first_error_node(n: &SyntaxNode) -> (r: Option<(usize, usize)>)
    ensures
        r == first_error(*n),
    decreases n, n.len() + 1,
{
    if n.kind == Kind::Error {
        return Some((n.start_row, n.start_col));
    }
    let mut i: usize = 0;
    while i < n.children.len()
        invariant
            i <= n.len(),
            first_error(*n) == first_error_from(*n, 0),
            first_error_from(*n, 0) == first_error_from(*n, i as int),
        decreases n.len() - i,
    {
        let found = find_first_error_node(&n.children[i]);
        if found.is_some() {
            return found;
        }
        i = i + 1;
    }
    None
}

/// The texts of a sequence of character vectors.
pub open spec fn texts(s: Seq<Vec<char>>) -> Seq<Seq<char>> {
    s.map_values(|v: Vec<char>| v@)
}

/// The texts of the code spans in `n`, depth first and left to right.
pub open spec fn code_texts(n: SyntaxNode) -> Seq<Seq<char>>
    decreases n, n.len() + 1,
{
    (if n.kind == Kind::Code { seq![n.text@] } else { Seq::empty() }) + code_texts_from(n, 0)
}

pub open spec fn code_texts_from(n: SyntaxNode, i: int) -> Seq<Seq<char>>
    decreases n, n.len() - i,
{
    if i < 0 || i >= n.len() {
        Seq::empty()
    } else {
        code_texts(n.child(i)) + code_texts_from(n, i + 1)
    }
}

/// A copy of `s`.
pub fn copy_text(s: &[char]) -> (r: Vec<char>)
    ensures
        r@ == s@,
{
    let mut r: Vec<char> = Vec::new();
    let mut i: usize = 0;
    while i < s.len()
        invariant
            i <= s@.len(),
            r@ == s@.subrange(0, i as int),
        decreases s@.len() - i,
    {
        r.push(s[i]);
        i = i + 1;
        assert(r@ =~= s@.subrange(0, i as int));
    }
    assert(s@.subrange(0, s@.len() as int) =~= s@);
    r
}

/// Appends to `out` the texts of the code spans in `n`, in document order:
/// what the external code formatter is to be run on.
pub fn collect_code(n: &SyntaxNode, out: &mut Vec<Vec<char>>)
    ensures
        texts(final(out)@) == texts(old(out)@) + code_texts(*n),
    decreases n, n.len() + 1,
{
    let ghost start = texts(out@);
    if n.kind == Kind::Code {
        out.push(copy_text(n.text.as_slice()));
        assert(texts(out@) =~= start + seq![n.text@]);
    } else {
        assert(texts(out@) =~= start + Seq::empty());
    }
    let ghost head = texts(out@);
    let mut i: usize = 0;
    while i < n.children.len()
        invariant
            i <= n.len(),
            head == start + (if n.kind == Kind::Code { seq![n.text@] } else { Seq::<Seq<char>>::empty() }),
            texts(out@) + code_texts_from(*n, i as int) == head + code_texts_from(*n, 0),
        decreases n.len() - i,
    {
        let ghost before = texts(out@);
        collect_code(&n.children[i], out);
        assert(code_texts_from(*n, i as int) == code_texts(n.child(i as int)) + code_texts_from(*n, i + 1));
        assert(texts(out@) + code_texts_from(*n, i + 1) =~= before + code_texts_from(*n, i as int));
        i = i + 1;
    }
    assert(code_texts_from(*n, i as int) =~= Seq::empty());
    assert(texts(out@) =~= head + code_texts_from(*n, 0));
    assert(head + code_texts_from(*n, 0) =~= start + code_texts(*n));
}

} // verus!
