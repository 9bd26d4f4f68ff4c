//! The emission state: output text, cursor and indentation.

use vstd::prelude::*;

verus! {

/// Abstract model of the emission state.
pub struct Emit {
    pub out: Seq<char>,
    pub col: nat,
    pub row: nat,
    pub level: nat,
    pub num_spaces: nat,
    pub extra: nat,
}

/// `n` space characters.
pub open spec fn spaces(n: nat) -> Seq<char> {
    Seq::new(n, |i: int| ' ')
}

/// `x`, capped at the largest `usize`.
pub open spec fn sat(x: int) -> nat {
    if x < 0 {
        0
    } else if x > usize::MAX {
        usize::MAX as nat
    } else {
        x as nat
    }
}

impl Emit {
    /// Appends `s`; the column advances by its length.
    pub open spec fn print(self, s: Seq<char>) -> Emit {
        Emit { out: self.out + s, col: self.col + s.len(), ..self }
    }

    /// Appends `s` and a line break; the cursor moves to the next row.
    pub open spec fn println(self, s: Seq<char>) -> Emit {
        Emit { out: self.out + s + seq!['\n'], col: 0, row: self.row + 1, ..self }
    }

    /// Width of the current indentation.
    pub open spec fn indent_width(self) -> nat {
        self.level * self.num_spaces + self.extra
    }

    pub open spec fn indent(self) -> Emit {
        self.print(spaces(self.indent_width()))
    }

    /// Pads with spaces up to column `at`; nothing when already past it.
    pub open spec fn pad_to(self, at: int) -> Emit {
        self.print(spaces(sat(at - self.col)))
    }

    pub open spec fn push_level(self) -> Emit {
        Emit { level: sat(self.level + 1int), ..self }
    }

    pub open spec fn pop_level(self) -> Emit {
        Emit { level: sat(self.level - 1int), ..self }
    }

    pub open spec fn set_level(self, l: nat) -> Emit {
        Emit { level: l, ..self }
    }
}

/// Two prints in a row are one print of the concatenation.
pub proof fn lemma_print_print(e: Emit, a: Seq<char>, b: Seq<char>)
    ensures
        e.print(a).print(b) == e.print(a + b),
{
    assert(e.out + a + b =~= e.out + (a + b));
}

/// The mutable emission state threaded through a formatting run.
pub struct State {
    pub formatted: Vec<char>,
    pub col: usize,
    pub row: usize,
    pub level: usize,
    pub extra_indentation: usize,
    pub num_spaces: usize,
}

impl View for State {
    type V = Emit;

    open spec fn view(&self) -> Emit {
        Emit {
            out: self.formatted@,
            col: self.col as nat,
            row: self.row as nat,
            level: self.level as nat,
            num_spaces: self.num_spaces as nat,
            extra: self.extra_indentation as nat,
        }
    }
}

impl State {
    /// The cursor never stands past what has been written.
    pub open spec fn wf(&self) -> bool {
        &&& self.col <= self.formatted@.len()
        &&& self.row <= self.formatted@.len()
    }

    /// A fresh state with nothing written, at level zero.
    pub fn new(num_spaces: usize) -> (s: State)
        ensures
            s.wf(),
            s@ == (Emit { out: Seq::empty(), col: 0, row: 0, level: 0, num_spaces: num_spaces as nat, extra: 0 }),
    {
        State {
            formatted: Vec::new(),
            col: 0,
            row: 0,
            level: 0,
            extra_indentation: 0,
            num_spaces,
        }
    }

    fn put(&mut self, c: char)
        requires
            old(self).wf(),
        ensures
            final(self).wf(),
            final(self)@ == old(self)@.print(seq![c]),
    {
        self.formatted.push(c);
        let _ = self.formatted.len();
        self.col = self.col + 1;
        assert(self.formatted@ =~= old(self)@.out + seq![c]);
    }

    /// Appends the characters `s[lo..hi]`.
    pub fn print_range(&mut self, s: &[char], lo: usize, hi: usize)
        requires
            old(self).wf(),
            lo <= hi <= s@.len(),
        ensures
            final(self).wf(),
            final(self)@ == old(self)@.print(s@.subrange(lo as int, hi as int)),
    {
        let ghost e0 = self@;
        let mut i: usize = lo;
        while i < hi
            invariant
                lo <= i <= hi <= s@.len(),
                self.wf(),
                self@ == e0.print(s@.subrange(lo as int, i as int)),
            decreases hi - i,
        {
            proof {
                lemma_print_print(e0, s@.subrange(lo as int, i as int), seq![s@[i as int]]);
            }
            self.put(s[i]);
            i = i + 1;
            assert(s@.subrange(lo as int, i as int) =~= s@.subrange(lo as int, i - 1) + seq![s@[i - 1]]);
        }
    }

    pub fn print(&mut self, s: &[char])
        requires
            old(self).wf(),
        ensures
            final(self).wf(),
            final(self)@ == old(self)@.print(s@),
    {
        self.print_range(s, 0, s.len());
        assert(s@.subrange(0, s@.len() as int) =~= s@);
    }

    /// Ends the current line.
    pub fn newline(&mut self)
        requires
            old(self).wf(),
        ensures
            final(self).wf(),
            final(self)@ == old(self)@.println(Seq::empty()),
    {
        self.formatted.push('\n');
        let _ = self.formatted.len();
        self.col = 0;
        self.row = self.row + 1;
        assert(self.formatted@ =~= old(self)@.out + Seq::<char>::empty() + seq!['\n']);
    }

    /// Appends `s[lo..hi]` and ends the line.
    pub fn println_range(&mut self, s: &[char], lo: usize, hi: usize)
        requires
            old(self).wf(),
            lo <= hi <= s@.len(),
        ensures
            final(self).wf(),
            final(self)@ == old(self)@.println(s@.subrange(lo as int, hi as int)),
    {
        self.print_range(s, lo, hi);
        self.newline();
        assert(self.formatted@ =~= old(self)@.out + s@.subrange(lo as int, hi as int) + seq!['\n']);
    }

    pub fn set_level(&mut self, l: usize)
        ensures
            old(self).wf() ==> final(self).wf(),
            final(self)@ == old(self)@.set_level(l as nat),
    {
        self.level = l;
    }

    pub fn println(&mut self, s: &[char])
        requires
            old(self).wf(),
        ensures
            final(self).wf(),
            final(self)@ == old(self)@.println(s@),
    {
        self.print(s);
        self.newline();
        assert(self.formatted@ =~= old(self)@.out + s@ + seq!['\n']);
    }

    fn spaces(&mut self, n: usize)
        requires
            old(self).wf(),
        ensures
            final(self).wf(),
            final(self)@ == old(self)@.print(spaces(n as nat)),
    {
        let ghost e0 = self@;
        let mut i: usize = 0;
        while i < n
            invariant
                i <= n,
                self.wf(),
                self@ == e0.print(spaces(i as nat)),
            decreases n - i,
        {
            proof {
                lemma_print_print(e0, spaces(i as nat), seq![' ']);
            }
            self.put(' ');
            i = i + 1;
            assert(spaces(i as nat) =~= spaces((i - 1) as nat) + seq![' ']);
        }
    }

    /// Writes the indentation of the current level.
    pub fn indent(&mut self)
        requires
            old(self).wf(),
        ensures
            final(self).wf(),
            final(self)@ == old(self)@.indent(),
    {
        let ghost e0 = self@;
        let lv = self.level;
        let ns = self.num_spaces;
        let mut i: usize = 0;
        while i < lv
            invariant
                i <= lv == e0.level,
                ns == e0.num_spaces,
                self.wf(),
                self@ == e0.print(spaces((i * ns) as nat)),
            decreases lv - i,
        {
            proof {
                lemma_print_print(e0, spaces((i * ns) as nat), spaces(ns as nat));
            }
            self.spaces(ns);
            assert((i + 1) * ns == i * ns + ns) by (nonlinear_arith);
            assert(spaces(((i + 1) * ns) as nat) =~= spaces((i * ns) as nat) + spaces(ns as nat));
            i = i + 1;
        }
        let ex = self.extra_indentation;
        proof {
            lemma_print_print(e0, spaces((lv * ns) as nat), spaces(ex as nat));
        }
        self.spaces(ex);
        assert(spaces((lv * ns + ex) as nat) =~= spaces((lv * ns) as nat) + spaces(ex as nat));
    }

    /// The width of the current indentation, capped at the largest `usize`.
    pub fn indent_width(&self) -> (r: usize)
        ensures
            r == sat(self@.indent_width() as int),
    {
        let mut w: usize = 0;
        let mut i: usize = 0;
        while i < self.level
            invariant
                i <= self.level,
                w == sat((i * self.num_spaces) as int),
            decreases self.level - i,
        {
            assert((i + 1) * self.num_spaces == i * self.num_spaces + self.num_spaces) by (nonlinear_arith);
            w = w.saturating_add(self.num_spaces);
            i = i + 1;
        }
        w.saturating_add(self.extra_indentation)
    }

    /// Pads with spaces up to column `at`.
    pub fn pad_to(&mut self, at: usize)
        requires
            old(self).wf(),
        ensures
            final(self).wf(),
            final(self)@ == old(self)@.pad_to(at as int),
    {
        let n = at.saturating_sub(self.col);
        self.spaces(n);
    }

    pub fn push_level(&mut self)
        ensures
            old(self).wf() ==> final(self).wf(),
            final(self)@ == old(self)@.push_level(),
    {
        self.level = self.level.saturating_add(1);
    }

    pub fn pop_level(&mut self)
        ensures
            old(self).wf() ==> final(self).wf(),
            final(self)@ == old(self)@.pop_level(),
    {
        self.level = self.level.saturating_sub(1);
    }
}

} // verus!
