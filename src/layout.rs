//! What printing means: the text that a document lays out to, stated over the
//! document tree itself.
use crate::doc::Doc;
use crate::measure::text_width;
use crate::options::{IndentKind, LineBreak, PrintOptions};
use std::rc::Rc;
use vstd::prelude::*;

verus! {

/// Whether a subtree is laid out on one line or may break.
#[derive(Clone, Copy, Debug, PartialEq, Eq, Structural)]
pub enum Mode {
    Flat,
    Break,
}

/// A pending piece of work: a document with its indentation and mode.
pub struct Task {
    pub indent: usize,
    pub mode: Mode,
    pub doc: Doc,
}

/// What laying out some work produced: the text, the column where it ended,
/// and whether every column reached stayed within the width.
pub struct Rendered {
    pub out: Seq<char>,
    pub cols: usize,
    pub fits: bool,
}

/// Where a look-ahead stands: still going at a column, or decided.
pub enum Scan {
    Go(nat),
    Stop(bool),
}

/// `a + b`, held at `usize::MAX`.
pub open spec fn sat_add(a: usize, b: int) -> usize {
    if a + b > usize::MAX {
        usize::MAX
    } else {
        (a + b) as usize
    }
}

/// `n` copies of `c`.
pub open spec fn repeat(c: char, n: nat) -> Seq<char> {
    Seq::new(n, |_i: int| c)
}

/// The characters of a line break.
pub open spec fn eol(lb: LineBreak) -> Seq<char> {
    match lb {
        LineBreak::Lf => seq!['\n'],
        LineBreak::Crlf => seq!['\r', '\n'],
    }
}

/// The characters that indent a line by `n` columns.
pub open spec fn pad(kind: IndentKind, tab_size: usize, n: usize) -> Seq<char> {
    match kind {
        IndentKind::Space => repeat(' ', n as nat),
        IndentKind::Tab => repeat('\t', (n / tab_size) as nat) + repeat(' ', (n % tab_size) as nat),
    }
}

/// A line break followed by indentation to column `n`.
pub open spec fn new_line(o: PrintOptions, n: usize) -> Seq<char> {
    eol(o.line_break) + pad(o.indent_kind, o.tab_size, n)
}

pub open spec fn empty_rendered(cols: usize) -> Rendered {
    Rendered { out: Seq::empty(), cols, fits: true }
}

/// `a` followed by `b`.
pub open spec fn then(a: Rendered, b: Rendered) -> Rendered {
    Rendered { out: a.out + b.out, cols: b.cols, fits: a.fits && b.fits }
}

/// The tasks for the documents `s[j..]`, all with `indent` and `mode`, in
/// stack order: `s[j]` is the last element, the one taken next.
pub open spec fn stack_of(s: Seq<Rc<Doc>>, j: int, indent: usize, mode: Mode) -> Seq<Task> {
    Seq::new(
        (s.len() - j) as nat,
        |k: int| Task { indent, mode, doc: *s[s.len() - 1 - k] },
    )
}

/// The inner work of a nest, with the indentation raised.
pub open spec fn nest_inner(t: Task) -> Task {
    match t.doc {
        Doc::Nest(k, d) => Task { indent: sat_add(t.indent, k as int), mode: t.mode, doc: *d },
        _ => t,
    }
}

/// The first (`first`) or second document of an alternative or a union,
/// with the indentation and mode of `t`.
pub open spec fn branch(t: Task, first: bool) -> Task {
    match t.doc {
        Doc::Alt(f, b) => Task { indent: t.indent, mode: t.mode, doc: if first { *f } else { *b } },
        Doc::Union(a, b) => Task { indent: t.indent, mode: t.mode, doc: if first { *a } else { *b } },
        _ => t,
    }
}

/// The task for the document `s[j]`.
pub open spec fn item_task(s: Seq<Rc<Doc>>, j: int, indent: usize, mode: Mode) -> Task {
    Task { indent, mode, doc: *s[j] }
}

/// Lays out task `t` from column `col`; `rest` is the work that follows it
/// (in stack order), which a group consults when it decides to go flat.
pub open spec fn lay_task(o: PrintOptions, t: Task, rest: Seq<Task>, col: usize) -> Rendered
    decreases t.doc,
{
    match t.doc {
        Doc::Nil => empty_rendered(col),
        Doc::Alt(f, b) => {
            let d = if t.mode == Mode::Flat {
                *f
            } else {
                *b
            };
            lay_task(o, Task { doc: d, ..t }, rest, col)
        },
        Doc::Union(a, b) => {
            let r = lay_task(o, Task { doc: *a, ..t }, Seq::empty(), col);
            if r.fits {
                r
            } else {
                lay_task(o, Task { doc: *b, ..t }, rest, col)
            }
        },
        Doc::Nest(k, d) => lay_task(o, Task { indent: sat_add(t.indent, k as int), doc: *d, ..t }, rest, col),
        Doc::Text(s) => {
            let c = sat_add(col, text_width(o.measure, s@) as int);
            Rendered { out: s@, cols: c, fits: c <= o.width }
        },
        Doc::NewLine => Rendered {
            out: new_line(o, t.indent),
            cols: t.indent,
            fits: t.indent <= o.width,
        },
        Doc::EmptyLine => Rendered { out: eol(o.line_break), cols: col, fits: true },
        Doc::Break(spaces, offset) => {
            if t.mode == Mode::Flat {
                let c = sat_add(col, spaces as int);
                Rendered { out: repeat(' ', spaces as nat), cols: c, fits: c <= o.width }
            } else {
                let c = sat_add(t.indent, offset as int);
                Rendered { out: new_line(o, c), cols: c, fits: c <= o.width }
            }
        },
        Doc::Group(v) => {
            let m = if t.mode == Mode::Flat {
                Mode::Flat
            } else if fits(o, stack_of(v@, 0, t.indent, Mode::Flat), rest, col as nat) {
                Mode::Flat
            } else {
                Mode::Break
            };
            lay_list(o, v@, 0, t.indent, m, rest, col)
        },
        Doc::List(v) => lay_list(o, v@, 0, t.indent, t.mode, rest, col),
    }
}

/// Lays out the documents `s[j..]` one after the other, followed by `rest`.
pub open spec fn lay_list(
    o: PrintOptions,
    s: Seq<Rc<Doc>>,
    j: int,
    indent: usize,
    mode: Mode,
    rest: Seq<Task>,
    col: usize,
) -> Rendered
    decreases s, s.len() - j,
{
    if 0 <= j < s.len() {
        let r = lay_task(
            o,
            item_task(s, j, indent, mode),
            rest + stack_of(s, j + 1, indent, mode),
            col,
        );
        then(r, lay_list(o, s, j + 1, indent, mode, rest, r.cols))
    } else {
        empty_rendered(col)
    }
}

/// Lays out a whole stack of tasks, the last one first.
pub open spec fn lay_stack(o: PrintOptions, tasks: Seq<Task>, col: usize) -> Rendered
    decreases tasks.len(),
{
    if tasks.len() == 0 {
        empty_rendered(col)
    } else {
        let r = lay_task(o, tasks.last(), tasks.drop_last(), col);
        then(r, lay_stack(o, tasks.drop_last(), r.cols))
    }
}

/// The layout of a whole document, which starts in break mode at column 0.
pub open spec fn layout(o: PrintOptions, d: Doc) -> Seq<char> {
    lay_task(o, Task { indent: 0, mode: Mode::Break, doc: d }, Seq::empty(), 0).out
}

/// `Stop(false)` once the column passes the width.
pub open spec fn check(col: nat, width: usize) -> Scan {
    if col > width {
        Scan::Stop(false)
    } else {
        Scan::Go(col)
    }
}

/// Looks ahead through task `t` from column `col` as if printing it on the
/// current line. A break in break mode ends the look-ahead with success; so
/// does a hard line in break mode, while a hard line in flat mode fails it,
/// so that a group holding one breaks.
pub open spec fn scan_task(o: PrintOptions, t: Task, col: nat) -> Scan
    decreases t.doc,
{
    match t.doc {
        Doc::Nil => check(col, o.width),
        Doc::EmptyLine => check(col, o.width),
        Doc::Alt(f, b) => {
            if col > o.width {
                Scan::Stop(false)
            } else {
                let d = if t.mode == Mode::Flat {
                    *f
                } else {
                    *b
                };
                scan_task(o, Task { doc: d, ..t }, col)
            }
        },
        Doc::Union(a, b) => {
            if col > o.width {
                Scan::Stop(false)
            } else {
                let d = if t.mode == Mode::Flat {
                    *a
                } else {
                    *b
                };
                scan_task(o, Task { doc: d, ..t }, col)
            }
        },
        Doc::Nest(k, d) => {
            if col > o.width {
                Scan::Stop(false)
            } else {
                scan_task(o, Task { indent: sat_add(t.indent, k as int), doc: *d, ..t }, col)
            }
        },
        Doc::Text(s) => check(col + text_width(o.measure, s@), o.width),
        Doc::Break(spaces, _) => {
            if t.mode == Mode::Flat {
                check(col + spaces as nat, o.width)
            } else {
                Scan::Stop(true)
            }
        },
        Doc::NewLine => Scan::Stop(t.mode == Mode::Break),
        Doc::Group(v) => {
            if col > o.width {
                Scan::Stop(false)
            } else {
                scan_list(o, v@, 0, t.indent, t.mode, col)
            }
        },
        Doc::List(v) => {
            if col > o.width {
                Scan::Stop(false)
            } else {
                scan_list(o, v@, 0, t.indent, t.mode, col)
            }
        },
    }
}

/// Looks ahead through the documents `s[j..]`.
pub open spec fn scan_list(
    o: PrintOptions,
    s: Seq<Rc<Doc>>,
    j: int,
    indent: usize,
    mode: Mode,
    col: nat,
) -> Scan
    decreases s, s.len() - j,
{
    if 0 <= j < s.len() {
        match scan_task(o, item_task(s, j, indent, mode), col) {
            Scan::Go(c) => scan_list(o, s, j + 1, indent, mode, c),
            Scan::Stop(b) => Scan::Stop(b),
        }
    } else {
        Scan::Go(col)
    }
}

/// Looks ahead through a stack of tasks, the last one first.
pub open spec fn scan_stack(o: PrintOptions, tasks: Seq<Task>, col: nat) -> Scan
    decreases tasks.len(),
{
    if tasks.len() == 0 {
        Scan::Go(col)
    } else {
        match scan_task(o, tasks.last(), col) {
            Scan::Go(c) => scan_stack(o, tasks.drop_last(), c),
            Scan::Stop(b) => Scan::Stop(b),
        }
    }
}

/// The verdict of a look-ahead: running out of work counts as fitting.
pub open spec fn verdict(s: Scan) -> bool {
    match s {
        Scan::Go(_) => true,
        Scan::Stop(b) => b,
    }
}

/// Whether the work `cand`, followed by `rest`, fits on the current line
/// from column `col` up to the next place where a line surely ends.
pub open spec fn fits(o: PrintOptions, cand: Seq<Task>, rest: Seq<Task>, col: nat) -> bool {
    verdict(scan_stack(o, rest + cand, col))
}

} // verus!
