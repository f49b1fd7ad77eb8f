use crate::doc::{doc_size, docs_size, Doc};
use crate::layout::{
    eol, fits, item_task, lay_list, lay_stack, lay_task, layout, new_line, repeat, scan_list, scan_stack,
    scan_task, stack_of, then, verdict, Mode, Scan, Task,
};
use crate::measure::measure_text_width;
use crate::options::{IndentKind, LineBreak, PrintOptions};
use std::rc::Rc;
use vstd::prelude::*;
use vstd::string::StringExecFns;

verus! {

/// A pending piece of work on the printer's stack.
type Action<'a> = (usize, Mode, &'a Doc);

/// The task that a stack entry stands for.
pub open spec fn task_of(a: (usize, Mode, &Doc)) -> Task {
    Task { indent: a.0, mode: a.1, doc: *a.2 }
}

/// The tasks that a stack stands for, in the same order.
pub open spec fn tasks_of(s: Seq<(usize, Mode, &Doc)>) -> Seq<Task> {
    s.map_values(|a: (usize, Mode, &Doc)| task_of(a))
}

/// The summed size of the documents of a stack of tasks.
pub open spec fn stack_size(tasks: Seq<Task>) -> nat
    decreases tasks.len(),
{
    if tasks.len() == 0 {
        0
    } else {
        stack_size(tasks.drop_last()) + doc_size(tasks.last().doc)
    }
}

proof fn lemma_stack_size_children(rest: Seq<Task>, s: Seq<Rc<Doc>>, j: int, indent: usize, mode: Mode)
    requires
        0 <= j <= s.len(),
    ensures
        stack_size(rest + stack_of(s, j, indent, mode)) == stack_size(rest) + docs_size(s, j),
    decreases s.len() - j,
{
    let t = rest + stack_of(s, j, indent, mode);
    if j == s.len() {
        assert(t =~= rest);
    } else {
        lemma_stack_size_children(rest, s, j + 1, indent, mode);
        assert(t.drop_last() =~= rest + stack_of(s, j + 1, indent, mode));
    }
}

pub(crate) proof fn lemma_lay_stack_children(
    o: PrintOptions,
    rest: Seq<Task>,
    s: Seq<Rc<Doc>>,
    j: int,
    indent: usize,
    mode: Mode,
    col: usize,
)
    requires
        0 <= j <= s.len(),
    ensures
        ({
            let r = lay_list(o, s, j, indent, mode, rest, col);
            lay_stack(o, rest + stack_of(s, j, indent, mode), col) == then(r, lay_stack(o, rest, r.cols))
        }),
    decreases s.len() - j,
{
    let t = rest + stack_of(s, j, indent, mode);
    if j == s.len() {
        assert(t =~= rest);
        assert(lay_stack(o, rest, col).out =~= Seq::empty() + lay_stack(o, rest, col).out);
    } else {
        assert(t.drop_last() =~= rest + stack_of(s, j + 1, indent, mode));
        let ghost r1 = lay_task(o, item_task(s, j, indent, mode), rest + stack_of(s, j + 1, indent, mode), col);
        lemma_lay_stack_children(o, rest, s, j + 1, indent, mode, r1.cols);
        let r2 = lay_list(o, s, j + 1, indent, mode, rest, r1.cols);
        assert(r1.out + (r2.out + lay_stack(o, rest, r2.cols).out) =~= (r1.out + r2.out) + lay_stack(o, rest, r2.cols).out);
    }
}

pub(crate) proof fn lemma_scan_stack_children(
    o: PrintOptions,
    rest: Seq<Task>,
    s: Seq<Rc<Doc>>,
    j: int,
    indent: usize,
    mode: Mode,
    col: nat,
)
    requires
        0 <= j <= s.len(),
    ensures
        scan_stack(o, rest + stack_of(s, j, indent, mode), col) == (match scan_list(o, s, j, indent, mode, col) {
            Scan::Go(c) => scan_stack(o, rest, c),
            Scan::Stop(b) => Scan::Stop(b),
        }),
    decreases s.len() - j,
{
    let t = rest + stack_of(s, j, indent, mode);
    if j == s.len() {
        assert(t =~= rest);
    } else {
        assert(t.drop_last() =~= rest + stack_of(s, j + 1, indent, mode));
        let ghost first = scan_task(o, item_task(s, j, indent, mode), col);
        match first {
            Scan::Go(c) => lemma_scan_stack_children(o, rest, s, j + 1, indent, mode, c),
            Scan::Stop(_) => {},
        }
    }
}

proof fn lemma_tasks_of_add<'a>(a: Seq<Action<'a>>, b: Seq<Action<'a>>)
    ensures
        tasks_of(a + b) == tasks_of(a) + tasks_of(b),
{
    assert(tasks_of(a + b) =~= tasks_of(a) + tasks_of(b));
}

proof fn lemma_tasks_of_push<'a>(a: Seq<Action<'a>>, x: Action<'a>)
    ensures
        tasks_of(a.push(x)) == tasks_of(a).push(task_of(x)),
{
    assert(tasks_of(a.push(x)) =~= tasks_of(a).push(task_of(x)));
}

/// Pushes the documents of `docs` in reverse, so that the first is taken
/// first.
fn push_children<'a>(actions: &mut Vec<Action<'a>>, docs: &'a Vec<Rc<Doc>>, indent: usize, mode: Mode)
    ensures
        tasks_of(final(actions)@) == tasks_of(old(actions)@) + stack_of(docs@, 0, indent, mode),
{
    let mut i = docs.len();
    while i > 0
        invariant
            i <= docs.len(),
            tasks_of(actions@) == tasks_of(old(actions)@) + stack_of(docs@, i as int, indent, mode),
        decreases i,
    {
        i -= 1;
        let ghost before = actions@;
        actions.push((indent, mode, &*docs[i]));
        assert(tasks_of(actions@) =~= tasks_of(before) + seq![Task { indent, mode, doc: *docs@[i as int] }]);
        assert(stack_of(docs@, i as int, indent, mode) =~= stack_of(docs@, i + 1, indent, mode) + seq![Task { indent, mode, doc: *docs@[i as int] }]);
    }
}

/// Appends `n` copies of the one-character string `unit`.
fn push_repeat(out: &mut String, unit: &str, n: usize)
    requires
        unit@.len() == 1,
    ensures
        final(out)@ == old(out)@ + repeat(unit@[0], n as nat),
{
    let mut i: usize = 0;
    while i < n
        invariant
            i <= n,
            unit@.len() == 1,
            out@ == old(out)@ + repeat(unit@[0], i as nat),
        decreases n - i,
    {
        let ghost before = out@;
        out.append(unit);
        assert(repeat(unit@[0], (i + 1) as nat) =~= repeat(unit@[0], i as nat) + unit@);
        assert(out@ =~= old(out)@ + repeat(unit@[0], (i + 1) as nat));
        i += 1;
    }
}

/// Appends a line break.
fn push_eol(out: &mut String, o: &PrintOptions)
    ensures
        final(out)@ == old(out)@ + eol(o.line_break),
{
    let lb = match o.line_break {
        LineBreak::Lf => "\n",
        LineBreak::Crlf => "\r\n",
    };
    proof {
        reveal_strlit("\n");
        reveal_strlit("\r\n");
    }
    out.append(lb);
    assert(lb@ =~= eol(o.line_break));
}

/// Appends a line break and the indentation to column `n`.
fn push_new_line(out: &mut String, o: &PrintOptions, n: usize)
    requires
        o.tab_size > 0,
    ensures
        final(out)@ == old(out)@ + new_line(*o, n),
{
    push_eol(out, o);
    proof {
        reveal_strlit(" ");
        reveal_strlit("\t");
    }
    match o.indent_kind {
        IndentKind::Space => {
            push_repeat(out, " ", n);
        },
        IndentKind::Tab => {
            push_repeat(out, "\t", n / o.tab_size);
            push_repeat(out, " ", n % o.tab_size);
        },
    }
    assert(out@ =~= old(out)@ + new_line(*o, n));
}

/// Taking the top of `stack` at column `c0` leaves the work `next` at
/// column `c1`, or a verdict of `false` where `c1` is past the width.
pub open spec fn scan_step(o: PrintOptions, stack: Seq<Task>, c0: nat, next: Seq<Task>, c1: nat) -> bool {
    verdict(scan_stack(o, stack, c0)) == (if c1 > o.width {
        false
    } else {
        verdict(scan_stack(o, next, c1))
    })
}

/// Whether the pending work `candidate`, followed by the work of the stack
/// `best` taken from its top, fits on the current line from column `start`.
#[verifier::rlimit(60)]
#[verifier::spinoff_prover]
fn fitting<'a>(candidate: Vec<Action<'a>>, best: &Vec<Action<'a>>, start: usize, o: &PrintOptions) -> (r: bool)
    ensures
        r == fits(*o, tasks_of(candidate@), tasks_of(best@), start as nat),
{
    let ghost target = fits(*o, tasks_of(candidate@), tasks_of(best@), start as nat);
    let mut actions = candidate;
    let mut idx = best.len();
    let mut cols = start;
    proof {
        lemma_tasks_of_add(best@.subrange(0, idx as int), actions@);
        assert(best@.subrange(0, idx as int) =~= best@);
    }
    loop
        invariant
            idx <= best.len(),
            target == fits(*o, tasks_of(candidate@), tasks_of(best@), start as nat),
            verdict(scan_stack(*o, tasks_of(best@.subrange(0, idx as int) + actions@), cols as nat)) == target,
        decreases stack_size(tasks_of(best@.subrange(0, idx as int) + actions@)),
    {
        let ghost stack = tasks_of(best@.subrange(0, idx as int) + actions@);
        let (indent, mode, doc) = match actions.pop() {
            Some(a) => a,
            None => {
                if idx == 0 {
                    assert(stack =~= Seq::<Task>::empty());
                    assert(scan_stack(*o, stack, cols as nat) == Scan::Go(cols as nat));
                    return true;
                }
                idx -= 1;
                best[idx]
            },
        };
        let ghost before = actions@;
        let ghost rest = tasks_of(best@.subrange(0, idx as int) + before);
        let ghost c0 = cols as nat;
        let ghost t = Task { indent, mode, doc: *doc };
        let ghost mut next = rest;
        proof {
            assert(stack.drop_last() =~= rest);
            assert(stack.last() == t);
            assert(stack_size(stack) == stack_size(rest) + doc_size(*doc));
            lemma_tasks_of_add(best@.subrange(0, idx as int), before);
        }
        let child: Option<Action<'a>> = match doc {
            Doc::Nil => None,
            Doc::Alt(doc_flat, doc_break) => match mode {
                Mode::Flat => Some((indent, mode, &**doc_flat)),
                Mode::Break => Some((indent, mode, &**doc_break)),
            },
            Doc::Union(attempt, alternate) => match mode {
                Mode::Flat => Some((indent, mode, &**attempt)),
                Mode::Break => Some((indent, mode, &**alternate)),
            },
            Doc::Nest(offset, inner) => Some((indent.saturating_add(*offset), mode, &**inner)),
            Doc::Text(text) => {
                let w = measure_text_width(o.measure, text.as_str());
                match cols.checked_add(w) {
                    Some(c) => cols = c,
                    None => {
                        assert(scan_task(*o, t, c0) == Scan::Stop(false));
                        return false;
                    },
                }
                None
            },
            Doc::Break(spaces, _) => {
                match mode {
                    Mode::Flat => {
                        match cols.checked_add(*spaces) {
                            Some(c) => cols = c,
                            None => {
                                assert(scan_task(*o, t, c0) == Scan::Stop(false));
                                return false;
                            },
                        }
                    },
                    Mode::Break => return true,
                }
                None
            },
            Doc::NewLine => {
                return match mode {
                    Mode::Flat => false,
                    Mode::Break => true,
                };
            },
            Doc::EmptyLine => None,
            Doc::Group(docs) => {
                push_children(&mut actions, docs, indent, mode);
                proof {
                    next = rest + stack_of(docs@, 0, indent, mode);
                    lemma_tasks_of_add(best@.subrange(0, idx as int), actions@);
                    lemma_scan_stack_children(*o, rest, docs@, 0, indent, mode, c0);
                    lemma_stack_size_children(rest, docs@, 0, indent, mode);
                }
                None
            },
            Doc::List(docs) => {
                push_children(&mut actions, docs, indent, mode);
                proof {
                    next = rest + stack_of(docs@, 0, indent, mode);
                    lemma_tasks_of_add(best@.subrange(0, idx as int), actions@);
                    lemma_scan_stack_children(*o, rest, docs@, 0, indent, mode, c0);
                    lemma_stack_size_children(rest, docs@, 0, indent, mode);
                }
                None
            },
        };
        if let Some(a) = child {
            actions.push(a);
            proof {
                next = rest.push(task_of(a));
                assert(best@.subrange(0, idx as int) + actions@ =~= (best@.subrange(0, idx as int) + before).push(a));
                lemma_tasks_of_push(best@.subrange(0, idx as int) + before, a);
                assert(next.drop_last() =~= rest);
                assert(scan_stack(*o, next, c0) == (match scan_task(*o, task_of(a), c0) {
                    Scan::Go(c) => scan_stack(*o, rest, c),
                    Scan::Stop(b) => Scan::Stop(b),
                }));
            }
        } else {
            proof {
                if !(doc is Group || doc is List) {
                    assert(best@.subrange(0, idx as int) + actions@ =~= best@.subrange(0, idx as int) + before);
                }
            }
        }
        proof {
            assert(tasks_of(best@.subrange(0, idx as int) + actions@) == next);
            assert(scan_step(*o, stack, c0, next, cols as nat));
            assert(stack_size(next) < stack_size(stack));
        }
        if cols > o.width {
            return false;
        }
    }
}

/// Taking the top of `stack` at column `c0` writes `piece`, with `f` for
/// whether it stayed within the width, and leaves the work `next` at column
/// `c1`.
pub open spec fn lay_step(
    o: PrintOptions,
    stack: Seq<Task>,
    c0: usize,
    piece: Seq<char>,
    f: bool,
    next: Seq<Task>,
    c1: usize,
) -> bool {
    let whole = lay_stack(o, stack, c0);
    let after = lay_stack(o, next, c1);
    &&& whole.out == piece + after.out
    &&& whole.cols == after.cols
    &&& whole.fits == (f && after.fits)
}

proof fn lemma_lay_stack_push(o: PrintOptions, rest: Seq<Task>, x: Task, c: usize)
    ensures
        ({
            let r = lay_task(o, x, rest, c);
            lay_stack(o, rest.push(x), c) == then(r, lay_stack(o, rest, r.cols))
        }),
        stack_size(rest.push(x)) == stack_size(rest) + doc_size(x.doc),
{
    assert(rest.push(x).drop_last() =~= rest);
}

/// A step that lays out the top task whole and leaves the rest of the stack
/// as it was.
proof fn lemma_leaf_step(o: PrintOptions, rest: Seq<Task>, t: Task, c0: usize)
    ensures
        ({
            let r = lay_task(o, t, rest, c0);
            lay_step(o, rest.push(t), c0, r.out, r.fits, rest, r.cols)
        }),
{
    lemma_lay_stack_push(o, rest, t, c0);
}

/// A step that replaces the top of the stack by `x`, which lays out the same.
proof fn lemma_swap_step(o: PrintOptions, rest: Seq<Task>, t: Task, x: Task, c0: usize)
    requires
        lay_task(o, t, rest, c0) == lay_task(o, x, rest, c0),
    ensures
        lay_step(o, rest.push(t), c0, Seq::empty(), true, rest.push(x), c0),
{
    lemma_lay_stack_push(o, rest, t, c0);
    lemma_lay_stack_push(o, rest, x, c0);
    let w = lay_stack(o, rest.push(x), c0);
    assert(w.out =~= Seq::<char>::empty() + w.out);
}

/// Pushes `a` onto the stack.
fn push_action<'a>(actions: &mut Vec<Action<'a>>, a: Action<'a>)
    ensures
        tasks_of(final(actions)@) == tasks_of(old(actions)@).push(task_of(a)),
{
    let ghost before = actions@;
    actions.push(a);
    proof {
        lemma_tasks_of_push(before, a);
    }
}

/// The printer's state: the options and the current column.
struct Printer<'a> {
    options: &'a PrintOptions,
    cols: usize,
}

impl<'a> Printer<'a> {
    fn new(options: &'a PrintOptions) -> (r: Self)
        ensures
            r.options == options,
            r.cols == 0,
    {
        Printer { options, cols: 0 }
    }

    /// Prints the work `init` and all that it holds onto `out`, with an
    /// explicit stack instead of recursion into the tree; returns whether
    /// every column reached stayed within the width.
    #[verifier::rlimit(100)]
    #[verifier::spinoff_prover]
    fn print_to(&mut self, init: Action<'a>, out: &mut String) -> (fits: bool)
        requires
            old(self).options.tab_size > 0,
        ensures
            final(self).options == old(self).options,
            ({
                let r = lay_task(*old(self).options, task_of(init), Seq::empty(), old(self).cols);
                &&& final(out)@ == old(out)@ + r.out
                &&& final(self).cols == r.cols
                &&& fits == r.fits
            }),
        decreases doc_size(*init.2),
    {
        let ghost o = *self.options;
        let ghost target = lay_task(o, task_of(init), Seq::empty(), self.cols);
        let mut actions: Vec<Action<'a>> = Vec::new();
        proof {
            lemma_lay_stack_push(o, tasks_of(actions@), task_of(init), self.cols);
        }
        push_action(&mut actions, init);
        let mut fits = true;
        proof {
            assert(tasks_of(Seq::<Action<'a>>::empty()) =~= Seq::<Task>::empty());
            let st = tasks_of(actions@);
            assert(lay_stack(o, st, self.cols).out =~= target.out);
            assert(out@ + target.out =~= out@ + lay_stack(o, st, self.cols).out);
        }
        while actions.len() > 0
            invariant
                self.options == old(self).options,
                o == *self.options,
                o.tab_size > 0,
                target == lay_task(o, task_of(init), Seq::empty(), old(self).cols),
                stack_size(tasks_of(actions@)) <= doc_size(*init.2),
                old(out)@ + target.out == out@ + lay_stack(o, tasks_of(actions@), self.cols).out,
                target.cols == lay_stack(o, tasks_of(actions@), self.cols).cols,
                target.fits == (fits && lay_stack(o, tasks_of(actions@), self.cols).fits),
            decreases stack_size(tasks_of(actions@)),
        {
            let ghost stack = tasks_of(actions@);
            let ghost c0 = self.cols;
            let ghost out0 = out@;
            let ghost fits0 = fits;
            let (indent, mode, doc) = actions.pop().unwrap();
            let ghost rest = tasks_of(actions@);
            let ghost t = Task { indent, mode, doc: *doc };
            let ghost mut next = rest;
            let ghost mut f = true;
            let ghost mut piece = Seq::<char>::empty();
            proof {
                assert(stack =~= rest.push(t));
                lemma_lay_stack_push(o, rest, t, c0);
            }
            match doc {
                Doc::Nil => {
                    proof {
                        lemma_leaf_step(o, rest, t, c0);
                    }
                },
                Doc::Alt(doc_flat, doc_break) => {
                    let a = match mode {
                        Mode::Flat => (indent, mode, &**doc_flat),
                        Mode::Break => (indent, mode, &**doc_break),
                    };
                    push_action(&mut actions, a);
                    proof {
                        next = rest.push(task_of(a));
                        lemma_swap_step(o, rest, t, task_of(a), c0);
                        lemma_lay_stack_push(o, rest, task_of(a), c0);
                    }
                },
                Doc::Nest(offset, inner) => {
                    let a = (indent.saturating_add(*offset), mode, &**inner);
                    push_action(&mut actions, a);
                    proof {
                        next = rest.push(task_of(a));
                        lemma_swap_step(o, rest, t, task_of(a), c0);
                        lemma_lay_stack_push(o, rest, task_of(a), c0);
                    }
                },
                Doc::Union(attempt, alternate) => {
                    let saved_cols = self.cols;
                    let mut buf = String::new();
                    let ghost r = lay_task(o, task_of((indent, mode, &**attempt)), Seq::empty(), c0);
                    if self.print_to((indent, mode, &**attempt), &mut buf) {
                        out.append(buf.as_str());
                        proof {
                            piece = r.out;
                            lemma_leaf_step(o, rest, t, c0);
                        }
                    } else {
                        self.cols = saved_cols;
                        let a = (indent, mode, &**alternate);
                        push_action(&mut actions, a);
                        proof {
                            next = rest.push(task_of(a));
                            lemma_swap_step(o, rest, t, task_of(a), c0);
                            lemma_lay_stack_push(o, rest, task_of(a), c0);
                        }
                    }
                },
                Doc::Text(text) => {
                    let w = measure_text_width(self.options.measure, text.as_str());
                    self.cols = self.cols.saturating_add(w);
                    out.append(text.as_str());
                    fits = fits && self.cols <= self.options.width;
                    proof {
                        f = self.cols <= o.width;
                        piece = text@;
                        lemma_leaf_step(o, rest, t, c0);
                    }
                },
                Doc::NewLine => {
                    self.cols = indent;
                    push_new_line(out, self.options, indent);
                    fits = fits && self.cols <= self.options.width;
                    proof {
                        f = self.cols <= o.width;
                        piece = new_line(o, indent);
                        lemma_leaf_step(o, rest, t, c0);
                    }
                },
                Doc::EmptyLine => {
                    push_eol(out, self.options);
                    proof {
                        piece = eol(o.line_break);
                        lemma_leaf_step(o, rest, t, c0);
                    }
                },
                Doc::Break(spaces, offset) => {
                    match mode {
                        Mode::Flat => {
                            self.cols = self.cols.saturating_add(*spaces);
                            proof {
                                reveal_strlit(" ");
                            }
                            push_repeat(out, " ", *spaces);
                            proof {
                                piece = repeat(' ', *spaces as nat);
                            }
                        },
                        Mode::Break => {
                            self.cols = indent.saturating_add(*offset);
                            push_new_line(out, self.options, self.cols);
                            proof {
                                piece = new_line(o, self.cols);
                            }
                        },
                    }
                    fits = fits && self.cols <= self.options.width;
                    proof {
                        f = self.cols <= o.width;
                        lemma_leaf_step(o, rest, t, c0);
                    }
                },
                Doc::Group(docs) => {
                    let m = match mode {
                        Mode::Flat => Mode::Flat,
                        Mode::Break => {
                            let mut fitting_actions: Vec<Action<'a>> = Vec::new();
                            push_children(&mut fitting_actions, docs, indent, Mode::Flat);
                            proof {
                                assert(tasks_of(fitting_actions@) =~= stack_of(docs@, 0, indent, Mode::Flat));
                            }
                            if fitting(fitting_actions, &actions, self.cols, self.options) {
                                Mode::Flat
                            } else {
                                Mode::Break
                            }
                        },
                    };
                    push_children(&mut actions, docs, indent, m);
                    proof {
                        next = rest + stack_of(docs@, 0, indent, m);
                        lemma_lay_stack_children(o, rest, docs@, 0, indent, m, c0);
                        lemma_stack_size_children(rest, docs@, 0, indent, m);
                        let w = lay_stack(o, next, c0);
                        assert(w.out =~= Seq::<char>::empty() + w.out);
                    }
                },
                Doc::List(docs) => {
                    push_children(&mut actions, docs, indent, mode);
                    proof {
                        next = rest + stack_of(docs@, 0, indent, mode);
                        lemma_lay_stack_children(o, rest, docs@, 0, indent, mode, c0);
                        lemma_stack_size_children(rest, docs@, 0, indent, mode);
                        let w = lay_stack(o, next, c0);
                        assert(w.out =~= Seq::<char>::empty() + w.out);
                    }
                },
            }
            proof {
                assert(tasks_of(actions@) == next);
                assert(out@ == out0 + piece);
                assert(fits == (fits0 && f));
                assert(lay_step(o, stack, c0, piece, f, next, self.cols));
                assert(stack_size(next) < stack_size(stack));
                assert(out@ + lay_stack(o, next, self.cols).out =~= out0 + lay_stack(o, stack, c0).out);
            }
        }
        proof {
            assert(tasks_of(actions@) =~= Seq::<Task>::empty());
            assert(out@ + Seq::<char>::empty() =~= out@);
        }
        fits
    }
}

/// Lays out `doc` within `options.width` as far as its breaks allow; the
/// result is [`layout`], which starts in break mode at column 0.
///
/// `options.tab_size` must not be zero. Columns and indentation are counted
/// in `usize` and held at `usize::MAX`.
pub fn print(doc: &Doc, options: &PrintOptions) -> (r: String)
    requires
        options.tab_size > 0,
    ensures
        r@ == layout(*options, *doc),
{
    let mut printer = Printer::new(options);
    let mut out = String::new();
    printer.print_to((0, Mode::Break, doc), &mut out);
    proof {
        assert(out@ =~= Seq::<char>::empty() + layout(*options, *doc));
    }
    out
}

} // verus!
