//! Properties of printing, stated over [`layout`](crate::layout::layout) and
//! proved.
use crate::doc::{derefs, grouped, nested, Doc};
use crate::layout::{
    branch, eol, item_task, lay_list, lay_task, layout, nest_inner, new_line, pad, repeat, sat_add,
    scan_list, scan_stack, scan_task, stack_of, verdict, Mode, Rendered, Scan, Task,
};
use crate::measure::text_width;
use crate::options::{IndentKind, LineBreak, PrintOptions};
use crate::print::lemma_scan_stack_children;
use std::rc::Rc;
use vstd::prelude::*;

verus! {

/// `d` is built from text, lists and nesting alone (and the empty document).
pub open spec fn plain(d: Doc) -> bool
    decreases d,
{
    match d {
        Doc::Nil => true,
        Doc::Text(_) => true,
        Doc::Nest(_, x) => plain(*x),
        Doc::List(v) => plain_from(v@, 0),
        _ => false,
    }
}

pub open spec fn plain_from(s: Seq<Rc<Doc>>, j: int) -> bool
    decreases s, s.len() - j,
{
    if 0 <= j < s.len() {
        plain(*s[j]) && plain_from(s, j + 1)
    } else {
        true
    }
}

/// All the text of `d`, in order.
pub open spec fn texts(d: Doc) -> Seq<char>
    decreases d,
{
    match d {
        Doc::Text(s) => s@,
        Doc::Nest(_, x) => texts(*x),
        Doc::List(v) => texts_from(v@, 0),
        Doc::Group(v) => texts_from(v@, 0),
        _ => Seq::empty(),
    }
}

pub open spec fn texts_from(s: Seq<Rc<Doc>>, j: int) -> Seq<char>
    decreases s, s.len() - j,
{
    if 0 <= j < s.len() {
        texts(*s[j]) + texts_from(s, j + 1)
    } else {
        Seq::empty()
    }
}

proof fn lemma_plain_task(o: PrintOptions, t: Task, rest: Seq<Task>, col: usize)
    requires
        plain(t.doc),
    ensures
        lay_task(o, t, rest, col).out == texts(t.doc),
    decreases t.doc,
{
    match t.doc {
        Doc::Nest(k, x) => {
            lemma_plain_task(o, nest_inner(t), rest, col);
        },
        Doc::List(v) => {
            lemma_plain_list(o, v@, 0, t.indent, t.mode, rest, col);
        },
        _ => {},
    }
}

proof fn lemma_plain_list(
    o: PrintOptions,
    s: Seq<Rc<Doc>>,
    j: int,
    indent: usize,
    mode: Mode,
    rest: Seq<Task>,
    col: usize,
)
    requires
        plain_from(s, j),
        0 <= j,
    ensures
        lay_list(o, s, j, indent, mode, rest, col).out == texts_from(s, j),
    decreases s, s.len() - j,
{
    if j < s.len() {
        let t = item_task(s, j, indent, mode);
        let r = lay_task(o, t, rest + stack_of(s, j + 1, indent, mode), col);
        lemma_plain_task(o, t, rest + stack_of(s, j + 1, indent, mode), col);
        lemma_plain_list(o, s, j + 1, indent, mode, rest, r.cols);
    }
}

/// A document of text, lists and nesting alone prints as all its text, one
/// piece after the other, whatever the options.
pub proof fn law_plain_prints_texts(o: PrintOptions, d: Doc)
    requires
        plain(d),
    ensures
        layout(o, d) == texts(d),
{
    lemma_plain_task(o, Task { indent: 0, mode: Mode::Break, doc: d }, Seq::empty(), 0);
}

/// `d` holds no hard line, in any branch.
pub open spec fn no_hard_line(d: Doc) -> bool
    decreases d,
{
    match d {
        Doc::NewLine => false,
        Doc::Alt(a, b) => no_hard_line(*a) && no_hard_line(*b),
        Doc::Union(a, b) => no_hard_line(*a) && no_hard_line(*b),
        Doc::Nest(_, x) => no_hard_line(*x),
        Doc::List(v) => no_hard_line_from(v@, 0),
        Doc::Group(v) => no_hard_line_from(v@, 0),
        _ => true,
    }
}

pub open spec fn no_hard_line_from(s: Seq<Rc<Doc>>, j: int) -> bool
    decreases s, s.len() - j,
{
    if 0 <= j < s.len() {
        no_hard_line(*s[j]) && no_hard_line_from(s, j + 1)
    } else {
        true
    }
}

/// The fully flat rendering of `d`: every break as its spaces, every
/// alternative and union as its first document.
pub open spec fn flat(o: PrintOptions, d: Doc) -> Seq<char>
    decreases d,
{
    match d {
        Doc::Alt(a, _) => flat(o, *a),
        Doc::Union(a, _) => flat(o, *a),
        Doc::Nest(_, x) => flat(o, *x),
        Doc::Text(s) => s@,
        Doc::NewLine => eol(o.line_break),
        Doc::EmptyLine => eol(o.line_break),
        Doc::Break(spaces, _) => repeat(' ', spaces as nat),
        Doc::List(v) => flat_from(o, v@, 0),
        Doc::Group(v) => flat_from(o, v@, 0),
        Doc::Nil => Seq::empty(),
    }
}

pub open spec fn flat_from(o: PrintOptions, s: Seq<Rc<Doc>>, j: int) -> Seq<char>
    decreases s, s.len() - j,
{
    if 0 <= j < s.len() {
        flat(o, *s[j]) + flat_from(o, s, j + 1)
    } else {
        Seq::empty()
    }
}

/// The columns that the flat rendering of `d` advances by.
pub open spec fn flat_width(o: PrintOptions, d: Doc) -> nat
    decreases d,
{
    match d {
        Doc::Alt(a, _) => flat_width(o, *a),
        Doc::Union(a, _) => flat_width(o, *a),
        Doc::Nest(_, x) => flat_width(o, *x),
        Doc::Text(s) => text_width(o.measure, s@),
        Doc::Break(spaces, _) => spaces as nat,
        Doc::List(v) => flat_width_from(o, v@, 0),
        Doc::Group(v) => flat_width_from(o, v@, 0),
        _ => 0,
    }
}

pub open spec fn flat_width_from(o: PrintOptions, s: Seq<Rc<Doc>>, j: int) -> nat
    decreases s, s.len() - j,
{
    if 0 <= j < s.len() {
        flat_width(o, *s[j]) + flat_width_from(o, s, j + 1)
    } else {
        0
    }
}

proof fn lemma_scan_flat(o: PrintOptions, t: Task, col: nat)
    requires
        t.mode == Mode::Flat,
        no_hard_line(t.doc),
        col + flat_width(o, t.doc) <= o.width,
    ensures
        scan_task(o, t, col) == Scan::Go(col + flat_width(o, t.doc)),
    decreases t.doc,
{
    match t.doc {
        Doc::Nest(_, _) => lemma_scan_flat(o, nest_inner(t), col),
        Doc::Alt(_, _) => lemma_scan_flat(o, branch(t, true), col),
        Doc::Union(_, _) => lemma_scan_flat(o, branch(t, true), col),
        Doc::List(v) => lemma_scan_flat_list(o, v@, 0, t.indent, col),
        Doc::Group(v) => lemma_scan_flat_list(o, v@, 0, t.indent, col),
        _ => {},
    }
}

proof fn lemma_scan_flat_list(o: PrintOptions, s: Seq<Rc<Doc>>, j: int, indent: usize, col: nat)
    requires
        0 <= j,
        no_hard_line_from(s, j),
        col + flat_width_from(o, s, j) <= o.width,
    ensures
        scan_list(o, s, j, indent, Mode::Flat, col) == Scan::Go(col + flat_width_from(o, s, j)),
    decreases s, s.len() - j,
{
    if j < s.len() {
        let t = item_task(s, j, indent, Mode::Flat);
        lemma_scan_flat(o, t, col);
        lemma_scan_flat_list(o, s, j + 1, indent, col + flat_width(o, t.doc));
    }
}

proof fn lemma_lay_flat(o: PrintOptions, t: Task, rest: Seq<Task>, col: usize)
    requires
        t.mode == Mode::Flat,
        no_hard_line(t.doc),
        col + flat_width(o, t.doc) <= o.width,
    ensures
        lay_task(o, t, rest, col) == (Rendered {
            out: flat(o, t.doc),
            cols: (col + flat_width(o, t.doc)) as usize,
            fits: true,
        }),
    decreases t.doc,
{
    match t.doc {
        Doc::Nest(_, _) => lemma_lay_flat(o, nest_inner(t), rest, col),
        Doc::Alt(_, _) => lemma_lay_flat(o, branch(t, true), rest, col),
        Doc::Union(_, _) => lemma_lay_flat(o, branch(t, true), Seq::empty(), col),
        Doc::List(v) => lemma_lay_flat_list(o, v@, 0, t.indent, rest, col),
        Doc::Group(v) => lemma_lay_flat_list(o, v@, 0, t.indent, rest, col),
        _ => {},
    }
}

proof fn lemma_lay_flat_list(
    o: PrintOptions,
    s: Seq<Rc<Doc>>,
    j: int,
    indent: usize,
    rest: Seq<Task>,
    col: usize,
)
    requires
        0 <= j,
        no_hard_line_from(s, j),
        col + flat_width_from(o, s, j) <= o.width,
    ensures
        lay_list(o, s, j, indent, Mode::Flat, rest, col) == (Rendered {
            out: flat_from(o, s, j),
            cols: (col + flat_width_from(o, s, j)) as usize,
            fits: true,
        }),
    decreases s, s.len() - j,
{
    if j < s.len() {
        let t = item_task(s, j, indent, Mode::Flat);
        let more = rest + stack_of(s, j + 1, indent, Mode::Flat);
        lemma_lay_flat(o, t, more, col);
        let c = (col + flat_width(o, t.doc)) as usize;
        lemma_lay_flat_list(o, s, j + 1, indent, rest, c);
    } else {
        assert(flat_from(o, s, j) =~= Seq::<char>::empty());
    }
}

/// With a width at least the flat width of a document without hard lines,
/// that document as a group prints fully flat: every break as its spaces,
/// every alternative and union as its first document.
pub proof fn law_wide_enough_prints_flat(o: PrintOptions, d: Doc, g: Doc)
    requires
        grouped(d, g),
        no_hard_line(d),
        flat_width(o, d) <= o.width,
    ensures
        layout(o, g) == flat(o, d),
{
    let v = match g {
        Doc::Group(v) => v,
        _ => arbitrary(),
    };
    assert(g == Doc::Group(v));
    if !(d is List || d is Group) {
        assert(v@.len() == 1 && *v@[0] == d) by {
            assert(derefs(v@).len() == 1);
            assert(derefs(v@)[0] == d);
        }
        assert(flat_from(o, v@, 1) =~= Seq::<char>::empty());
        assert(flat_from(o, v@, 0) =~= flat(o, d));
        assert(flat_width_from(o, v@, 1) == 0);
        assert(flat_width_from(o, v@, 0) == flat_width(o, d));
        assert(no_hard_line_from(v@, 1));
        assert(no_hard_line_from(v@, 0));
    }
    assert(flat_from(o, v@, 0) == flat(o, d));
    assert(flat_width_from(o, v@, 0) == flat_width(o, d));
    assert(no_hard_line_from(v@, 0));
    lemma_scan_flat_list(o, v@, 0, 0, 0);
    lemma_scan_stack_children(o, Seq::empty(), v@, 0, 0, Mode::Flat, 0);
    assert(Seq::<Task>::empty() + stack_of(v@, 0, 0, Mode::Flat) =~= stack_of(v@, 0, 0, Mode::Flat));
    lemma_lay_flat_list(o, v@, 0, 0, Seq::empty(), 0);
}

/// A nest lays out its document with the indentation raised by its amount
/// (held at `usize::MAX`): every line inside starts that much further in.
pub proof fn law_nest_raises_indent(o: PrintOptions, t: Task, rest: Seq<Task>, col: usize)
    requires
        t.doc is Nest,
    ensures
        lay_task(o, t, rest, col) == lay_task(o, nest_inner(t), rest, col),
        nest_inner(t).indent == sat_add(t.indent, (t.doc->Nest_0) as int),
{
}

/// In flat mode, a document without hard lines lays out the same whatever
/// the indentation and whatever work follows it: indentation does not touch
/// text or the spaces of flat breaks.
pub proof fn law_flat_ignores_indent(
    o: PrintOptions,
    d: Doc,
    i1: usize,
    i2: usize,
    rest1: Seq<Task>,
    rest2: Seq<Task>,
    col: usize,
)
    requires
        no_hard_line(d),
    ensures
        lay_task(o, Task { indent: i1, mode: Mode::Flat, doc: d }, rest1, col) == lay_task(
            o,
            Task { indent: i2, mode: Mode::Flat, doc: d },
            rest2,
            col,
        ),
    decreases d,
{
    let t1 = Task { indent: i1, mode: Mode::Flat, doc: d };
    let t2 = Task { indent: i2, mode: Mode::Flat, doc: d };
    match d {
        Doc::Nest(_, _) => law_flat_ignores_indent(
            o,
            nest_inner(t1).doc,
            nest_inner(t1).indent,
            nest_inner(t2).indent,
            rest1,
            rest2,
            col,
        ),
        Doc::Alt(_, _) => law_flat_ignores_indent(o, branch(t1, true).doc, i1, i2, rest1, rest2, col),
        Doc::Union(_, _) => {
            law_flat_ignores_indent(o, branch(t1, true).doc, i1, i2, Seq::empty(), Seq::empty(), col);
            law_flat_ignores_indent(o, branch(t1, false).doc, i1, i2, rest1, rest2, col);
        },
        Doc::List(v) => lemma_flat_list_ignores_indent(o, v@, 0, i1, i2, rest1, rest2, col),
        Doc::Group(v) => lemma_flat_list_ignores_indent(o, v@, 0, i1, i2, rest1, rest2, col),
        _ => {},
    }
}

proof fn lemma_flat_list_ignores_indent(
    o: PrintOptions,
    s: Seq<Rc<Doc>>,
    j: int,
    i1: usize,
    i2: usize,
    rest1: Seq<Task>,
    rest2: Seq<Task>,
    col: usize,
)
    requires
        0 <= j,
        no_hard_line_from(s, j),
    ensures
        lay_list(o, s, j, i1, Mode::Flat, rest1, col) == lay_list(o, s, j, i2, Mode::Flat, rest2, col),
    decreases s, s.len() - j,
{
    if j < s.len() {
        let d = item_task(s, j, i1, Mode::Flat).doc;
        law_flat_ignores_indent(
            o,
            d,
            i1,
            i2,
            rest1 + stack_of(s, j + 1, i1, Mode::Flat),
            rest2 + stack_of(s, j + 1, i2, Mode::Flat),
            col,
        );
        let r = lay_task(o, item_task(s, j, i1, Mode::Flat), rest1 + stack_of(s, j + 1, i1, Mode::Flat), col);
        lemma_flat_list_ignores_indent(o, s, j + 1, i1, i2, rest1, rest2, r.cols);
    }
}

/// Nesting a break adds to the break's offset, which lays out exactly as a
/// nest around the break would; nesting anything else wraps it in a nest.
pub proof fn law_nest_builder(o: PrintOptions, d: Doc, size: usize, r: Doc, n: Doc, t: Task, rest: Seq<Task>, col: usize)
    requires
        nested(d, size, r),
        n matches Doc::Nest(k, x) && k == size && *x == d,
    ensures
        lay_task(o, Task { doc: r, ..t }, rest, col) == lay_task(o, Task { doc: n, ..t }, rest, col),
{
    let tn = nest_inner(Task { doc: n, ..t });
    assert(tn.doc == d);
    assert(tn.indent == sat_add(t.indent, size as int));
    match d {
        Doc::Break(spaces, offset) => {
            let folded = sat_add(offset, size as int);
            assert(r == Doc::Break(spaces, folded));
            assert(sat_add(t.indent, folded as int) == sat_add(tn.indent, offset as int));
            assert(lay_task(o, Task { doc: n, ..t }, rest, col) == lay_task(o, tn, rest, col));
            assert(lay_task(o, tn, rest, col) == lay_task(o, Task { doc: r, ..t }, rest, col));
        },
        _ => {
            assert(r == n);
        },
    }
}

/// How many columns `s` takes on screen when a tab takes `tab_size`.
pub open spec fn visual_width(s: Seq<char>, tab_size: nat) -> nat
    decreases s.len(),
{
    if s.len() == 0 {
        0
    } else {
        visual_width(s.drop_last(), tab_size) + if s.last() == '\t' {
            tab_size
        } else {
            1
        }
    }
}

proof fn lemma_visual_width_add(a: Seq<char>, b: Seq<char>, tab_size: nat)
    ensures
        visual_width(a + b, tab_size) == visual_width(a, tab_size) + visual_width(b, tab_size),
    decreases b.len(),
{
    if b.len() == 0 {
        assert(a + b =~= a);
    } else {
        assert((a + b).drop_last() =~= a + b.drop_last());
        lemma_visual_width_add(a, b.drop_last(), tab_size);
    }
}

proof fn lemma_visual_width_repeat(c: char, n: nat, tab_size: nat)
    ensures
        visual_width(repeat(c, n), tab_size) == n * (if c == '\t' {
            tab_size
        } else {
            1
        }),
    decreases n,
{
    let w: nat = if c == '\t' {
        tab_size
    } else {
        1
    };
    if n == 0 {
        assert(repeat(c, n).len() == 0);
    } else {
        let s = repeat(c, n);
        assert(s.drop_last() =~= repeat(c, (n - 1) as nat));
        assert(s.last() == c);
        lemma_visual_width_repeat(c, (n - 1) as nat, tab_size);
        assert(visual_width(s, tab_size) == visual_width(s.drop_last(), tab_size) + w);
        assert((n - 1) * w + w == n * w) by (nonlinear_arith);
    }
}

/// Indentation with tabs (as many tabs as fit, then spaces) reaches the same
/// screen column as indentation with spaces, when a tab takes `tab_size`
/// columns.
pub proof fn law_tab_indent_reaches_same_column(tab_size: usize, n: usize)
    requires
        tab_size > 0,
    ensures
        visual_width(pad(IndentKind::Tab, tab_size, n), tab_size as nat) == n,
        visual_width(pad(IndentKind::Space, tab_size, n), tab_size as nat) == n,
{
    let tabs = repeat('\t', (n / tab_size) as nat);
    let spaces = repeat(' ', (n % tab_size) as nat);
    lemma_visual_width_add(tabs, spaces, tab_size as nat);
    lemma_visual_width_repeat('\t', (n / tab_size) as nat, tab_size as nat);
    lemma_visual_width_repeat(' ', (n % tab_size) as nat, tab_size as nat);
    lemma_visual_width_repeat(' ', n as nat, tab_size as nat);
    vstd::arithmetic::div_mod::lemma_fundamental_div_mod(n as int, tab_size as int);
    assert((n / tab_size) as nat * (tab_size as nat) == tab_size * (n / tab_size)) by (nonlinear_arith);
}

/// `s` with each `'\n'` written as `"\r\n"`.
pub open spec fn to_crlf(s: Seq<char>) -> Seq<char>
    decreases s.len(),
{
    if s.len() == 0 {
        s
    } else {
        to_crlf(s.drop_last()) + if s.last() == '\n' {
            seq!['\r', '\n']
        } else {
            seq![s.last()]
        }
    }
}

proof fn lemma_to_crlf_add(a: Seq<char>, b: Seq<char>)
    ensures
        to_crlf(a + b) == to_crlf(a) + to_crlf(b),
    decreases b.len(),
{
    if b.len() == 0 {
        assert(a + b =~= a);
        assert(to_crlf(a) + to_crlf(b) =~= to_crlf(a));
    } else {
        assert((a + b).drop_last() =~= a + b.drop_last());
        lemma_to_crlf_add(a, b.drop_last());
        let tail = if b.last() == '\n' {
            seq!['\r', '\n']
        } else {
            seq![b.last()]
        };
        assert(to_crlf(a + b) == to_crlf(a + b.drop_last()) + tail);
        assert(to_crlf(a) + to_crlf(b) =~= to_crlf(a) + to_crlf(b.drop_last()) + tail);
    }
}

proof fn lemma_to_crlf_keeps(s: Seq<char>)
    requires
        !s.contains('\n'),
    ensures
        to_crlf(s) == s,
    decreases s.len(),
{
    if s.len() > 0 {
        assert(!s.drop_last().contains('\n')) by {
            if s.drop_last().contains('\n') {
                let i = choose|i: int| 0 <= i < s.drop_last().len() && s.drop_last()[i] == '\n';
                assert(s[i] == '\n');
            }
        }
        lemma_to_crlf_keeps(s.drop_last());
        assert(s.last() != '\n') by {
            assert(s[s.len() - 1] == s.last());
        }
        assert(s.drop_last() + seq![s.last()] =~= s);
    }
}

proof fn lemma_repeat_no_lf(c: char, n: nat)
    requires
        c != '\n',
    ensures
        !repeat(c, n).contains('\n'),
{
    let p = repeat(c, n);
    if p.contains('\n') {
        let i = choose|i: int| 0 <= i < p.len() && p[i] == '\n';
        assert(p[i] == c);
    }
}

proof fn lemma_to_crlf_new_line(o: PrintOptions, n: usize)
    requires
        o.line_break == LineBreak::Lf,
    ensures
        to_crlf(new_line(o, n)) == new_line(PrintOptions { line_break: LineBreak::Crlf, ..o }, n),
{
    let p = pad(o.indent_kind, o.tab_size, n);
    match o.indent_kind {
        IndentKind::Space => lemma_repeat_no_lf(' ', n as nat),
        IndentKind::Tab => {
            let tabs = repeat('\t', (n / o.tab_size) as nat);
            let sp = repeat(' ', (n % o.tab_size) as nat);
            lemma_repeat_no_lf('\t', (n / o.tab_size) as nat);
            lemma_repeat_no_lf(' ', (n % o.tab_size) as nat);
            assert(!(tabs + sp).contains('\n')) by {
                if (tabs + sp).contains('\n') {
                    let i = choose|i: int| 0 <= i < (tabs + sp).len() && (tabs + sp)[i] == '\n';
                    if i < tabs.len() {
                        assert(tabs.contains((tabs + sp)[i]));
                    } else {
                        assert(sp[i - tabs.len()] == (tabs + sp)[i]);
                        assert(sp.contains((tabs + sp)[i]));
                    }
                }
            }
        },
    }
    lemma_to_crlf_keeps(p);
    lemma_to_crlf_add(seq!['\n'], p);
    lemma_to_crlf_lf();
}

proof fn lemma_to_crlf_lf()
    ensures
        to_crlf(seq!['\n']) == seq!['\r', '\n'],
{
    let s = seq!['\n'];
    assert(s.drop_last() =~= Seq::<char>::empty());
    assert(to_crlf(Seq::<char>::empty()) == Seq::<char>::empty());
    assert(to_crlf(s) == to_crlf(s.drop_last()) + seq!['\r', '\n']);
    assert(to_crlf(s) =~= seq!['\r', '\n']);
}

/// No text of `d`, in any branch, holds a `'\n'`.
pub open spec fn no_lf_text(d: Doc) -> bool
    decreases d,
{
    match d {
        Doc::Text(s) => !s@.contains('\n'),
        Doc::Alt(a, b) => no_lf_text(*a) && no_lf_text(*b),
        Doc::Union(a, b) => no_lf_text(*a) && no_lf_text(*b),
        Doc::Nest(_, x) => no_lf_text(*x),
        Doc::List(v) => no_lf_text_from(v@, 0),
        Doc::Group(v) => no_lf_text_from(v@, 0),
        _ => true,
    }
}

pub open spec fn no_lf_text_from(s: Seq<Rc<Doc>>, j: int) -> bool
    decreases s, s.len() - j,
{
    if 0 <= j < s.len() {
        no_lf_text(*s[j]) && no_lf_text_from(s, j + 1)
    } else {
        true
    }
}

proof fn lemma_scan_same(o1: PrintOptions, o2: PrintOptions, t: Task, col: nat)
    requires
        o1.width == o2.width,
        o1.measure == o2.measure,
    ensures
        scan_task(o1, t, col) == scan_task(o2, t, col),
    decreases t.doc,
{
    match t.doc {
        Doc::Nest(_, _) => lemma_scan_same(o1, o2, nest_inner(t), col),
        Doc::Alt(_, _) => {
            lemma_scan_same(o1, o2, branch(t, true), col);
            lemma_scan_same(o1, o2, branch(t, false), col);
        },
        Doc::Union(_, _) => {
            lemma_scan_same(o1, o2, branch(t, true), col);
            lemma_scan_same(o1, o2, branch(t, false), col);
        },
        Doc::List(v) => lemma_scan_list_same(o1, o2, v@, 0, t.indent, t.mode, col),
        Doc::Group(v) => lemma_scan_list_same(o1, o2, v@, 0, t.indent, t.mode, col),
        _ => {},
    }
}

proof fn lemma_scan_list_same(
    o1: PrintOptions,
    o2: PrintOptions,
    s: Seq<Rc<Doc>>,
    j: int,
    indent: usize,
    mode: Mode,
    col: nat,
)
    requires
        o1.width == o2.width,
        o1.measure == o2.measure,
        0 <= j,
    ensures
        scan_list(o1, s, j, indent, mode, col) == scan_list(o2, s, j, indent, mode, col),
    decreases s, s.len() - j,
{
    if j < s.len() {
        let t = item_task(s, j, indent, mode);
        lemma_scan_same(o1, o2, t, col);
        match scan_task(o1, t, col) {
            Scan::Go(c) => lemma_scan_list_same(o1, o2, s, j + 1, indent, mode, c),
            Scan::Stop(_) => {},
        }
    }
}

proof fn lemma_scan_stack_same(o1: PrintOptions, o2: PrintOptions, tasks: Seq<Task>, col: nat)
    requires
        o1.width == o2.width,
        o1.measure == o2.measure,
    ensures
        scan_stack(o1, tasks, col) == scan_stack(o2, tasks, col),
    decreases tasks.len(),
{
    if tasks.len() > 0 {
        lemma_scan_same(o1, o2, tasks.last(), col);
        match scan_task(o1, tasks.last(), col) {
            Scan::Go(c) => lemma_scan_stack_same(o1, o2, tasks.drop_last(), c),
            Scan::Stop(_) => {},
        }
    }
}

proof fn lemma_crlf_task(o: PrintOptions, t: Task, rest: Seq<Task>, col: usize)
    requires
        o.line_break == LineBreak::Lf,
        no_lf_text(t.doc),
    ensures
        ({
            let lf = lay_task(o, t, rest, col);
            let crlf = lay_task(PrintOptions { line_break: LineBreak::Crlf, ..o }, t, rest, col);
            &&& crlf.out == to_crlf(lf.out)
            &&& crlf.cols == lf.cols
            &&& crlf.fits == lf.fits
        }),
    decreases t.doc,
{
    let o2 = PrintOptions { line_break: LineBreak::Crlf, ..o };
    match t.doc {
        Doc::Nil => {
            assert(to_crlf(Seq::<char>::empty()) =~= Seq::<char>::empty());
        },
        Doc::Nest(_, _) => lemma_crlf_task(o, nest_inner(t), rest, col),
        Doc::Alt(_, _) => {
            lemma_crlf_task(o, branch(t, true), rest, col);
            lemma_crlf_task(o, branch(t, false), rest, col);
        },
        Doc::Union(_, _) => {
            lemma_crlf_task(o, branch(t, true), Seq::empty(), col);
            lemma_crlf_task(o, branch(t, false), rest, col);
        },
        Doc::Text(s) => {
            lemma_to_crlf_keeps(s@);
        },
        Doc::NewLine => {
            lemma_to_crlf_new_line(o, t.indent);
        },
        Doc::EmptyLine => {
            lemma_to_crlf_lf();
        },
        Doc::Break(spaces, offset) => {
            if t.mode == Mode::Flat {
                let p = repeat(' ', spaces as nat);
                assert(!p.contains('\n')) by {
                    if p.contains('\n') {
                        let i = choose|i: int| 0 <= i < p.len() && p[i] == '\n';
                        assert(p[i] == ' ');
                    }
                }
                lemma_to_crlf_keeps(p);
            } else {
                lemma_to_crlf_new_line(o, sat_add(t.indent, offset as int));
            }
        },
        Doc::List(v) => {
            lemma_crlf_list(o, v@, 0, t.indent, t.mode, rest, col);
        },
        Doc::Group(v) => {
            let cand = stack_of(v@, 0, t.indent, Mode::Flat);
            lemma_scan_stack_same(o, o2, rest + cand, col as nat);
            lemma_crlf_list(o, v@, 0, t.indent, Mode::Flat, rest, col);
            lemma_crlf_list(o, v@, 0, t.indent, Mode::Break, rest, col);
        },
    }
}

proof fn lemma_crlf_list(
    o: PrintOptions,
    s: Seq<Rc<Doc>>,
    j: int,
    indent: usize,
    mode: Mode,
    rest: Seq<Task>,
    col: usize,
)
    requires
        o.line_break == LineBreak::Lf,
        0 <= j,
        no_lf_text_from(s, j),
    ensures
        ({
            let lf = lay_list(o, s, j, indent, mode, rest, col);
            let crlf = lay_list(PrintOptions { line_break: LineBreak::Crlf, ..o }, s, j, indent, mode, rest, col);
            &&& crlf.out == to_crlf(lf.out)
            &&& crlf.cols == lf.cols
            &&& crlf.fits == lf.fits
        }),
    decreases s, s.len() - j,
{
    if j < s.len() {
        let t = item_task(s, j, indent, mode);
        let more = rest + stack_of(s, j + 1, indent, mode);
        lemma_crlf_task(o, t, more, col);
        let r = lay_task(o, t, more, col);
        lemma_crlf_list(o, s, j + 1, indent, mode, rest, r.cols);
        lemma_to_crlf_add(r.out, lay_list(o, s, j + 1, indent, mode, rest, r.cols).out);
    } else {
        assert(to_crlf(Seq::<char>::empty()) =~= Seq::<char>::empty());
    }
}

/// Writing line breaks as CRLF instead of LF changes only the line breaks:
/// the CRLF layout is the LF layout with each `'\n'` written as `"\r\n"`,
/// so the text and the places where lines break are the same.
pub proof fn law_crlf_changes_only_line_breaks(o: PrintOptions, d: Doc)
    requires
        o.line_break == LineBreak::Lf,
        no_lf_text(d),
    ensures
        layout(PrintOptions { line_break: LineBreak::Crlf, ..o }, d) == to_crlf(layout(o, d)),
{
    lemma_crlf_task(o, Task { indent: 0, mode: Mode::Break, doc: d }, Seq::empty(), 0);
}

proof fn lemma_scan_flat_over(o: PrintOptions, t: Task, col: nat)
    requires
        t.mode == Mode::Flat,
        no_hard_line(t.doc),
        col + flat_width(o, t.doc) > o.width,
    ensures
        scan_task(o, t, col) == Scan::Stop(false),
    decreases t.doc,
{
    if col <= o.width {
        match t.doc {
            Doc::Nest(_, _) => lemma_scan_flat_over(o, nest_inner(t), col),
            Doc::Alt(_, _) => lemma_scan_flat_over(o, branch(t, true), col),
            Doc::Union(_, _) => lemma_scan_flat_over(o, branch(t, true), col),
            Doc::List(v) => lemma_scan_flat_list_over(o, v@, 0, t.indent, col),
            Doc::Group(v) => lemma_scan_flat_list_over(o, v@, 0, t.indent, col),
            _ => {},
        }
    }
}

proof fn lemma_scan_flat_list_over(o: PrintOptions, s: Seq<Rc<Doc>>, j: int, indent: usize, col: nat)
    requires
        0 <= j,
        no_hard_line_from(s, j),
        col + flat_width_from(o, s, j) > o.width,
        col <= o.width,
    ensures
        scan_list(o, s, j, indent, Mode::Flat, col) == Scan::Stop(false),
    decreases s, s.len() - j,
{
    if j < s.len() {
        let t = item_task(s, j, indent, Mode::Flat);
        if col + flat_width(o, t.doc) > o.width {
            lemma_scan_flat_over(o, t, col);
        } else {
            lemma_scan_flat(o, t, col);
            lemma_scan_flat_list_over(o, s, j + 1, indent, col + flat_width(o, t.doc));
        }
    }
}

/// A group in break mode, whose content holds no hard line, is laid out
/// flat exactly when its flat rendering fits from the column where it
/// starts and what follows it still fits, up to the next place where a line
/// surely ends; otherwise it breaks.
pub proof fn law_group_breaks_iff_too_wide(o: PrintOptions, t: Task, rest: Seq<Task>, col: usize)
    requires
        t.mode == Mode::Break,
        t.doc is Group,
        no_hard_line(t.doc),
    ensures
        ({
            let v = t.doc->Group_0;
            let end = (col + flat_width(o, t.doc)) as nat;
            let flat_fits = end <= o.width && verdict(scan_stack(o, rest, end));
            lay_task(o, t, rest, col) == lay_list(
                o,
                v@,
                0,
                t.indent,
                if flat_fits {
                    Mode::Flat
                } else {
                    Mode::Break
                },
                rest,
                col,
            )
        }),
{
    let v = t.doc->Group_0;
    let end = (col + flat_width(o, t.doc)) as nat;
    lemma_scan_stack_children(o, rest, v@, 0, t.indent, Mode::Flat, col as nat);
    if end <= o.width {
        lemma_scan_flat_list(o, v@, 0, t.indent, col as nat);
    } else if col <= o.width {
        lemma_scan_flat_list_over(o, v@, 0, t.indent, col as nat);
    } else if v@.len() > 0 {
        lemma_scan_flat_over(o, item_task(v@, 0, t.indent, Mode::Flat), col as nat);
    } else {
        assert(lay_list(o, v@, 0, t.indent, Mode::Flat, rest, col) == lay_list(o, v@, 0, t.indent, Mode::Break, rest, col));
    }
}

/// The flat rendering of `d` holds a hard line: one is reached through the
/// first documents of alternatives and unions.
pub open spec fn flat_hard_line(d: Doc) -> bool
    decreases d,
{
    match d {
        Doc::NewLine => true,
        Doc::Alt(a, _) => flat_hard_line(*a),
        Doc::Union(a, _) => flat_hard_line(*a),
        Doc::Nest(_, x) => flat_hard_line(*x),
        Doc::List(v) => flat_hard_line_from(v@, 0),
        Doc::Group(v) => flat_hard_line_from(v@, 0),
        _ => false,
    }
}

pub open spec fn flat_hard_line_from(s: Seq<Rc<Doc>>, j: int) -> bool
    decreases s, s.len() - j,
{
    if 0 <= j < s.len() {
        flat_hard_line(*s[j]) || flat_hard_line_from(s, j + 1)
    } else {
        false
    }
}

proof fn lemma_scan_flat_never_sure(o: PrintOptions, t: Task, col: nat)
    requires
        t.mode == Mode::Flat,
    ensures
        scan_task(o, t, col) != Scan::Stop(true),
    decreases t.doc,
{
    if col <= o.width {
        match t.doc {
            Doc::Nest(_, _) => lemma_scan_flat_never_sure(o, nest_inner(t), col),
            Doc::Alt(_, _) => lemma_scan_flat_never_sure(o, branch(t, true), col),
            Doc::Union(_, _) => lemma_scan_flat_never_sure(o, branch(t, true), col),
            Doc::List(v) => lemma_scan_flat_list_never_sure(o, v@, 0, t.indent, col),
            Doc::Group(v) => lemma_scan_flat_list_never_sure(o, v@, 0, t.indent, col),
            _ => {},
        }
    }
}

proof fn lemma_scan_flat_list_never_sure(o: PrintOptions, s: Seq<Rc<Doc>>, j: int, indent: usize, col: nat)
    requires
        0 <= j,
    ensures
        scan_list(o, s, j, indent, Mode::Flat, col) != Scan::Stop(true),
    decreases s, s.len() - j,
{
    if j < s.len() {
        let t = item_task(s, j, indent, Mode::Flat);
        lemma_scan_flat_never_sure(o, t, col);
        match scan_task(o, t, col) {
            Scan::Go(c) => lemma_scan_flat_list_never_sure(o, s, j + 1, indent, c),
            Scan::Stop(_) => {},
        }
    }
}

proof fn lemma_scan_flat_hard_line(o: PrintOptions, t: Task, col: nat)
    requires
        t.mode == Mode::Flat,
        flat_hard_line(t.doc),
    ensures
        scan_task(o, t, col) == Scan::Stop(false),
    decreases t.doc,
{
    if col <= o.width {
        match t.doc {
            Doc::Nest(_, _) => lemma_scan_flat_hard_line(o, nest_inner(t), col),
            Doc::Alt(_, _) => lemma_scan_flat_hard_line(o, branch(t, true), col),
            Doc::Union(_, _) => lemma_scan_flat_hard_line(o, branch(t, true), col),
            Doc::List(v) => lemma_scan_flat_list_hard_line(o, v@, 0, t.indent, col),
            Doc::Group(v) => lemma_scan_flat_list_hard_line(o, v@, 0, t.indent, col),
            _ => {},
        }
    }
}

proof fn lemma_scan_flat_list_hard_line(o: PrintOptions, s: Seq<Rc<Doc>>, j: int, indent: usize, col: nat)
    requires
        0 <= j,
        flat_hard_line_from(s, j),
    ensures
        scan_list(o, s, j, indent, Mode::Flat, col) == Scan::Stop(false),
    decreases s, s.len() - j,
{
    let t = item_task(s, j, indent, Mode::Flat);
    lemma_scan_flat_never_sure(o, t, col);
    if flat_hard_line(t.doc) {
        lemma_scan_flat_hard_line(o, t, col);
    } else {
        match scan_task(o, t, col) {
            Scan::Go(c) => lemma_scan_flat_list_hard_line(o, s, j + 1, indent, c),
            Scan::Stop(_) => {},
        }
    }
}

/// A group in break mode whose flat rendering would hold a hard line always
/// breaks, whatever the width.
pub proof fn law_hard_line_forces_break(o: PrintOptions, t: Task, rest: Seq<Task>, col: usize)
    requires
        t.mode == Mode::Break,
        t.doc is Group,
        flat_hard_line(t.doc),
    ensures
        lay_task(o, t, rest, col) == lay_list(o, (t.doc->Group_0)@, 0, t.indent, Mode::Break, rest, col),
{
    let v = t.doc->Group_0;
    lemma_scan_stack_children(o, rest, v@, 0, t.indent, Mode::Flat, col as nat);
    lemma_scan_flat_list_hard_line(o, v@, 0, t.indent, col as nat);
}

} // verus!
