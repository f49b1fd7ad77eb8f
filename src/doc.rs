use std::rc::Rc;
use vstd::prelude::*;

verus! {

/// The tree that describes what to print and where lines may break.
///
/// Build it with the constructors and combinators below rather than with the
/// variants themselves.
#[derive(Clone)]
pub enum Doc {
    /// Prints nothing.
    Nil,
    /// The first document in flat mode, the second in break mode.
    Alt(Rc<Doc>, Rc<Doc>),
    /// The first document if it stays within the width, else the second.
    Union(Rc<Doc>, Rc<Doc>),
    /// The inner document with its indentation raised by the amount.
    Nest(usize, Rc<Doc>),
    /// A piece of text without line breaks.
    Text(String),
    /// A line break followed by the current indentation.
    NewLine,
    /// A line break without indentation.
    EmptyLine,
    /// Spaces in flat mode; in break mode a line break, indented by the
    /// current indentation plus the offset.
    Break(usize, usize),
    /// Documents laid out together, all flat or all broken.
    Group(Vec<Rc<Doc>>),
    /// Documents one after the other.
    List(Vec<Rc<Doc>>),
}

/// The number of nodes of a document, counting a shared subtree once per use.
pub open spec fn doc_size(d: Doc) -> nat
    decreases d,
{
    match d {
        Doc::Alt(a, b) => 1 + doc_size(*a) + doc_size(*b),
        Doc::Union(a, b) => 1 + doc_size(*a) + doc_size(*b),
        Doc::Nest(_, a) => 1 + doc_size(*a),
        Doc::Group(v) => 1 + docs_size(v@, 0),
        Doc::List(v) => 1 + docs_size(v@, 0),
        _ => 1,
    }
}

/// The summed size of the documents of `s` from index `i` on.
pub open spec fn docs_size(s: Seq<Rc<Doc>>, i: int) -> nat
    decreases s, s.len() - i,
{
    if 0 <= i < s.len() {
        doc_size(*s[i]) + docs_size(s, i + 1)
    } else {
        0
    }
}

/// The documents behind the shared pointers of `v`.
pub open spec fn derefs(v: Seq<Rc<Doc>>) -> Seq<Doc> {
    v.map_values(|x: Rc<Doc>| *x)
}

/// The documents that `d` contributes when joined with another: the items
/// of a list, or `d` itself.
pub open spec fn items(d: Doc) -> Seq<Doc> {
    match d {
        Doc::List(v) => derefs(v@),
        _ => seq![d],
    }
}

/// `r` is `d` marked as a group.
pub open spec fn grouped(d: Doc, r: Doc) -> bool {
    match d {
        Doc::List(v) => r == Doc::Group(v),
        Doc::Group(_) => r == d,
        _ => r matches Doc::Group(v) && derefs(v@) == seq![d],
    }
}

/// `r` is `d` indented by `size` more: a break takes the amount into its
/// offset, anything else is wrapped.
pub open spec fn nested(d: Doc, size: usize, r: Doc) -> bool {
    match d {
        Doc::Break(spaces, offset) => r == Doc::Break(
            spaces,
            if offset + size > usize::MAX {
                usize::MAX
            } else {
                (offset + size) as usize
            },
        ),
        _ => r matches Doc::Nest(k, x) && k == size && *x == d,
    }
}

/// Wraps each document of `input` in a shared pointer, keeping the order.
fn share_all(input: Vec<Doc>) -> (r: Vec<Rc<Doc>>)
    ensures
        derefs(r@) == input@,
{
    let ghost orig = input@;
    let mut docs = input;
    let mut rev: Vec<Doc> = Vec::new();
    while docs.len() > 0
        invariant
            orig == docs@ + rev@.reverse(),
        decreases docs.len(),
    {
        let ghost before = docs@;
        let d = docs.pop().unwrap();
        let ghost rev0 = rev@;
        rev.push(d);
        assert(before =~= docs@.push(d));
        assert(rev@.reverse() =~= seq![d] + rev0.reverse());
        assert(docs@ + rev@.reverse() =~= before + rev0.reverse());
    }
    let mut r: Vec<Rc<Doc>> = Vec::new();
    assert(orig =~= derefs(r@) + rev@.reverse());
    while rev.len() > 0
        invariant
            orig == derefs(r@) + rev@.reverse(),
        decreases rev.len(),
    {
        let ghost before = rev@;
        let ghost r0 = r@;
        let d = rev.pop().unwrap();
        assert(before =~= rev@.push(d));
        assert(before.reverse() =~= seq![d] + rev@.reverse());
        r.push(Rc::new(d));
        assert(derefs(r@) =~= derefs(r0) + seq![d]);
        assert(derefs(r@) + rev@.reverse() =~= derefs(r0) + before.reverse());
    }
    assert(derefs(r@) =~= orig);
    r
}

impl Doc {
    /// A piece of text. It must not hold a line break.
    pub fn text(s: &str) -> (r: Doc)
        ensures
            r matches Doc::Text(t) && t@ == s@,
    {
        Doc::Text(String::from_str(s))
    }

    /// The empty document, which prints nothing.
    pub fn nil() -> (r: Doc)
        ensures
            r == Doc::Nil,
    {
        Doc::Nil
    }

    /// A single space.
    pub fn space() -> (r: Doc)
        ensures
            r matches Doc::Text(t) && t@ == seq![' '],
    {
        proof {
            reveal_strlit(" ");
        }
        Doc::Text(String::from_str(" "))
    }

    /// A line break that is always printed, followed by the indentation; a
    /// group that holds one always breaks.
    pub fn hard_line() -> (r: Doc)
        ensures
            r == Doc::NewLine,
    {
        Doc::NewLine
    }

    /// A space while the content fits on the line, a line break once it
    /// would not: a group of its own around a break.
    pub fn soft_line() -> (r: Doc)
        ensures
            r matches Doc::Group(v) && derefs(v@) == seq![Doc::Break(1, 0)],
    {
        let v = vec![Rc::new(Doc::Break(1, 0))];
        assert(derefs(v@) =~= seq![Doc::Break(1, 0)]);
        Doc::Group(v)
    }

    /// A line break without indentation, whatever the nesting.
    pub fn empty_line() -> (r: Doc)
        ensures
            r == Doc::EmptyLine,
    {
        Doc::EmptyLine
    }

    /// The documents one after the other.
    pub fn list(docs: Vec<Doc>) -> (r: Doc)
        ensures
            r matches Doc::List(v) && derefs(v@) == docs@,
    {
        Doc::List(share_all(docs))
    }

    /// A space if the enclosing group is flat, else a line break. Outside
    /// any group it is a line break.
    pub fn line_or_space() -> (r: Doc)
        ensures
            r == Doc::Break(1, 0),
    {
        Doc::Break(1, 0)
    }

    /// Nothing if the enclosing group is flat, else a line break. Outside
    /// any group it is a line break.
    pub fn line_or_nil() -> (r: Doc)
        ensures
            r == Doc::Break(0, 0),
    {
        Doc::Break(0, 0)
    }

    /// `doc_flat` if the enclosing group is flat, else `doc_break`.
    pub fn flat_or_break(doc_flat: Doc, doc_break: Doc) -> (r: Doc)
        ensures
            r matches Doc::Alt(f, b) && *f == doc_flat && *b == doc_break,
    {
        Doc::Alt(Rc::new(doc_flat), Rc::new(doc_break))
    }

    /// This document if printing it stays within the width, else
    /// `alternate`.
    pub fn union(self, alternate: Doc) -> (r: Doc)
        ensures
            r matches Doc::Union(a, b) && *a == self && *b == alternate,
    {
        Doc::Union(Rc::new(self), Rc::new(alternate))
    }

    /// Marks the document as a group, laid out all flat or all broken. A
    /// list becomes a group of its items; a group stays as it is.
    pub fn group(self) -> (r: Doc)
        ensures
            grouped(self, r),
    {
        match self {
            Doc::List(list) => Doc::Group(list),
            Doc::Group(..) => self,
            doc => {
                let v = vec![Rc::new(doc)];
                assert(derefs(v@) =~= seq![doc]);
                Doc::Group(v)
            },
        }
    }

    /// This document followed by `other`, as one list.
    pub fn append(self, other: Doc) -> (r: Doc)
        ensures
            r matches Doc::List(v) && derefs(v@) == items(self) + items(other),
    {
        let ghost left = items(self);
        let mut current = if let Doc::List(docs) = self {
            docs
        } else {
            let v = vec![Rc::new(self)];
            assert(derefs(v@) =~= seq![self]);
            v
        };
        assert(derefs(current@) == left);
        match other {
            Doc::List(mut docs) => {
                let ghost c0 = current@;
                let ghost d0 = docs@;
                current.append(&mut docs);
                assert(derefs(current@) =~= derefs(c0) + derefs(d0));
            },
            _ => {
                let ghost c0 = current@;
                current.push(Rc::new(other));
                assert(derefs(current@) =~= derefs(c0) + seq![other]);
            },
        }
        Doc::List(current)
    }

    /// This document followed by each of `docs`, as one list.
    pub fn concat(self, docs: Vec<Doc>) -> (r: Doc)
        ensures
            r matches Doc::List(v) && derefs(v@) == items(self) + docs@,
    {
        let ghost left = items(self);
        let mut current = if let Doc::List(list) = self {
            list
        } else {
            let v = vec![Rc::new(self)];
            assert(derefs(v@) =~= seq![self]);
            v
        };
        let mut shared = share_all(docs);
        let ghost c0 = current@;
        let ghost s0 = shared@;
        current.append(&mut shared);
        assert(derefs(current@) =~= derefs(c0) + derefs(s0));
        Doc::List(current)
    }

    /// Raises the indentation of the lines inside this document by `size`.
    /// On a break it adds to the break's offset; text is not affected.
    pub fn nest(self, size: usize) -> (r: Doc)
        ensures
            nested(self, size, r),
    {
        match self {
            Doc::Break(spaces, offset) => Doc::Break(spaces, offset.saturating_add(size)),
            doc => Doc::Nest(size, Rc::new(doc)),
        }
    }
}

} // verus!
