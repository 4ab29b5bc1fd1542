//! Width measurement and the layout pass that decides where lines break.
use std::collections::{HashSet, VecDeque};
use std::rc::Rc;
use vstd::prelude::*;
use vstd::string::*;

use crate::doc::{abs, weight, CommonProperties, Doc, GroupDocProperties, InlineCommentPosition, ShouldBreak};

verus! {

broadcast use {vstd::std_specs::vecdeque::group_vec_dequeue_axioms, vstd::std_specs::hash::group_hash_axioms};

/// How the breaks of a document are printed.
#[derive(Debug, Clone, Copy, PartialEq, Eq, Structural)]
pub enum Mode {
    Flat,
    Break,
}

/// An entry of the work queue: indentation, mode and document.
pub type Triple = (i32, Mode, Rc<Doc>);

/// The total weight of the documents in a work queue.
pub open spec fn queue_weight(q: Seq<Triple>) -> nat
    decreases q.len(),
{
    if q.len() == 0 {
        0
    } else {
        weight(*q[0].2) + queue_weight(q.drop_first())
    }
}

pub proof fn lemma_queue_weight_push(x: Triple, q: Seq<Triple>)
    ensures
        queue_weight(seq![x] + q) == weight(*x.2) + queue_weight(q),
{
    assert((seq![x] + q).drop_first() =~= q);
}

pub proof fn lemma_queue_weight_push2(x: Triple, y: Triple, q: Seq<Triple>)
    ensures
        queue_weight(seq![x, y] + q) == weight(*x.2) + weight(*y.2) + queue_weight(q),
{
    assert(seq![x, y] + q =~= seq![x] + (seq![y] + q));
    lemma_queue_weight_push(x, seq![y] + q);
    lemma_queue_weight_push(y, q);
}

pub proof fn lemma_queue_weight_pop(q: Seq<Triple>)
    requires
        q.len() > 0,
    ensures
        queue_weight(q) == weight(*q[0].2) + queue_weight(q.subrange(1, q.len() as int)),
{
    assert(q.drop_first() =~= q.subrange(1, q.len() as int));
}

/// The weight of a shared document.
pub open spec fn rc_weight(d: Rc<Doc>) -> nat {
    weight(*d)
}

/// Whether a text is a single opening brace.
pub open spec fn is_l_bracket(s: Seq<char>) -> bool {
    s == seq!['{']
}

/// Whether the queue starts with a text that is a single opening brace.
pub open spec fn starts_with_l_bracket(q: Seq<Triple>) -> bool {
    q.len() > 0 && match *q[0].2 {
        Doc::Text(t, _, _) => is_l_bracket(t@),
        _ => false,
    }
}

/// The width of a text; zero for any other document.
pub open spec fn text_width(d: Doc) -> int {
    match d {
        Doc::Text(_, w, _) => w as int,
        _ => 0,
    }
}

/// Whether the flat rendering of the queue, measured up to its first lone
/// opening brace, stays within `rem` columns. Two opening braces in a row
/// are measured as one token.
pub open spec fn fits_bracket_spec(rem: int, q: Seq<Triple>) -> bool
    decreases queue_weight(q),
{
    if rem < 0 {
        false
    } else if q.len() == 0 {
        true
    } else {
        let (i, m, d) = q[0];
        let rest = q.drop_first();
        match *d {
            Doc::Nil => fits_bracket_spec(rem, rest),
            Doc::FitsUntilLBracket(inner, _) => {
                proof { lemma_queue_weight_push((i, m, inner), rest); }
                fits_bracket_spec(rem, seq![(i, m, inner)] + rest)
            },
            Doc::Cons(a, b, _) => {
                proof { lemma_queue_weight_push2((i, m, a), (i, m, b), rest); }
                fits_bracket_spec(rem, seq![(i, m, a), (i, m, b)] + rest)
            },
            Doc::Nest(_, inner, _) => {
                proof { lemma_queue_weight_push((i, m, inner), rest); }
                fits_bracket_spec(rem, seq![(i, m, inner)] + rest)
            },
            Doc::NestIfBreak(_, inner, _, _) => {
                proof { lemma_queue_weight_push((i, m, inner), rest); }
                fits_bracket_spec(rem, seq![(i, m, inner)] + rest)
            },
            Doc::NestHanging(inner, _) => {
                proof { lemma_queue_weight_push((i, m, inner), rest); }
                fits_bracket_spec(rem, seq![(i, m, inner)] + rest)
            },
            Doc::Text(t, w, _) => {
                if !is_l_bracket(t@) {
                    fits_bracket_spec(rem - w, rest)
                } else if starts_with_l_bracket(rest) {
                    fits_bracket_spec(rem - w - text_width(*rest[0].2), rest.drop_first())
                } else {
                    rem > 0
                }
            },
            Doc::Break(s) => fits_bracket_spec(rem - s@.len(), rest),
            Doc::Group(g, p) => {
                if p.0 == InlineCommentPosition::Middle || g.1 == ShouldBreak::Propagate {
                    false
                } else {
                    proof { lemma_queue_weight_push((i, Mode::Flat, g.0), rest); }
                    fits_bracket_spec(rem, seq![(i, Mode::Flat, g.0)] + rest)
                }
            },
            Doc::HardBreak => false,
        }
    }
}

/// Whether the flat rendering of the queue stays within `rem` columns before
/// its first mandatory line break.
pub open spec fn fits_spec(rem: int, q: Seq<Triple>) -> bool
    decreases queue_weight(q),
{
    if rem < 0 {
        false
    } else if q.len() == 0 {
        true
    } else {
        let (i, m, d) = q[0];
        let rest = q.drop_first();
        match *d {
            Doc::Nil => fits_spec(rem, rest),
            Doc::FitsUntilLBracket(inner, _) => fits_bracket_spec(rem, seq![(i, m, inner)] + rest),
            Doc::Cons(a, b, _) => {
                proof { lemma_queue_weight_push2((i, m, a), (i, m, b), rest); }
                fits_spec(rem, seq![(i, m, a), (i, m, b)] + rest)
            },
            Doc::Nest(_, inner, _) => {
                proof { lemma_queue_weight_push((i, m, inner), rest); }
                fits_spec(rem, seq![(i, m, inner)] + rest)
            },
            Doc::NestIfBreak(_, inner, _, _) => {
                proof { lemma_queue_weight_push((i, m, inner), rest); }
                fits_spec(rem, seq![(i, m, inner)] + rest)
            },
            Doc::NestHanging(inner, _) => {
                proof { lemma_queue_weight_push((i, m, inner), rest); }
                fits_spec(rem, seq![(i, m, inner)] + rest)
            },
            Doc::Text(_, w, _) => fits_spec(rem - w, rest),
            Doc::Break(s) => fits_spec(rem - s@.len(), rest),
            Doc::Group(g, p) => {
                if p.0 == InlineCommentPosition::Middle || g.1 == ShouldBreak::Propagate {
                    false
                } else {
                    proof { lemma_queue_weight_push((i, Mode::Flat, g.0), rest); }
                    fits_spec(rem, seq![(i, Mode::Flat, g.0)] + rest)
                }
            },
            Doc::HardBreak => false,
        }
    }
}

/// Every entry of the queue is in flat mode.
pub open spec fn all_flat(q: Seq<Triple>) -> bool {
    forall|k: int| 0 <= k < q.len() ==> (#[trigger] q[k]).1 == Mode::Flat
}

/// Whether a string is a single opening brace.
fn is_l_bracket_text(s: &String) -> (r: bool)
    ensures
        r == is_l_bracket(s@),
{
    let t = s.as_str();
    if t.unicode_len() == 1 {
        let c = t.get_char(0);
        if c == '{' {
            assert(s@ =~= seq!['{']);
            true
        } else {
            false
        }
    } else {
        false
    }
}

/// The number of columns a break's text takes when its group stays flat.
fn break_width(s: &String) -> (r: usize)
    ensures
        r == s@.len(),
{
    s.as_str().unicode_len()
}

/// Whether the flat rendering of the queue, measured up to its first lone
/// opening brace, stays within `remaining_width` columns.
///
/// A `{` followed at once by another `{` is measured like any text; any
/// other `{` ends the measurement, which then succeeds when at least one
/// column is left.
pub fn fits_until_l_bracket(remaining_width: i64, docs: VecDeque<Triple>) -> (r: bool)
    requires
        all_flat(docs@),
    ensures
        r == fits_bracket_spec(remaining_width as int, docs@),
    decreases queue_weight(docs@),
{
    let ghost rem0 = remaining_width as int;
    let ghost q0 = docs@;
    let mut width_left = remaining_width;
    let mut queue = docs;
    while width_left >= 0
        invariant
            all_flat(queue@),
            fits_bracket_spec(width_left as int, queue@) == fits_bracket_spec(rem0, q0),
            queue_weight(queue@) <= queue_weight(q0),
            rem0 == remaining_width as int,
            q0 == docs@,
        decreases queue_weight(queue@),
    {
        let ghost q = queue@;
        proof {
            if q.len() > 0 {
                lemma_queue_weight_pop(q);
            }
        }
        match queue.pop_front() {
            None => {
                return true;
            },
            Some((i, m, doc)) => {
                assert(q.drop_first() == queue@);
                match &*doc {
                    Doc::Nil => {},
                    Doc::FitsUntilLBracket(inner, _) => {
                        queue.push_front((i, m, Rc::clone(inner)));
                        proof { lemma_queue_weight_push((i, m, *inner), q.drop_first()); }
                        return fits_until_l_bracket(width_left, queue);
                    },
                    Doc::Cons(first, second, _) => {
                        queue.push_front((i, m, Rc::clone(second)));
                        queue.push_front((i, m, Rc::clone(first)));
                        proof {
                            assert(queue@ =~= seq![(i, m, *first), (i, m, *second)] + q.drop_first());
                            lemma_queue_weight_push2((i, m, *first), (i, m, *second), q.drop_first());
                        }
                    },
                    Doc::Nest(_, inner, _) => {
                        queue.push_front((i, m, Rc::clone(inner)));
                        proof { lemma_queue_weight_push((i, m, *inner), q.drop_first()); }
                    },
                    Doc::NestIfBreak(_, inner, _, _) => {
                        queue.push_front((i, m, Rc::clone(inner)));
                        proof { lemma_queue_weight_push((i, m, *inner), q.drop_first()); }
                    },
                    Doc::NestHanging(inner, _) => {
                        queue.push_front((i, m, Rc::clone(inner)));
                        proof { lemma_queue_weight_push((i, m, *inner), q.drop_first()); }
                    },
                    Doc::Text(text, width, _) => {
                        if is_l_bracket_text(text) {
                            let next_width: Option<usize> = if queue.len() > 0 {
                                match &*queue[0].2 {
                                    Doc::Text(next, next_width, _) => {
                                        if is_l_bracket_text(next) {
                                            Some(*next_width)
                                        } else {
                                            None
                                        }
                                    },
                                    _ => None,
                                }
                            } else {
                                None
                            };
                            match next_width {
                                None => {
                                    return width_left > 0;
                                },
                                Some(next_width) => {
                                    let ghost rest = queue@;
                                    proof { lemma_queue_weight_pop(rest); }
                                    queue.pop_front();
                                    assert(rest.drop_first() == queue@);
                                    if *width as u64 > width_left as u64
                                        || next_width as u64 > (width_left - *width as i64) as u64 {
                                        assert(!fits_bracket_spec(width_left - *width - next_width, queue@));
                                        return false;
                                    }
                                    width_left = width_left - *width as i64 - next_width as i64;
                                    continue;
                                },
                            }
                        }
                        if *width as u64 > width_left as u64 {
                            assert(!fits_bracket_spec(width_left - *width, queue@));
                            return false;
                        }
                        width_left = width_left - *width as i64;
                    },
                    Doc::Break(s) => {
                        let width = break_width(s);
                        if width as u64 > width_left as u64 {
                            assert(!fits_bracket_spec(width_left - width, queue@));
                            return false;
                        }
                        width_left = width_left - width as i64;
                    },
                    Doc::Group(groupped_doc, CommonProperties(inline_comment_pos, _)) => {
                        if *inline_comment_pos == InlineCommentPosition::Middle
                            || groupped_doc.1 == ShouldBreak::Propagate {
                            return false;
                        }
                        queue.push_front((i, Mode::Flat, Rc::clone(&groupped_doc.0)));
                        proof { lemma_queue_weight_push((i, Mode::Flat, groupped_doc.0), q.drop_first()); }
                    },
                    Doc::HardBreak => {
                        return false;
                    },
                }
            },
        }
    }
    false
}

/// Whether the flat rendering of the queue stays within `remaining_width`
/// columns before its first mandatory line break.
///
/// A hard break, a group with a comment in its middle and a group that
/// propagates its break never fit; a bracket-measured document hands the
/// rest of the measurement to [`fits_until_l_bracket`].
pub fn fits(remaining_width: i64, docs: VecDeque<Triple>) -> (r: bool)
    requires
        all_flat(docs@),
    ensures
        r == fits_spec(remaining_width as int, docs@),
{
    let ghost rem0 = remaining_width as int;
    let ghost q0 = docs@;
    let mut width_left = remaining_width;
    let mut queue = docs;
    while width_left >= 0
        invariant
            all_flat(queue@),
            fits_spec(width_left as int, queue@) == fits_spec(rem0, q0),
            queue_weight(queue@) <= queue_weight(q0),
            rem0 == remaining_width as int,
            q0 == docs@,
        decreases queue_weight(queue@),
    {
        let ghost q = queue@;
        proof {
            if q.len() > 0 {
                lemma_queue_weight_pop(q);
            }
        }
        match queue.pop_front() {
            None => {
                return true;
            },
            Some((i, m, doc)) => {
                assert(q.drop_first() == queue@);
                match &*doc {
                    Doc::Nil => {},
                    Doc::FitsUntilLBracket(inner, _) => {
                        queue.push_front((i, m, Rc::clone(inner)));
                        return fits_until_l_bracket(width_left, queue);
                    },
                    Doc::Cons(first, second, _) => {
                        queue.push_front((i, m, Rc::clone(second)));
                        queue.push_front((i, m, Rc::clone(first)));
                        proof {
                            assert(queue@ =~= seq![(i, m, *first), (i, m, *second)] + q.drop_first());
                            lemma_queue_weight_push2((i, m, *first), (i, m, *second), q.drop_first());
                        }
                    },
                    Doc::Nest(_, inner, _) => {
                        queue.push_front((i, m, Rc::clone(inner)));
                        proof { lemma_queue_weight_push((i, m, *inner), q.drop_first()); }
                    },
                    Doc::NestIfBreak(_, inner, _, _) => {
                        queue.push_front((i, m, Rc::clone(inner)));
                        proof { lemma_queue_weight_push((i, m, *inner), q.drop_first()); }
                    },
                    Doc::NestHanging(inner, _) => {
                        queue.push_front((i, m, Rc::clone(inner)));
                        proof { lemma_queue_weight_push((i, m, *inner), q.drop_first()); }
                    },
                    Doc::Text(_, width, _) => {
                        if *width as u64 > width_left as u64 {
                            assert(!fits_spec(width_left - *width, queue@));
                            return false;
                        }
                        width_left = width_left - *width as i64;
                    },
                    Doc::Break(s) => {
                        let width = break_width(s);
                        if width as u64 > width_left as u64 {
                            assert(!fits_spec(width_left - width, queue@));
                            return false;
                        }
                        width_left = width_left - width as i64;
                    },
                    Doc::Group(groupped_doc, CommonProperties(inline_comment_pos, _)) => {
                        if *inline_comment_pos == InlineCommentPosition::Middle
                            || groupped_doc.1 == ShouldBreak::Propagate {
                            return false;
                        }
                        queue.push_front((i, Mode::Flat, Rc::clone(&groupped_doc.0)));
                        proof { lemma_queue_weight_push((i, Mode::Flat, groupped_doc.0), q.drop_first()); }
                    },
                    Doc::HardBreak => {
                        return false;
                    },
                }
            },
        }
    }
    false
}

/// An element of a laid-out document: text, or a line break followed by
/// an indentation of the given number of spaces.
#[derive(Debug, Clone)]
pub enum SimpleDoc {
    Text(String),
    Line(usize),
}

/// What an element of a laid-out document holds.
pub enum Piece {
    Text(Seq<char>),
    Line(nat),
}

pub open spec fn piece_of(d: SimpleDoc) -> Piece {
    match d {
        SimpleDoc::Text(s) => Piece::Text(s@),
        SimpleDoc::Line(n) => Piece::Line(n as nat),
    }
}

pub open spec fn pieces_of(ds: Seq<SimpleDoc>) -> Seq<Piece> {
    ds.map_values(|d: SimpleDoc| piece_of(d))
}

/// The indentation printed for a line: a negative one prints no spaces.
pub open spec fn line_indent(i: int) -> nat {
    if i < 0 { 0 } else { i as nat }
}

/// The layout of a work queue: the elements it emits, and the set of ids of
/// the groups that were broken, given the line length, the column already
/// consumed and the ids of the groups broken before.
pub open spec fn layout_spec(
    line_length: int,
    consumed: int,
    q: Seq<Triple>,
    broken: Set<usize>,
) -> (Seq<Piece>, Set<usize>)
    decreases queue_weight(q),
{
    if q.len() == 0 {
        (seq![], broken)
    } else {
        let (i, m, d) = q[0];
        let rest = q.drop_first();
        match *d {
            Doc::Nil => layout_spec(line_length, consumed, rest, broken),
            Doc::Cons(a, b, _) => {
                proof { lemma_queue_weight_push2((i, m, a), (i, m, b), rest); }
                layout_spec(line_length, consumed, seq![(i, m, a), (i, m, b)] + rest, broken)
            },
            Doc::Nest(step, inner, _) => {
                let x = ((i + step) as i32, m, inner);
                proof { lemma_queue_weight_push(x, rest); }
                layout_spec(line_length, consumed, seq![x] + rest, broken)
            },
            Doc::NestIfBreak(step, inner, _, id) => {
                let x = (if broken.contains(id) { (i + step) as i32 } else { i }, m, inner);
                proof { lemma_queue_weight_push(x, rest); }
                layout_spec(line_length, consumed, seq![x] + rest, broken)
            },
            Doc::NestHanging(inner, _) => {
                let x = (consumed as i32, m, inner);
                proof { lemma_queue_weight_push(x, rest); }
                layout_spec(line_length, consumed, seq![x] + rest, broken)
            },
            Doc::Text(t, w, _) => {
                let r = layout_spec(line_length, consumed + w, rest, broken);
                (seq![Piece::Text(t@)] + r.0, r.1)
            },
            Doc::Break(t) => {
                if m == Mode::Flat {
                    let r = layout_spec(line_length, consumed + t@.len(), rest, broken);
                    (seq![Piece::Text(t@)] + r.0, r.1)
                } else {
                    let r = layout_spec(line_length, i as int, rest, broken);
                    (seq![Piece::Line(line_indent(i as int))] + r.0, r.1)
                }
            },
            Doc::FitsUntilLBracket(inner, _) => {
                proof { lemma_queue_weight_push((i, m, inner), rest); }
                layout_spec(line_length, consumed, seq![(i, m, inner)] + rest, broken)
            },
            Doc::Group(g, p) => {
                if group_breaks(line_length, consumed, i, g, p) {
                    proof { lemma_queue_weight_push((i, Mode::Break, g.0), rest); }
                    layout_spec(line_length, consumed, seq![(i, Mode::Break, g.0)] + rest, broken.insert(p.1))
                } else {
                    proof { lemma_queue_weight_push((i, Mode::Flat, g.0), rest); }
                    layout_spec(line_length, consumed, seq![(i, Mode::Flat, g.0)] + rest, broken)
                }
            },
            Doc::HardBreak => layout_spec(line_length, consumed, rest, broken),
        }
    }
}

/// Whether a group met at column `consumed` and indentation `i` breaks: it
/// is forced to, it holds a comment that forces it, or its content does not
/// fit flat in what is left of the line.
pub open spec fn group_breaks(
    line_length: int,
    consumed: int,
    i: i32,
    g: GroupDocProperties,
    p: CommonProperties,
) -> bool {
    g.1 == ShouldBreak::Yes
        || g.1 == ShouldBreak::Propagate
        || p.0 == InlineCommentPosition::Middle
        || p.0 == InlineCommentPosition::InGroup
        || !fits_spec(line_length - consumed, seq![(i, Mode::Flat, g.0)])
}

/// The queue, with every indentation and the consumed column widened by
/// `extra`, stays within the range of `i32`.
pub open spec fn loose(consumed: int, q: Seq<Triple>, extra: nat) -> bool {
    &&& abs(consumed) + extra + queue_weight(q) <= i32::MAX
    &&& forall|k: int| 0 <= k < q.len() ==> abs((#[trigger] q[k]).0 as int) + extra + queue_weight(q) <= i32::MAX
}

/// Every column and indentation the layout of the queue can reach fits in
/// an `i32`.
pub open spec fn bounded(consumed: int, q: Seq<Triple>) -> bool {
    loose(consumed, q, 0)
}

proof fn lemma_bounded_pop(consumed: int, q: Seq<Triple>)
    requires
        bounded(consumed, q),
        q.len() > 0,
    ensures
        loose(consumed, q.drop_first(), weight(*q[0].2)),
        abs(q[0].0 as int) + weight(*q[0].2) + queue_weight(q.drop_first()) <= i32::MAX,
{
    let rest = q.drop_first();
    lemma_queue_weight_pop(q);
    assert(q.drop_first() == q.subrange(1, q.len() as int));
    assert forall|k: int| 0 <= k < rest.len() implies abs((#[trigger] rest[k]).0 as int) + weight(*q[0].2)
        + queue_weight(rest) <= i32::MAX by {
        assert(rest[k] == q[k + 1]);
    }
    assert(q[0] == q[0]);
}

proof fn lemma_loose_push(consumed: int, x: Triple, rest: Seq<Triple>, extra: nat, extra2: nat)
    requires
        loose(consumed, rest, extra),
        weight(*x.2) + extra2 <= extra,
        abs(x.0 as int) + weight(*x.2) + extra2 + queue_weight(rest) <= i32::MAX,
    ensures
        loose(consumed, seq![x] + rest, extra2),
{
    let q = seq![x] + rest;
    lemma_queue_weight_push(x, rest);
    assert forall|k: int| 0 <= k < q.len() implies abs((#[trigger] q[k]).0 as int) + extra2 + queue_weight(q)
        <= i32::MAX by {
        if k > 0 {
            assert(q[k] == rest[k - 1]);
        }
    }
}

proof fn lemma_loose_weaken(consumed: int, consumed2: int, q: Seq<Triple>, extra: nat, extra2: nat)
    requires
        loose(consumed, q, extra),
        extra2 <= extra,
        abs(consumed2) + extra2 + queue_weight(q) <= i32::MAX,
    ensures
        loose(consumed2, q, extra2),
{
}

proof fn lemma_emit(out: Seq<SimpleDoc>, x: SimpleDoc, r: Seq<Piece>)
    ensures
        pieces_of(out.push(x)) + r == pieces_of(out) + (seq![piece_of(x)] + r),
{
    assert(pieces_of(out.push(x)) =~= pieces_of(out).push(piece_of(x)));
    assert(pieces_of(out).push(piece_of(x)) + r =~= pieces_of(out) + (seq![piece_of(x)] + r));
}

/// One step of the layout pass: handles the entry taken from the front of
/// the queue.
#[verifier::rlimit(50)]
fn layout_entry(
    entry: Triple,
    column: &mut i32,
    docs: &mut VecDeque<Triple>,
    line_length: i32,
    broken_docs: &mut HashSet<usize>,
    simple_docs: &mut Vec<SimpleDoc>,
)
    requires
        bounded(*old(column) as int, seq![entry] + old(docs)@),
    ensures
        bounded(*final(column) as int, final(docs)@),
        queue_weight(final(docs)@) < queue_weight(seq![entry] + old(docs)@),
        ({
            let before = layout_spec(
                line_length as int,
                *old(column) as int,
                seq![entry] + old(docs)@,
                old(broken_docs)@,
            );
            let after = layout_spec(line_length as int, *final(column) as int, final(docs)@, final(broken_docs)@);
            &&& pieces_of(final(simple_docs)@) + after.0 == pieces_of(old(simple_docs)@) + before.0
            &&& after.1 == before.1
        }),
{
    let ghost rest = docs@;
    let ghost q = seq![entry] + rest;
    let ghost c = *column as int;
    let ghost out = simple_docs@;
    let (i, m, doc) = entry;
    let ghost wd = rc_weight(doc);
    proof {
        assert(q.drop_first() =~= rest);
        assert(q[0] == entry);
        lemma_bounded_pop(c, q);
        lemma_queue_weight_pop(q);
    }
    match &*doc {
        Doc::Nil => {},
        Doc::Cons(first, second, _) => {
            docs.push_front((i, m, Rc::clone(second)));
            docs.push_front((i, m, Rc::clone(first)));
            proof {
                assert(docs@ =~= seq![(i, m, *first), (i, m, *second)] + rest);
                assert(seq![(i, m, *first), (i, m, *second)] + rest =~= seq![(i, m, *first)] + (seq![(i, m, *second)] + rest));
                lemma_loose_push(c, (i, m, *second), rest, wd, rc_weight(*first));
                lemma_loose_push(c, (i, m, *first), seq![(i, m, *second)] + rest, rc_weight(*first), 0);
                lemma_queue_weight_push2((i, m, *first), (i, m, *second), rest);
            }
        },
        Doc::Nest(step, inner, _) => {
            docs.push_front((i + *step, m, Rc::clone(inner)));
            proof {
                lemma_loose_push(c, ((i + *step) as i32, m, *inner), rest, wd, 0);
                lemma_queue_weight_push(((i + *step) as i32, m, *inner), rest);
            }
        },
        Doc::NestIfBreak(step, inner, _, observed_doc) => {
            if broken_docs.contains(observed_doc) {
                docs.push_front((i + *step, m, Rc::clone(inner)));
                proof {
                    lemma_loose_push(c, ((i + *step) as i32, m, *inner), rest, wd, 0);
                    lemma_queue_weight_push(((i + *step) as i32, m, *inner), rest);
                }
            } else {
                docs.push_front((i, m, Rc::clone(inner)));
                proof {
                    lemma_loose_push(c, (i, m, *inner), rest, wd, 0);
                    lemma_queue_weight_push((i, m, *inner), rest);
                }
            }
        },
        Doc::NestHanging(inner, _) => {
            docs.push_front((*column, m, Rc::clone(inner)));
            proof {
                lemma_loose_push(c, (*column, m, *inner), rest, wd, 0);
                lemma_queue_weight_push((*column, m, *inner), rest);
            }
        },
        Doc::Text(text, width, _) => {
            let ghost r = layout_spec(line_length as int, c + *width, rest, broken_docs@).0;
            proof { lemma_emit(out, SimpleDoc::Text(*text), r); }
            simple_docs.push(SimpleDoc::Text(text.clone()));
            *column = *column + *width as i32;
            proof { lemma_loose_weaken(c, *column as int, rest, wd, 0); }
        },
        Doc::Break(text) => {
            if m == Mode::Flat {
                let width = break_width(text);
                let ghost r = layout_spec(line_length as int, c + width, rest, broken_docs@).0;
                proof { lemma_emit(out, SimpleDoc::Text(*text), r); }
                simple_docs.push(SimpleDoc::Text(text.clone()));
                *column = *column + width as i32;
                proof { lemma_loose_weaken(c, *column as int, rest, wd, 0); }
            } else {
                let indent: usize = if i < 0 { 0 } else { i as usize };
                let ghost r = layout_spec(line_length as int, i as int, rest, broken_docs@).0;
                proof { lemma_emit(out, SimpleDoc::Line(indent), r); }
                simple_docs.push(SimpleDoc::Line(indent));
                *column = i;
                proof { lemma_loose_weaken(c, *column as int, rest, wd, 0); }
            }
        },
        Doc::FitsUntilLBracket(inner, _) => {
            docs.push_front((i, m, Rc::clone(inner)));
            proof {
                lemma_loose_push(c, (i, m, *inner), rest, wd, 0);
                lemma_queue_weight_push((i, m, *inner), rest);
            }
        },
        Doc::Group(groupped_doc, CommonProperties(inline_comment_pos, doc_ref)) => {
            let mut group_docs: VecDeque<Triple> = VecDeque::new();
            group_docs.push_front((i, Mode::Flat, Rc::clone(&groupped_doc.0)));
            assert(group_docs@ =~= seq![(i, Mode::Flat, groupped_doc.0)]);
            if groupped_doc.1 == ShouldBreak::Yes
                || groupped_doc.1 == ShouldBreak::Propagate
                || *inline_comment_pos == InlineCommentPosition::Middle
                || *inline_comment_pos == InlineCommentPosition::InGroup
                || !fits(line_length as i64 - *column as i64, group_docs) {
                docs.push_front((i, Mode::Break, Rc::clone(&groupped_doc.0)));
                broken_docs.insert(*doc_ref);
                proof {
                    lemma_loose_push(c, (i, Mode::Break, groupped_doc.0), rest, wd, 0);
                    lemma_queue_weight_push((i, Mode::Break, groupped_doc.0), rest);
                }
            } else {
                docs.push_front((i, Mode::Flat, Rc::clone(&groupped_doc.0)));
                proof {
                    lemma_loose_push(c, (i, Mode::Flat, groupped_doc.0), rest, wd, 0);
                    lemma_queue_weight_push((i, Mode::Flat, groupped_doc.0), rest);
                }
            }
        },
        Doc::HardBreak => {},
    }
}

/// Lays out the work queue: decides for each group whether it breaks and
/// emits the text and line elements in order.
///
/// `consumed` is the column the output starts at, `broken_docs` collects the
/// ids of the groups that break (ids already in it count as broken for the
/// indentation that observes them). The queue is drained.
pub fn it_format_to_sdoc(
    consumed: i32,
    docs: &mut VecDeque<Triple>,
    line_length: i32,
    broken_docs: &mut HashSet<usize>,
) -> (r: Vec<SimpleDoc>)
    requires
        bounded(consumed as int, old(docs)@),
    ensures
        pieces_of(r@) == layout_spec(line_length as int, consumed as int, old(docs)@, old(broken_docs)@).0,
        final(broken_docs)@ == layout_spec(line_length as int, consumed as int, old(docs)@, old(broken_docs)@).1,
        final(docs)@.len() == 0,
{
    let ghost total = layout_spec(line_length as int, consumed as int, docs@, broken_docs@);
    let mut column = consumed;
    let mut simple_docs: Vec<SimpleDoc> = Vec::new();
    proof {
        assert(pieces_of(simple_docs@) + total.0 =~= total.0);
    }
    loop
        invariant
            bounded(column as int, docs@),
            ({
                let rest = layout_spec(line_length as int, column as int, docs@, broken_docs@);
                pieces_of(simple_docs@) + rest.0 == total.0 && rest.1 == total.1
            }),
        ensures
            docs@.len() == 0,
            pieces_of(simple_docs@) == total.0,
            broken_docs@ == total.1,
        decreases queue_weight(docs@),
    {
        let ghost q = docs@;
        match docs.pop_front() {
            None => {
                assert(pieces_of(simple_docs@) + seq![] =~= pieces_of(simple_docs@));
                break;
            },
            Some(entry) => {
                assert(q =~= seq![entry] + docs@);
                layout_entry(entry, &mut column, docs, line_length, broken_docs, &mut simple_docs);
            },
        }
    }
    simple_docs
}

} // verus!
