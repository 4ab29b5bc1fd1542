//! Properties of the layout that hold for every document.
use std::rc::Rc;
use vstd::prelude::*;

use crate::doc::{Doc, InlineCommentPosition, ShouldBreak};
use crate::layout::{
    bounded, fits_bracket_spec, fits_spec, group_breaks, is_l_bracket, layout_spec, lemma_queue_weight_push,
    lemma_queue_weight_push2, queue_weight, starts_with_l_bracket, text_width, Mode, Piece, Triple,
};
use crate::render::{format_spec, piece_text, render, start_queue};

verus! {

/// Whether a document holds no bracket-measured document.
pub open spec fn bracket_free(d: Doc) -> bool
    decreases d,
{
    match d {
        Doc::Cons(a, b, _) => bracket_free(*a) && bracket_free(*b),
        Doc::Nest(_, inner, _) => bracket_free(*inner),
        Doc::NestIfBreak(_, inner, _, _) => bracket_free(*inner),
        Doc::NestHanging(inner, _) => bracket_free(*inner),
        Doc::FitsUntilLBracket(_, _) => false,
        Doc::Group(g, _) => bracket_free(*g.0),
        _ => true,
    }
}

/// Whether measuring a document flat always fails: it holds a hard break,
/// a group that propagates its break or a group with a comment in its
/// middle, and no bracket-measured document comes before it.
pub open spec fn forces_break(d: Doc) -> bool
    decreases d,
{
    match d {
        Doc::HardBreak => true,
        Doc::Cons(a, b, _) => forces_break(*a) || (bracket_free(*a) && forces_break(*b)),
        Doc::Nest(_, inner, _) => forces_break(*inner),
        Doc::NestIfBreak(_, inner, _, _) => forces_break(*inner),
        Doc::NestHanging(inner, _) => forces_break(*inner),
        Doc::Group(g, p) => g.1 == ShouldBreak::Propagate || p.0 == InlineCommentPosition::Middle
            || forces_break(*g.0),
        _ => false,
    }
}

/// Whether a shared document forces a break when measured.
pub open spec fn forces_break_rc(d: Rc<Doc>) -> bool {
    forces_break(*d)
}

proof fn lemma_fits_forced(rem: int, q: Seq<Triple>, k: int)
    requires
        0 <= k < q.len(),
        forces_break(*q[k].2),
        forall|j: int| 0 <= j < k ==> bracket_free(*(#[trigger] q[j]).2),
    ensures
        !fits_spec(rem, q),
    decreases queue_weight(q),
{
    if rem >= 0 {
        let (i, m, d) = q[0];
        let rest = q.drop_first();
        assert(forall|j: int| 0 <= j < rest.len() ==> rest[j] == q[j + 1]);
        match *d {
            Doc::Nil => {
                lemma_fits_forced(rem, rest, k - 1);
            },
            Doc::Text(_, w, _) => {
                lemma_fits_forced(rem - w, rest, k - 1);
            },
            Doc::Break(s) => {
                lemma_fits_forced(rem - s@.len(), rest, k - 1);
            },
            Doc::Cons(a, b, _) => {
                let q2 = seq![(i, m, a), (i, m, b)] + rest;
                lemma_queue_weight_push2((i, m, a), (i, m, b), rest);
                assert(q2[0] == (i, m, a) && q2[1] == (i, m, b));
                assert(forall|j: int| 0 <= j < rest.len() ==> q2[j + 2] == rest[j]);
                if k == 0 {
                    if forces_break_rc(a) {
                        lemma_fits_forced(rem, q2, 0);
                    } else {
                        lemma_fits_forced(rem, q2, 1);
                    }
                } else {
                    assert forall|j: int| 0 <= j < k + 1 implies bracket_free(*(#[trigger] q2[j]).2) by {
                        if j >= 2 {
                            assert(q2[j] == q[j - 1]);
                        }
                    }
                    lemma_fits_forced(rem, q2, k + 1);
                }
            },
            Doc::Nest(_, inner, _) => {
                lemma_fits_forced_push(rem, q, k, (i, m, inner));
            },
            Doc::NestIfBreak(_, inner, _, _) => {
                lemma_fits_forced_push(rem, q, k, (i, m, inner));
            },
            Doc::NestHanging(inner, _) => {
                lemma_fits_forced_push(rem, q, k, (i, m, inner));
            },
            Doc::Group(g, p) => {
                if !(p.0 == InlineCommentPosition::Middle || g.1 == ShouldBreak::Propagate) {
                    lemma_fits_forced_push(rem, q, k, (i, Mode::Flat, g.0));
                }
            },
            Doc::FitsUntilLBracket(_, _) => {
                assert(k > 0 ==> bracket_free(*q[0].2));
            },
            Doc::HardBreak => {},
        }
    }
}

/// The measurement step that replaces the first entry by one entry with
/// its inner document keeps the forced entry in reach.
proof fn lemma_fits_forced_push(rem: int, q: Seq<Triple>, k: int, x: Triple)
    requires
        0 <= k < q.len(),
        forces_break(*q[k].2),
        forall|j: int| 0 <= j < k ==> bracket_free(*(#[trigger] q[j]).2),
        crate::doc::weight(*x.2) < crate::doc::weight(*q[0].2),
        k == 0 ==> forces_break(*x.2),
        k > 0 ==> bracket_free(*x.2),
    ensures
        !fits_spec(rem, seq![x] + q.drop_first()),
    decreases queue_weight(q), 0nat,
{
    let rest = q.drop_first();
    let q2 = seq![x] + rest;
    lemma_queue_weight_push(x, rest);
    crate::layout::lemma_queue_weight_pop(q);
    assert(q.drop_first() == q.subrange(1, q.len() as int));
    assert(q2[0] == x);
    assert(forall|j: int| 0 <= j < rest.len() ==> q2[j + 1] == rest[j] && rest[j] == q[j + 1]);
    assert forall|j: int| 0 <= j < k implies bracket_free(*(#[trigger] q2[j]).2) by {
        if j >= 1 {
            assert(q2[j] == q[j]);
        }
    }
    if k > 0 {
        assert(q2[k] == q[k]);
    }
    lemma_fits_forced(rem, q2, k);
}

/// Break propagation: a group whose content can never be measured flat
/// (it holds a hard break, a propagating group or a group with a comment in
/// its middle, with no bracket-measured document before it) always breaks,
/// and its id is recorded as broken.
pub proof fn lemma_break_propagation(
    line_length: int,
    consumed: int,
    i: i32,
    m: Mode,
    group: Rc<Doc>,
    rest: Seq<Triple>,
    broken: Set<usize>,
)
    requires
        *group matches Doc::Group(g, _) && forces_break(*g.0),
    ensures
        *group matches Doc::Group(g, p) && layout_spec(line_length, consumed, seq![(i, m, group)] + rest, broken)
            == layout_spec(line_length, consumed, seq![(i, Mode::Break, g.0)] + rest, broken.insert(p.1)),
{
    if let Doc::Group(g, p) = *group {
        let probe = seq![(i, Mode::Flat, g.0)];
        lemma_fits_forced(line_length - consumed, probe, 0);
        assert(group_breaks(line_length, consumed, i, g, p));
        assert((seq![(i, m, group)] + rest).drop_first() =~= rest);
    }
}

/// Whether a document has nothing that makes a group break by itself: no
/// hard break, and only groups left to the measurement with no comment that
/// forces them.
pub open spec fn plain(d: Doc) -> bool
    decreases d,
{
    match d {
        Doc::HardBreak => false,
        Doc::Cons(a, b, _) => plain(*a) && plain(*b),
        Doc::Nest(_, inner, _) => plain(*inner),
        Doc::NestIfBreak(_, inner, _, _) => plain(*inner),
        Doc::NestHanging(inner, _) => plain(*inner),
        Doc::FitsUntilLBracket(inner, _) => plain(*inner),
        Doc::Group(g, p) => g.1 == ShouldBreak::No && p.0 != InlineCommentPosition::Middle
            && p.0 != InlineCommentPosition::InGroup && plain(*g.0),
        _ => true,
    }
}

/// The width of a document printed flat.
pub open spec fn flat_width(d: Doc) -> nat
    decreases d,
{
    match d {
        Doc::Cons(a, b, _) => flat_width(*a) + flat_width(*b),
        Doc::Text(_, w, _) => w as nat,
        Doc::Break(s) => s@.len(),
        Doc::Nest(_, inner, _) => flat_width(*inner),
        Doc::NestIfBreak(_, inner, _, _) => flat_width(*inner),
        Doc::NestHanging(inner, _) => flat_width(*inner),
        Doc::FitsUntilLBracket(inner, _) => flat_width(*inner),
        Doc::Group(g, _) => flat_width(*g.0),
        _ => 0,
    }
}

/// The elements a document emits when printed flat.
pub open spec fn flat_pieces(d: Doc) -> Seq<Piece>
    decreases d,
{
    match d {
        Doc::Cons(a, b, _) => flat_pieces(*a) + flat_pieces(*b),
        Doc::Text(t, _, _) => seq![Piece::Text(t@)],
        Doc::Break(s) => seq![Piece::Text(s@)],
        Doc::Nest(_, inner, _) => flat_pieces(*inner),
        Doc::NestIfBreak(_, inner, _, _) => flat_pieces(*inner),
        Doc::NestHanging(inner, _) => flat_pieces(*inner),
        Doc::FitsUntilLBracket(inner, _) => flat_pieces(*inner),
        Doc::Group(g, _) => flat_pieces(*g.0),
        _ => seq![],
    }
}

/// The texts of a document one after the other, each break replaced by
/// its text.
pub open spec fn flat_text(d: Doc) -> Seq<char>
    decreases d,
{
    match d {
        Doc::Cons(a, b, _) => flat_text(*a) + flat_text(*b),
        Doc::Text(t, _, _) => t@,
        Doc::Break(s) => s@,
        Doc::Nest(_, inner, _) => flat_text(*inner),
        Doc::NestIfBreak(_, inner, _, _) => flat_text(*inner),
        Doc::NestHanging(inner, _) => flat_text(*inner),
        Doc::FitsUntilLBracket(inner, _) => flat_text(*inner),
        Doc::Group(g, _) => flat_text(*g.0),
        _ => seq![],
    }
}

pub open spec fn queue_flat_width(q: Seq<Triple>) -> nat
    decreases q.len(),
{
    if q.len() == 0 {
        0
    } else {
        flat_width(*q[0].2) + queue_flat_width(q.drop_first())
    }
}

pub open spec fn queue_flat_pieces(q: Seq<Triple>) -> Seq<Piece>
    decreases q.len(),
{
    if q.len() == 0 {
        seq![]
    } else {
        flat_pieces(*q[0].2) + queue_flat_pieces(q.drop_first())
    }
}

pub open spec fn plain_rc(d: Rc<Doc>) -> bool {
    plain(*d)
}

pub open spec fn first_text_width(q: Seq<Triple>) -> int {
    text_width(*q[0].2)
}

pub open spec fn all_plain(q: Seq<Triple>) -> bool {
    forall|k: int| 0 <= k < q.len() ==> plain(*(#[trigger] q[k]).2)
}

pub open spec fn all_plain_flat(q: Seq<Triple>) -> bool {
    forall|k: int| 0 <= k < q.len() ==> plain(*(#[trigger] q[k]).2) && q[k].1 == Mode::Flat
}

proof fn lemma_flat_push(x: Triple, rest: Seq<Triple>)
    ensures
        queue_flat_width(seq![x] + rest) == flat_width(*x.2) + queue_flat_width(rest),
        queue_flat_pieces(seq![x] + rest) == flat_pieces(*x.2) + queue_flat_pieces(rest),
        all_plain(rest) && plain(*x.2) ==> all_plain(seq![x] + rest),
        all_plain_flat(rest) && plain(*x.2) && x.1 == Mode::Flat ==> all_plain_flat(seq![x] + rest),
        (seq![x] + rest).drop_first() == rest,
{
    let q = seq![x] + rest;
    assert(q.drop_first() =~= rest);
    assert(q[0] == x);
    assert(forall|j: int| 0 <= j < rest.len() ==> q[j + 1] == rest[j]);
    if all_plain(rest) && plain_rc(x.2) {
        assert forall|k: int| 0 <= k < q.len() implies plain(*(#[trigger] q[k]).2) by {
            if k > 0 {
                assert(q[k] == rest[k - 1]);
            }
        }
    }
    if all_plain_flat(rest) && plain_rc(x.2) && x.1 == Mode::Flat {
        assert forall|k: int| 0 <= k < q.len() implies plain(*(#[trigger] q[k]).2) && q[k].1 == Mode::Flat by {
            if k > 0 {
                assert(q[k] == rest[k - 1]);
            }
        }
    }
}

proof fn lemma_flat_push2(x: Triple, y: Triple, rest: Seq<Triple>)
    ensures
        queue_flat_width(seq![x, y] + rest) == flat_width(*x.2) + flat_width(*y.2) + queue_flat_width(rest),
        queue_flat_pieces(seq![x, y] + rest) == flat_pieces(*x.2) + flat_pieces(*y.2) + queue_flat_pieces(rest),
        all_plain(rest) && plain(*x.2) && plain(*y.2) ==> all_plain(seq![x, y] + rest),
        all_plain_flat(rest) && plain(*x.2) && plain(*y.2) && x.1 == Mode::Flat && y.1 == Mode::Flat
            ==> all_plain_flat(seq![x, y] + rest),
{
    assert(seq![x, y] + rest =~= seq![x] + (seq![y] + rest));
    lemma_flat_push(y, rest);
    lemma_flat_push(x, seq![y] + rest);
    assert(flat_pieces(*x.2) + (flat_pieces(*y.2) + queue_flat_pieces(rest)) =~= flat_pieces(*x.2)
        + flat_pieces(*y.2) + queue_flat_pieces(rest));
}

proof fn lemma_all_plain_pop(q: Seq<Triple>)
    requires
        q.len() > 0,
    ensures
        all_plain(q) ==> plain(*q[0].2) && all_plain(q.drop_first()),
        all_plain_flat(q) ==> plain(*q[0].2) && q[0].1 == Mode::Flat && all_plain_flat(q.drop_first()),
{
    let rest = q.drop_first();
    assert(forall|j: int| 0 <= j < rest.len() ==> rest[j] == q[j + 1]);
}

proof fn lemma_fits_bracket_plain(rem: int, q: Seq<Triple>)
    requires
        all_plain(q),
        rem > queue_flat_width(q),
    ensures
        fits_bracket_spec(rem, q),
    decreases queue_weight(q),
{
    if q.len() > 0 {
        let (i, m, d) = q[0];
        let rest = q.drop_first();
        lemma_all_plain_pop(q);
        match *d {
            Doc::Cons(a, b, _) => {
                lemma_flat_push2((i, m, a), (i, m, b), rest);
                lemma_queue_weight_push2((i, m, a), (i, m, b), rest);
                lemma_fits_bracket_plain(rem, seq![(i, m, a), (i, m, b)] + rest);
            },
            Doc::Nest(_, inner, _) => {
                lemma_flat_push((i, m, inner), rest);
                lemma_queue_weight_push((i, m, inner), rest);
                lemma_fits_bracket_plain(rem, seq![(i, m, inner)] + rest);
            },
            Doc::NestIfBreak(_, inner, _, _) => {
                lemma_flat_push((i, m, inner), rest);
                lemma_queue_weight_push((i, m, inner), rest);
                lemma_fits_bracket_plain(rem, seq![(i, m, inner)] + rest);
            },
            Doc::NestHanging(inner, _) => {
                lemma_flat_push((i, m, inner), rest);
                lemma_queue_weight_push((i, m, inner), rest);
                lemma_fits_bracket_plain(rem, seq![(i, m, inner)] + rest);
            },
            Doc::FitsUntilLBracket(inner, _) => {
                lemma_flat_push((i, m, inner), rest);
                lemma_queue_weight_push((i, m, inner), rest);
                lemma_fits_bracket_plain(rem, seq![(i, m, inner)] + rest);
            },
            Doc::Group(g, _) => {
                lemma_flat_push((i, Mode::Flat, g.0), rest);
                lemma_queue_weight_push((i, Mode::Flat, g.0), rest);
                lemma_fits_bracket_plain(rem, seq![(i, Mode::Flat, g.0)] + rest);
            },
            Doc::Text(t, w, _) => {
                if is_l_bracket(t@) && starts_with_l_bracket(rest) {
                    lemma_all_plain_pop(rest);
                    crate::layout::lemma_queue_weight_pop(rest);
                    assert(rest.drop_first() == rest.subrange(1, rest.len() as int));
                    assert(queue_flat_width(rest) == text_width(*rest[0].2) + queue_flat_width(rest.drop_first()));
                    lemma_fits_bracket_plain(rem - w - first_text_width(rest), rest.drop_first());
                } else if !is_l_bracket(t@) {
                    lemma_fits_bracket_plain(rem - w, rest);
                }
            },
            Doc::Break(s) => {
                lemma_fits_bracket_plain(rem - s@.len(), rest);
            },
            Doc::Nil => {
                lemma_fits_bracket_plain(rem, rest);
            },
            Doc::HardBreak => {},
        }
    }
}

proof fn lemma_fits_plain(rem: int, q: Seq<Triple>)
    requires
        all_plain(q),
        rem > queue_flat_width(q),
    ensures
        fits_spec(rem, q),
    decreases queue_weight(q),
{
    if q.len() > 0 {
        let (i, m, d) = q[0];
        let rest = q.drop_first();
        lemma_all_plain_pop(q);
        match *d {
            Doc::Cons(a, b, _) => {
                lemma_flat_push2((i, m, a), (i, m, b), rest);
                lemma_queue_weight_push2((i, m, a), (i, m, b), rest);
                lemma_fits_plain(rem, seq![(i, m, a), (i, m, b)] + rest);
            },
            Doc::Nest(_, inner, _) => {
                lemma_flat_push((i, m, inner), rest);
                lemma_queue_weight_push((i, m, inner), rest);
                lemma_fits_plain(rem, seq![(i, m, inner)] + rest);
            },
            Doc::NestIfBreak(_, inner, _, _) => {
                lemma_flat_push((i, m, inner), rest);
                lemma_queue_weight_push((i, m, inner), rest);
                lemma_fits_plain(rem, seq![(i, m, inner)] + rest);
            },
            Doc::NestHanging(inner, _) => {
                lemma_flat_push((i, m, inner), rest);
                lemma_queue_weight_push((i, m, inner), rest);
                lemma_fits_plain(rem, seq![(i, m, inner)] + rest);
            },
            Doc::FitsUntilLBracket(inner, _) => {
                lemma_flat_push((i, m, inner), rest);
                lemma_fits_bracket_plain(rem, seq![(i, m, inner)] + rest);
            },
            Doc::Group(g, _) => {
                lemma_flat_push((i, Mode::Flat, g.0), rest);
                lemma_queue_weight_push((i, Mode::Flat, g.0), rest);
                lemma_fits_plain(rem, seq![(i, Mode::Flat, g.0)] + rest);
            },
            Doc::Text(_, w, _) => {
                lemma_fits_plain(rem - w, rest);
            },
            Doc::Break(s) => {
                lemma_fits_plain(rem - s@.len(), rest);
            },
            Doc::Nil => {
                lemma_fits_plain(rem, rest);
            },
            Doc::HardBreak => {},
        }
    }
}

proof fn lemma_layout_plain(line_length: int, consumed: int, q: Seq<Triple>, broken: Set<usize>)
    requires
        all_plain_flat(q),
        line_length - consumed > queue_flat_width(q),
    ensures
        layout_spec(line_length, consumed, q, broken).0 == queue_flat_pieces(q),
    decreases queue_weight(q),
{
    if q.len() > 0 {
        let (i, m, d) = q[0];
        let rest = q.drop_first();
        lemma_all_plain_pop(q);
        match *d {
            Doc::Nil => {
                lemma_layout_plain(line_length, consumed, rest, broken);
            },
            Doc::Cons(a, b, _) => {
                lemma_flat_push2((i, m, a), (i, m, b), rest);
                lemma_queue_weight_push2((i, m, a), (i, m, b), rest);
                lemma_layout_plain(line_length, consumed, seq![(i, m, a), (i, m, b)] + rest, broken);
            },
            Doc::Nest(step, inner, _) => {
                let x = ((i + step) as i32, m, inner);
                lemma_flat_push(x, rest);
                lemma_queue_weight_push(x, rest);
                lemma_layout_plain(line_length, consumed, seq![x] + rest, broken);
            },
            Doc::NestIfBreak(step, inner, _, id) => {
                let x = (if broken.contains(id) { (i + step) as i32 } else { i }, m, inner);
                lemma_flat_push(x, rest);
                lemma_queue_weight_push(x, rest);
                lemma_layout_plain(line_length, consumed, seq![x] + rest, broken);
            },
            Doc::NestHanging(inner, _) => {
                let x = (consumed as i32, m, inner);
                lemma_flat_push(x, rest);
                lemma_queue_weight_push(x, rest);
                lemma_layout_plain(line_length, consumed, seq![x] + rest, broken);
            },
            Doc::FitsUntilLBracket(inner, _) => {
                lemma_flat_push((i, m, inner), rest);
                lemma_queue_weight_push((i, m, inner), rest);
                lemma_layout_plain(line_length, consumed, seq![(i, m, inner)] + rest, broken);
            },
            Doc::Text(_, w, _) => {
                lemma_layout_plain(line_length, consumed + w, rest, broken);
            },
            Doc::Break(t) => {
                lemma_layout_plain(line_length, consumed + t@.len(), rest, broken);
            },
            Doc::Group(g, p) => {
                let x = (i, Mode::Flat, g.0);
                lemma_flat_push(x, seq![]);
                assert(seq![x] + seq![] =~= seq![x]);
                lemma_fits_plain(line_length - consumed, seq![x]);
                assert(!group_breaks(line_length, consumed, i, g, p));
                lemma_flat_push(x, rest);
                lemma_queue_weight_push(x, rest);
                lemma_layout_plain(line_length, consumed, seq![x] + rest, broken);
            },
            Doc::HardBreak => {},
        }
    }
}

proof fn lemma_render_append(a: Seq<Piece>, b: Seq<Piece>)
    ensures
        render(a + b) == render(a) + render(b),
    decreases b.len(),
{
    if b.len() == 0 {
        assert(a + b =~= a);
        assert(render(a) + render(b) =~= render(a));
    } else {
        assert((a + b).drop_last() =~= a + b.drop_last());
        assert((a + b).last() == b.last());
        lemma_render_append(a, b.drop_last());
        assert(render(a) + render(b.drop_last()) + piece_text(b.last()) =~= render(a) + (render(b.drop_last())
            + piece_text(b.last())));
    }
}

pub open spec fn flat_pieces_rc(d: Rc<Doc>) -> Seq<Piece> {
    flat_pieces(*d)
}

proof fn lemma_render_flat(d: Rc<Doc>)
    ensures
        render(flat_pieces(*d)) == flat_text(*d),
    decreases d,
{
    match *d {
        Doc::Cons(a, b, _) => {
            lemma_render_flat(a);
            lemma_render_flat(b);
            lemma_render_append(flat_pieces_rc(a), flat_pieces_rc(b));
        },
        Doc::Text(t, _, _) => {
            assert(seq![Piece::Text(t@)].drop_last() =~= Seq::<Piece>::empty());
            assert(render(Seq::<Piece>::empty()) == Seq::<char>::empty());
            assert(Seq::<char>::empty() + t@ =~= t@);
        },
        Doc::Break(t) => {
            assert(seq![Piece::Text(t@)].drop_last() =~= Seq::<Piece>::empty());
            assert(render(Seq::<Piece>::empty()) == Seq::<char>::empty());
            assert(Seq::<char>::empty() + t@ =~= t@);
        },
        Doc::Nest(_, inner, _) => lemma_render_flat(inner),
        Doc::NestIfBreak(_, inner, _, _) => lemma_render_flat(inner),
        Doc::NestHanging(inner, _) => lemma_render_flat(inner),
        Doc::FitsUntilLBracket(inner, _) => lemma_render_flat(inner),
        Doc::Group(g, _) => lemma_render_flat(g.0),
        _ => {},
    }
}

proof fn lemma_flat_width_below_weight(d: Rc<Doc>)
    ensures
        flat_width(*d) < crate::doc::weight(*d),
    decreases d,
{
    match *d {
        Doc::Cons(a, b, _) => {
            lemma_flat_width_below_weight(a);
            lemma_flat_width_below_weight(b);
        },
        Doc::Nest(_, inner, _) => lemma_flat_width_below_weight(inner),
        Doc::NestIfBreak(_, inner, _, _) => lemma_flat_width_below_weight(inner),
        Doc::NestHanging(inner, _) => lemma_flat_width_below_weight(inner),
        Doc::FitsUntilLBracket(inner, _) => lemma_flat_width_below_weight(inner),
        Doc::Group(g, _) => lemma_flat_width_below_weight(g.0),
        _ => {},
    }
}

/// Flat equivalence: a document with no hard break, whose groups are all
/// left to the measurement and hold no comment that forces them, formats at
/// the widest line length to its texts one after the other, each break
/// replaced by its text.
pub proof fn lemma_flat_equivalence(doc: Rc<Doc>)
    requires
        plain(*doc),
        bounded(0, start_queue(doc)),
    ensures
        format_spec(doc, i32::MAX) == flat_text(*doc),
{
    let x = (0i32, Mode::Flat, doc);
    let q = start_queue(doc);
    assert(q =~= seq![x] + seq![]);
    lemma_flat_push(x, seq![]);
    lemma_queue_weight_push(x, seq![]);
    lemma_flat_width_below_weight(doc);
    lemma_layout_plain(i32::MAX as int, 0, q, Set::empty());
    assert(flat_pieces(*doc) + Seq::<Piece>::empty() =~= flat_pieces(*doc));
    lemma_render_flat(doc);
}

/// NestIfBreak coherence: a NestIfBreak adds its step to the indentation
/// of its content exactly when the group it observes was recorded as broken
/// earlier in the same run.
pub proof fn lemma_nest_if_break_coherence(
    line_length: int,
    consumed: int,
    i: i32,
    m: Mode,
    d: Rc<Doc>,
    rest: Seq<Triple>,
    broken: Set<usize>,
)
    requires
        *d matches Doc::NestIfBreak(_, _, _, _),
    ensures
        *d matches Doc::NestIfBreak(step, inner, _, id) && layout_spec(line_length, consumed, seq![(i, m, d)] + rest, broken)
            == layout_spec(
            line_length,
            consumed,
            seq![(if broken.contains(id) { (i + step) as i32 } else { i }, m, inner)] + rest,
            broken,
        ),
{
    assert((seq![(i, m, d)] + rest).drop_first() =~= rest);
}

/// Whether a document moves no indentation: it holds no Nest, NestIfBreak
/// or NestHanging.
pub open spec fn nest_free(d: Doc) -> bool
    decreases d,
{
    match d {
        Doc::Cons(a, b, _) => nest_free(*a) && nest_free(*b),
        Doc::Nest(_, _, _) => false,
        Doc::NestIfBreak(_, _, _, _) => false,
        Doc::NestHanging(_, _) => false,
        Doc::FitsUntilLBracket(inner, _) => nest_free(*inner),
        Doc::Group(g, _) => nest_free(*g.0),
        _ => true,
    }
}

pub open spec fn nest_free_rc(d: Rc<Doc>) -> bool {
    nest_free(*d)
}

/// The number of elements a document emits: one per text and per break.
pub open spec fn leaf_count(d: Doc) -> nat
    decreases d,
{
    match d {
        Doc::Cons(a, b, _) => leaf_count(*a) + leaf_count(*b),
        Doc::Text(_, _, _) => 1,
        Doc::Break(_) => 1,
        Doc::Nest(_, inner, _) => leaf_count(*inner),
        Doc::NestIfBreak(_, inner, _, _) => leaf_count(*inner),
        Doc::NestHanging(inner, _) => leaf_count(*inner),
        Doc::FitsUntilLBracket(inner, _) => leaf_count(*inner),
        Doc::Group(g, _) => leaf_count(*g.0),
        _ => 0,
    }
}

/// The number of elements the first `n` entries of a queue emit.
pub open spec fn queue_leaf_count(q: Seq<Triple>, n: int) -> nat
    decreases q.len(),
{
    if n <= 0 || q.len() == 0 {
        0
    } else {
        leaf_count(*q[0].2) + queue_leaf_count(q.drop_first(), n - 1)
    }
}

/// Whether an element is a text, or a line break indented by `indent`.
pub open spec fn indented_by(p: Piece, indent: nat) -> bool {
    match p {
        Piece::Text(_) => true,
        Piece::Line(k) => k == indent,
    }
}

/// The first `n` entries of the queue sit at indentation `c` and move no
/// indentation.
pub open spec fn hanging_prefix(q: Seq<Triple>, n: int, c: i32) -> bool {
    &&& 0 <= n <= q.len()
    &&& forall|k: int| 0 <= k < n ==> (#[trigger] q[k]).0 == c && nest_free(*q[k].2)
}

proof fn lemma_hanging_push(q: Seq<Triple>, n: int, c: i32, pre: Seq<Triple>)
    requires
        q.len() > 0,
        n > 0,
        hanging_prefix(q, n, c),
        forall|k: int| 0 <= k < pre.len() ==> (#[trigger] pre[k]).0 == c && nest_free(*pre[k].2),
    ensures
        hanging_prefix(pre + q.drop_first(), n - 1 + pre.len(), c),
{
    let rest = q.drop_first();
    let q2 = pre + rest;
    assert forall|k: int| 0 <= k < n - 1 + pre.len() implies (#[trigger] q2[k]).0 == c && nest_free(*q2[k].2) by {
        if k >= pre.len() {
            assert(q2[k] == q[k - pre.len() + 1]);
        } else {
            assert(q2[k] == pre[k]);
        }
    }
}

proof fn lemma_leaf_count_push(pre: Seq<Triple>, rest: Seq<Triple>, n: int)
    requires
        pre.len() <= 2,
        n >= pre.len(),
    ensures
        queue_leaf_count(pre + rest, n) == (if pre.len() == 0 { 0 } else if pre.len() == 1 {
            leaf_count(*pre[0].2)
        } else {
            leaf_count(*pre[0].2) + leaf_count(*pre[1].2)
        }) + queue_leaf_count(rest, n - pre.len()),
{
    if pre.len() == 0 {
        assert(pre + rest =~= rest);
    } else if pre.len() == 1 {
        assert((pre + rest).drop_first() =~= rest);
        assert((pre + rest)[0] == pre[0]);
    } else {
        let tail = pre.drop_first() + rest;
        assert((pre + rest).drop_first() =~= tail);
        assert((pre + rest)[0] == pre[0]);
        assert(tail.drop_first() =~= rest);
        assert(tail[0] == pre[1]);
        assert(queue_leaf_count(tail, n - 1) == leaf_count(*pre[1].2) + queue_leaf_count(rest, n - 2));
    }
}

proof fn lemma_hanging_lines(line_length: int, consumed: int, q: Seq<Triple>, broken: Set<usize>, n: int, c: i32)
    requires
        hanging_prefix(q, n, c),
    ensures
        layout_spec(line_length, consumed, q, broken).0.len() >= queue_leaf_count(q, n),
        forall|j: int| 0 <= j < queue_leaf_count(q, n) ==> indented_by(
            #[trigger] layout_spec(line_length, consumed, q, broken).0[j],
            crate::layout::line_indent(c as int),
        ),
    decreases queue_weight(q),
{
    if n > 0 {
        let (i, m, d) = q[0];
        let rest = q.drop_first();
        assert(q[0].0 == c && nest_free(*q[0].2));
        match *d {
            Doc::Nil => {
                lemma_hanging_push(q, n, c, seq![]);
                assert(seq![] + rest =~= rest);
                lemma_hanging_lines(line_length, consumed, rest, broken, n - 1, c);
            },
            Doc::HardBreak => {
                lemma_hanging_push(q, n, c, seq![]);
                assert(seq![] + rest =~= rest);
                lemma_hanging_lines(line_length, consumed, rest, broken, n - 1, c);
            },
            Doc::Text(t, w, _) => {
                lemma_hanging_push(q, n, c, seq![]);
                assert(seq![] + rest =~= rest);
                lemma_hanging_lines(line_length, consumed + w, rest, broken, n - 1, c);
            },
            Doc::Break(t) => {
                lemma_hanging_push(q, n, c, seq![]);
                assert(seq![] + rest =~= rest);
                if m == Mode::Flat {
                    lemma_hanging_lines(line_length, consumed + t@.len(), rest, broken, n - 1, c);
                } else {
                    lemma_hanging_lines(line_length, i as int, rest, broken, n - 1, c);
                }
            },
            Doc::Cons(a, b, _) => {
                let pre = seq![(i, m, a), (i, m, b)];
                assert(pre[0] == (i, m, a) && pre[1] == (i, m, b));
                lemma_hanging_push(q, n, c, pre);
                lemma_leaf_count_push(pre, rest, n + 1);
                lemma_queue_weight_push2((i, m, a), (i, m, b), rest);
                lemma_hanging_lines(line_length, consumed, pre + rest, broken, n + 1, c);
            },
            Doc::FitsUntilLBracket(inner, _) => {
                let pre = seq![(i, m, inner)];
                assert(pre[0] == (i, m, inner));
                lemma_hanging_push(q, n, c, pre);
                lemma_leaf_count_push(pre, rest, n);
                lemma_queue_weight_push((i, m, inner), rest);
                lemma_hanging_lines(line_length, consumed, pre + rest, broken, n, c);
            },
            Doc::Group(g, p) => {
                let mode = if group_breaks(line_length, consumed, i, g, p) { Mode::Break } else { Mode::Flat };
                let b2 = if group_breaks(line_length, consumed, i, g, p) { broken.insert(p.1) } else { broken };
                let pre = seq![(i, mode, g.0)];
                assert(pre[0] == (i, mode, g.0));
                lemma_hanging_push(q, n, c, pre);
                lemma_leaf_count_push(pre, rest, n);
                lemma_queue_weight_push((i, mode, g.0), rest);
                lemma_hanging_lines(line_length, consumed, pre + rest, b2, n, c);
            },
            _ => {},
        }
    }
}

/// Hanging alignment: a NestHanging met at column `consumed` lays its
/// content out indented to that column, and when the content moves no
/// indentation itself, each line break it emits is indented to that
/// column.
pub proof fn lemma_hanging_alignment(
    line_length: int,
    consumed: int,
    i: i32,
    m: Mode,
    d: Rc<Doc>,
    inner: Rc<Doc>,
    rest: Seq<Triple>,
    broken: Set<usize>,
)
    requires
        *d matches Doc::NestHanging(content, _) && content == inner,
        i32::MIN <= consumed <= i32::MAX,
    ensures
        layout_spec(line_length, consumed, seq![(i, m, d)] + rest, broken)
            == layout_spec(line_length, consumed, seq![(consumed as i32, m, inner)] + rest, broken),
        nest_free(*inner) ==> {
            let out = layout_spec(line_length, consumed, seq![(i, m, d)] + rest, broken).0;
            &&& out.len() >= leaf_count(*inner)
            &&& forall|j: int| 0 <= j < leaf_count(*inner) ==> indented_by(
                #[trigger] out[j],
                crate::layout::line_indent(consumed),
            )
        },
{
    assert((seq![(i, m, d)] + rest).drop_first() =~= rest);
    if nest_free_rc(inner) {
        let x = (consumed as i32, m, inner);
        let q = seq![x] + rest;
        assert(q[0] == x);
        lemma_leaf_count_push(seq![x], rest, 1);
        assert(queue_leaf_count(rest, 0) == 0);
        lemma_hanging_lines(line_length, consumed, q, broken, 1, consumed as i32);
    }
}

/// Determinism: the formatted string depends on the document and the line
/// length alone.
pub proof fn lemma_format_deterministic(doc: Rc<Doc>, line_length: i32, first: Seq<char>, second: Seq<char>)
    requires
        first == format_spec(doc, line_length),
        second == format_spec(doc, line_length),
    ensures
        first == second,
{
}

} // verus!
