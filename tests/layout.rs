use std::collections::{HashSet, VecDeque};
use std::rc::Rc;

use unguentum::doc::InlineCommentPosition as P;
use unguentum::doc::{
    query_inline_position, CommonProperties, Doc, DocAlgebra, GroupDocProperties,
    InlineCommentPosition, ShouldBreak,
};
use unguentum::layout::{fits, fits_until_l_bracket, it_format_to_sdoc, Mode, SimpleDoc, Triple};
use unguentum::render::{format_doc, it_simple_doc_to_string};

fn text(s: &str) -> Rc<Doc> {
    Rc::new(Doc::Text(s.to_string(), s.chars().count(), CommonProperties::default()))
}

fn commented(s: &str, pos: InlineCommentPosition) -> Rc<Doc> {
    Rc::new(Doc::Text(s.to_string(), s.chars().count(), CommonProperties(pos, 0)))
}

fn brk(s: &str) -> Rc<Doc> {
    Rc::new(Doc::Break(s.to_string()))
}

fn hard() -> Rc<Doc> {
    Rc::new(Doc::HardBreak)
}

fn nil() -> Rc<Doc> {
    Rc::new(Doc::Nil)
}

/// A line break that always breaks: a break next to a hard break.
fn newline() -> Rc<Doc> {
    brk("").cons(hard())
}

fn foo_bar(ids: &mut usize) -> Rc<Doc> {
    text("foo").cons(brk(" ").cons(text("bar"))).to_group(ShouldBreak::No, ids)
}

fn queue_of(doc: Rc<Doc>) -> VecDeque<Triple> {
    let mut q = VecDeque::new();
    q.push_back((0, Mode::Flat, doc));
    q
}

#[test]
fn fits_flat() {
    let mut ids = 0;
    assert_eq!(format_doc(foo_bar(&mut ids), 10), "foo bar");
}

#[test]
fn breaks_when_too_wide() {
    let mut ids = 0;
    assert_eq!(format_doc(foo_bar(&mut ids), 5), "foo\nbar");
}

#[test]
fn breaks_exactly_at_the_width() {
    let mut ids = 0;
    assert_eq!(format_doc(foo_bar(&mut ids), 7), "foo bar");
    let mut ids = 0;
    assert_eq!(format_doc(foo_bar(&mut ids), 6), "foo\nbar");
}

#[test]
fn hard_break_forces_break() {
    for width in [1, 10, 80, 1000] {
        let mut ids = 0;
        let doc = text("a").cons(newline().cons(text("b"))).to_group(ShouldBreak::No, &mut ids);
        assert_eq!(format_doc(doc, width), "a\nb");
    }
}

#[test]
fn hard_break_alone_prints_nothing() {
    let mut ids = 0;
    let doc = text("a").cons(hard().cons(text("b"))).to_group(ShouldBreak::No, &mut ids);
    assert_eq!(format_doc(doc, 80), "ab");
}

fn call_f(ids: &mut usize) -> Rc<Doc> {
    let observed = *ids + 1;
    let args = brk("").cons(text("x")).nest_if_break(2, observed);
    text("f(").cons(args.cons(brk("").cons(text(")")))).to_group(ShouldBreak::No, ids)
}

#[test]
fn nest_if_break_follows_group() {
    let mut ids = 0;
    assert_eq!(format_doc(call_f(&mut ids), 3), "f(\n  x\n)");
    let mut ids = 0;
    assert_eq!(format_doc(call_f(&mut ids), 80), "f(x)");
}

#[test]
fn nest_if_break_unknown_id_adds_nothing() {
    let mut ids = 0;
    let args = brk("").cons(text("x")).nest_if_break(2, 99);
    let doc = text("f(").cons(args).to_group(ShouldBreak::Yes, &mut ids);
    assert_eq!(format_doc(doc, 80), "f(\nx");
}

fn block(ids: &mut usize) -> Rc<Doc> {
    let body = brk("").cons(text("body")).nest(2);
    text("{").cons(body.cons(newline().cons(text("}")))).to_group(ShouldBreak::No, ids)
}

fn test_that(measured_to_bracket: bool, ids: &mut usize) -> Rc<Doc> {
    let args = text("\"very long name\"").cons(text(",").cons(brk(" ").cons(block(ids))));
    let args = if measured_to_bracket { args.fits_until_l_bracket() } else { args };
    text("test_that(").cons(args.to_group(ShouldBreak::No, ids).cons(text(")")))
}

#[test]
fn fits_until_l_bracket_keeps_head_flat() {
    let mut ids = 0;
    assert_eq!(
        format_doc(test_that(true, &mut ids), 32),
        "test_that(\"very long name\", {\n  body\n})"
    );
    let mut ids = 0;
    assert_eq!(
        format_doc(test_that(false, &mut ids), 32),
        "test_that(\"very long name\",\n{\n  body\n})"
    );
}

#[test]
fn embracing_brace_is_measured_through() {
    let single = text("{").cons(text("abcdef"));
    assert!(fits_until_l_bracket(4, queue_of(single.clone())));
    assert!(!fits(4, queue_of(single)));
    let double = text("{").cons(text("{")).cons(text("abc"));
    assert!(!fits_until_l_bracket(4, queue_of(double.clone())));
    assert!(fits_until_l_bracket(5, queue_of(double)));
}

#[test]
fn lone_brace_needs_a_column_left() {
    let doc = text("ab").cons(text("{"));
    assert!(!fits_until_l_bracket(2, queue_of(doc.clone())));
    assert!(fits_until_l_bracket(3, queue_of(doc)));
}

#[test]
fn fits_counts_widths() {
    let mut ids = 0;
    assert!(fits(7, queue_of(foo_bar(&mut ids))));
    let mut ids = 0;
    assert!(!fits(6, queue_of(foo_bar(&mut ids))));
    assert!(fits(0, VecDeque::new()));
    assert!(!fits(-1, VecDeque::new()));
}

#[test]
fn fits_stops_at_forced_breaks() {
    let mut ids = 0;
    let propagating = text("a").to_group(ShouldBreak::Propagate, &mut ids);
    assert!(!fits(100, queue_of(propagating.clone())));
    assert!(!fits_until_l_bracket(100, queue_of(propagating)));
    assert!(!fits(100, queue_of(hard())));
    let middle = Rc::new(Doc::Group(
        GroupDocProperties(text("a"), ShouldBreak::No),
        CommonProperties(InlineCommentPosition::Middle, 7),
    ));
    assert!(!fits(100, queue_of(middle)));
    let mut ids = 0;
    let yes = text("a").to_group(ShouldBreak::Yes, &mut ids);
    assert!(fits(100, queue_of(yes)));
}

#[test]
fn propagate_breaks_the_parent() {
    let mut ids = 0;
    let inner = text("x").to_group(ShouldBreak::Propagate, &mut ids);
    let outer = text("a").cons(brk(" ").cons(inner)).to_group(ShouldBreak::No, &mut ids);
    assert_eq!(format_doc(outer, 80), "a\nx");
    let mut ids = 0;
    let inner = text("x").to_group(ShouldBreak::Yes, &mut ids);
    let outer = text("a").cons(brk(" ").cons(inner)).to_group(ShouldBreak::No, &mut ids);
    assert_eq!(format_doc(outer, 80), "a x");
}

#[test]
fn nested_hard_break_breaks_every_ancestor() {
    let mut ids = 0;
    let inner = text("x").cons(newline().cons(text("y"))).to_group(ShouldBreak::No, &mut ids);
    let outer = text("a").cons(brk(" ").cons(inner)).to_group(ShouldBreak::No, &mut ids);
    assert_eq!(format_doc(outer, 80), "a\nx\ny");
}

#[test]
fn hanging_indent_aligns_to_column() {
    let mut ids = 0;
    let hanging = text("a").cons(brk(" ").cons(text("b"))).nest_hanging();
    let doc = text("call(").cons(hanging).to_group(ShouldBreak::Yes, &mut ids);
    assert_eq!(format_doc(doc, 80), "call(a\n     b");
}

#[test]
fn nest_adds_indentation() {
    let mut ids = 0;
    let doc = text("a").cons(brk(" ").cons(text("b")).nest(4)).to_group(ShouldBreak::Yes, &mut ids);
    assert_eq!(format_doc(doc, 80), "a\n    b");
}

#[test]
fn negative_indentation_prints_no_spaces() {
    let mut ids = 0;
    let doc = text("a").cons(brk(" ").cons(text("b")).nest(-3)).to_group(ShouldBreak::Yes, &mut ids);
    assert_eq!(format_doc(doc, 80), "a\nb");
}

#[test]
fn flat_document_concatenates() {
    let mut ids = 0;
    let inner = text("b").cons(brk(", ").cons(text("c"))).to_group(ShouldBreak::No, &mut ids);
    let doc = text("a").cons(brk(" ").cons(inner.nest(2).cons(nil())));
    let doc = doc.to_group(ShouldBreak::No, &mut ids);
    assert_eq!(format_doc(doc, i32::MAX), "a b, c");
}

#[test]
fn top_level_breaks_stay_flat() {
    let doc = text("a").cons(brk(" ").cons(text("b")));
    assert_eq!(format_doc(doc, 1), "a b");
}

#[test]
fn format_is_deterministic() {
    let mut ids = 0;
    let doc = call_f(&mut ids);
    assert_eq!(format_doc(doc.clone(), 3), format_doc(doc, 3));
}

#[test]
fn group_ids_increase() {
    let mut ids = 0;
    let a = text("a").to_group(ShouldBreak::No, &mut ids);
    let b = text("b").to_group(ShouldBreak::No, &mut ids);
    let c = a.clone().cons(b.clone()).to_group(ShouldBreak::No, &mut ids);
    let id = |d: &Rc<Doc>| match &**d {
        Doc::Group(_, props) => props.1,
        _ => 0,
    };
    assert_eq!((id(&a), id(&b), id(&c)), (1, 2, 3));
    assert_eq!(ids, 3);
}

#[test]
fn inline_positions_combine() {
    let cases = [
        (P::No, P::No, P::No),
        (P::No, P::End, P::End),
        (P::No, P::Middle, P::Middle),
        (P::No, P::InGroup, P::No),
        (P::End, P::No, P::Middle),
        (P::End, P::End, P::Middle),
        (P::Middle, P::InGroup, P::Middle),
        (P::InGroup, P::End, P::End),
        (P::InGroup, P::InGroup, P::InGroup),
        (P::InGroup, P::No, P::No),
    ];
    for (l, r, expected) in cases {
        assert_eq!(l.add(r), expected);
    }
}

#[test]
fn algebra_tracks_positions() {
    let mut ids = 0;
    let tail = commented("# c", InlineCommentPosition::End);
    let d = text("a").cons(tail.clone());
    assert_eq!(query_inline_position(&d), InlineCommentPosition::End);
    let d = tail.cons(text("b"));
    assert_eq!(query_inline_position(&d), InlineCommentPosition::Middle);
    let g = d.to_group(ShouldBreak::No, &mut ids);
    assert_eq!(query_inline_position(&g), InlineCommentPosition::InGroup);
    let g2 = g.clone().to_group(ShouldBreak::No, &mut ids);
    assert_eq!(query_inline_position(&g2), InlineCommentPosition::No);
    assert_eq!(query_inline_position(&g.nest(2)), InlineCommentPosition::InGroup);
    assert_eq!(query_inline_position(&hard()), InlineCommentPosition::No);
    assert_eq!(query_inline_position(&brk(" ")), InlineCommentPosition::No);
}

#[test]
fn middle_comment_forces_group_break() {
    let mut ids = 0;
    let d = commented("a # c", InlineCommentPosition::End).cons(brk(" ").cons(text("b")));
    let g = d.to_group(ShouldBreak::No, &mut ids);
    assert_eq!(format_doc(g, 80), "a # c\nb");
}

#[test]
fn simple_docs_render() {
    let docs = vec![
        SimpleDoc::Text("ab".to_string()),
        SimpleDoc::Line(3),
        SimpleDoc::Text("c".to_string()),
        SimpleDoc::Line(0),
    ];
    assert_eq!(it_simple_doc_to_string(&docs), "ab\n   c\n");
    assert_eq!(it_simple_doc_to_string(&[]), "");
}

#[test]
fn layout_records_broken_groups() {
    let mut ids = 0;
    let doc = call_f(&mut ids);
    let mut queue = queue_of(doc);
    let mut broken = HashSet::new();
    let out = it_format_to_sdoc(0, &mut queue, 3, &mut broken);
    assert!(queue.is_empty());
    assert!(broken.contains(&1));
    assert_eq!(broken.len(), 1);
    assert_eq!(it_simple_doc_to_string(&out), "f(\n  x\n)");
}

#[test]
fn layout_starts_at_consumed_column() {
    let mut ids = 0;
    let mut queue = queue_of(foo_bar(&mut ids));
    let mut broken = HashSet::new();
    let out = it_format_to_sdoc(4, &mut queue, 10, &mut broken);
    assert_eq!(it_simple_doc_to_string(&out), "foo\nbar");
    assert!(broken.contains(&1));
}

#[test]
fn hanging_indent_holds_for_every_line() {
    let mut ids = 0;
    let items = text("x").cons(brk(" ").cons(text("y")).cons(brk(" ").cons(text("z"))));
    let hanging = items.to_group(ShouldBreak::Yes, &mut ids).nest_hanging();
    let doc = text("  f(").cons(hanging.cons(text(")")));
    assert_eq!(format_doc(doc, 80), "  f(x\n    y\n    z)");
}

#[test]
fn text_after_a_flat_group_is_not_measured() {
    let mut ids = 0;
    let group = text("ab").cons(brk(" ").cons(text("cd"))).to_group(ShouldBreak::No, &mut ids);
    assert_eq!(format_doc(group.cons(text("xxxxxxxx")), 6), "ab cdxxxxxxxx");
}
