//! The document model and the algebra that builds documents.
use std::rc::Rc;
use vstd::prelude::*;

verus! {

/// Whether a group breaks regardless of what the width measurement says.
///
/// `Yes` always breaks and does not affect ancestors; `No` leaves the choice
/// to the measurement; `Propagate` always breaks and also makes every
/// ancestor group that measures it break.
#[derive(Debug, Clone, Copy, PartialEq, Eq, Structural, Hash)]
pub enum ShouldBreak {
    Yes,
    No,
    Propagate,
}

/// Where an end-of-line comment sits inside a document.
#[derive(Debug, Clone, Copy, PartialEq, Eq, Structural, Hash)]
pub enum InlineCommentPosition {
    No,
    Middle,
    End,
    InGroup,
}

/// The left-biased combination of the comment positions of two documents
/// written one after the other.
pub open spec fn combine(l: InlineCommentPosition, r: InlineCommentPosition) -> InlineCommentPosition {
    match (l, r) {
        (InlineCommentPosition::No, InlineCommentPosition::No) => InlineCommentPosition::No,
        (InlineCommentPosition::End, _) => InlineCommentPosition::Middle,
        (InlineCommentPosition::Middle, _) => InlineCommentPosition::Middle,
        (InlineCommentPosition::No, InlineCommentPosition::Middle) => InlineCommentPosition::Middle,
        (InlineCommentPosition::No, InlineCommentPosition::End) => InlineCommentPosition::End,
        (InlineCommentPosition::InGroup, p) => p,
        (InlineCommentPosition::No, InlineCommentPosition::InGroup) => InlineCommentPosition::No,
    }
}

/// The position a group takes on from its content: a comment in the middle
/// is absorbed by the group, one already absorbed no longer counts.
pub open spec fn grouped(p: InlineCommentPosition) -> InlineCommentPosition {
    match p {
        InlineCommentPosition::Middle => InlineCommentPosition::InGroup,
        InlineCommentPosition::InGroup => InlineCommentPosition::No,
        _ => p,
    }
}

impl InlineCommentPosition {
    pub fn add(self, rhs: Self) -> (r: Self)
        ensures
            r == combine(self, rhs),
    {
        match (self, rhs) {
            (InlineCommentPosition::No, InlineCommentPosition::No) => InlineCommentPosition::No,
            (InlineCommentPosition::End, _)
            | (InlineCommentPosition::Middle, _)
            | (InlineCommentPosition::No, InlineCommentPosition::Middle) => InlineCommentPosition::Middle,
            (InlineCommentPosition::No, InlineCommentPosition::End) => InlineCommentPosition::End,
            (InlineCommentPosition::InGroup, position) => position,
            (InlineCommentPosition::No, InlineCommentPosition::InGroup) => InlineCommentPosition::No,
        }
    }
}

/// The comment position of a node and its id (non-zero for groups only).
#[derive(Debug, Clone, Copy, PartialEq, Eq, Structural, Hash)]
pub struct CommonProperties(pub InlineCommentPosition, pub usize);

impl Default for CommonProperties {
    fn default() -> (r: Self)
        ensures
            r == CommonProperties(InlineCommentPosition::No, 0),
    {
        CommonProperties(InlineCommentPosition::No, 0)
    }
}

/// The content of a group and whether it is forced to break.
#[derive(Debug, Clone, PartialEq, Eq, Hash)]
pub struct GroupDocProperties(pub Rc<Doc>, pub ShouldBreak);

/// An immutable layout document.
#[derive(Debug, Clone, PartialEq, Eq, Hash)]
pub enum Doc {
    /// The empty document.
    Nil,
    /// One document followed by another.
    Cons(Rc<Doc>, Rc<Doc>, CommonProperties),
    /// Literal text with its display width.
    Text(String, usize, CommonProperties),
    /// Adds a step to the indentation of the inner document.
    Nest(i32, Rc<Doc>, CommonProperties),
    /// Adds a step to the indentation only when the observed group broke.
    NestIfBreak(i32, Rc<Doc>, CommonProperties, usize),
    /// Indents the inner document to the column where it starts.
    NestHanging(Rc<Doc>, CommonProperties),
    /// Width measurement of the inner document stops at its first `{`.
    FitsUntilLBracket(Rc<Doc>, CommonProperties),
    /// A line break that prints its text when its group stays flat.
    Break(String),
    /// A choice point: flat or broken, decided as a whole.
    Group(GroupDocProperties, CommonProperties),
    /// A break that never fits, so every group around it breaks.
    HardBreak,
}

/// The comment position recorded on a document.
pub open spec fn position_of(d: Doc) -> InlineCommentPosition {
    match d {
        Doc::Nil => InlineCommentPosition::No,
        Doc::Cons(_, _, p) => p.0,
        Doc::Text(_, _, p) => p.0,
        Doc::Nest(_, _, p) => p.0,
        Doc::NestIfBreak(_, _, p, _) => p.0,
        Doc::NestHanging(_, p) => p.0,
        Doc::FitsUntilLBracket(_, p) => p.0,
        Doc::Break(_) => InlineCommentPosition::No,
        Doc::Group(_, p) => p.0,
        Doc::HardBreak => InlineCommentPosition::No,
    }
}

pub fn query_inline_position(doc: &Doc) -> (r: InlineCommentPosition)
    ensures
        r == position_of(*doc),
{
    match doc {
        Doc::Nil => InlineCommentPosition::No,
        Doc::Cons(_, _, props) => props.0,
        Doc::Text(_, _, props) => props.0,
        Doc::Nest(_, _, props) => props.0,
        Doc::NestIfBreak(_, _, props, _) => props.0,
        Doc::NestHanging(_, props) => props.0,
        Doc::FitsUntilLBracket(_, props) => props.0,
        Doc::Break(_) => InlineCommentPosition::No,
        Doc::Group(_, props) => props.0,
        Doc::HardBreak => InlineCommentPosition::No,
    }
}

/// The work a document unfolds to: every node counts once per path that
/// reaches it, plus the widths and indentation steps it carries.
pub open spec fn weight(d: Doc) -> nat
    decreases d,
{
    match d {
        Doc::Nil => 1,
        Doc::Cons(a, b, _) => 1 + weight(*a) + weight(*b),
        Doc::Text(_, w, _) => 1 + w as nat,
        Doc::Nest(step, inner, _) => 1 + abs(step as int) + weight(*inner),
        Doc::NestIfBreak(step, inner, _, _) => 1 + abs(step as int) + weight(*inner),
        Doc::NestHanging(inner, _) => 2 + weight(*inner),
        Doc::FitsUntilLBracket(inner, _) => 1 + weight(*inner),
        Doc::Break(s) => 1 + s@.len(),
        Doc::Group(g, _) => 1 + weight(*g.0),
        Doc::HardBreak => 1,
    }
}

pub open spec fn abs(x: int) -> nat {
    if x < 0 { (-x) as nat } else { x as nat }
}

/// The combinators that build documents out of documents.
pub trait DocAlgebra: Sized {
    /// This document followed by `other`.
    fn cons(self, other: Rc<Doc>) -> (r: Rc<Doc>)
        ensures
            *r == Doc::Cons(
                self.as_doc(),
                other,
                CommonProperties(combine(position_of(*self.as_doc()), position_of(*other)), 0),
            ),
    ;

    /// This document as a group with a fresh id taken from `doc_ref`.
    fn to_group(self, should_break: ShouldBreak, doc_ref: &mut usize) -> (r: Rc<Doc>)
        requires
            *old(doc_ref) < usize::MAX,
        ensures
            *final(doc_ref) == *old(doc_ref) + 1,
            *r == Doc::Group(
                GroupDocProperties(self.as_doc(), should_break),
                CommonProperties(grouped(position_of(*self.as_doc())), *final(doc_ref)),
            ),
    ;

    /// This document indented by `indent` more.
    fn nest(self, indent: i32) -> (r: Rc<Doc>)
        ensures
            *r == Doc::Nest(
                indent,
                self.as_doc(),
                CommonProperties(position_of(*self.as_doc()), 0),
            ),
    ;

    /// This document indented by `indent` more when group `observed_doc` breaks.
    fn nest_if_break(self, indent: i32, observed_doc: usize) -> (r: Rc<Doc>)
        ensures
            *r == Doc::NestIfBreak(
                indent,
                self.as_doc(),
                CommonProperties(position_of(*self.as_doc()), 0),
                observed_doc,
            ),
    ;

    /// This document indented to the column where it starts.
    fn nest_hanging(self) -> (r: Rc<Doc>)
        ensures
            *r == Doc::NestHanging(self.as_doc(), CommonProperties(position_of(*self.as_doc()), 0)),
    ;

    /// This document, measured only up to its first opening brace.
    fn fits_until_l_bracket(self) -> (r: Rc<Doc>)
        ensures
            *r == Doc::FitsUntilLBracket(
                self.as_doc(),
                CommonProperties(position_of(*self.as_doc()), 0),
            ),
    ;

    /// The document a value of the implementing type stands for.
    spec fn as_doc(self) -> Rc<Doc>;
}

impl DocAlgebra for Rc<Doc> {
    open spec fn as_doc(self) -> Rc<Doc> {
        self
    }

    fn cons(self, other: Rc<Doc>) -> (r: Rc<Doc>) {
        let properties = CommonProperties(
            query_inline_position(&self).add(query_inline_position(&other)),
            0,
        );
        Rc::new(Doc::Cons(self, other, properties))
    }

    fn to_group(self, should_break: ShouldBreak, doc_ref: &mut usize) -> (r: Rc<Doc>) {
        *doc_ref = *doc_ref + 1;
        let properties = CommonProperties(
            match query_inline_position(&self) {
                InlineCommentPosition::Middle => InlineCommentPosition::InGroup,
                InlineCommentPosition::InGroup => InlineCommentPosition::No,
                position => position,
            },
            *doc_ref,
        );
        Rc::new(Doc::Group(GroupDocProperties(self, should_break), properties))
    }

    fn nest(self, indent: i32) -> (r: Rc<Doc>) {
        let properties = CommonProperties(query_inline_position(&self), 0);
        Rc::new(Doc::Nest(indent, self, properties))
    }

    fn nest_if_break(self, indent: i32, observed_doc: usize) -> (r: Rc<Doc>) {
        let properties = CommonProperties(query_inline_position(&self), 0);
        Rc::new(Doc::NestIfBreak(indent, self, properties, observed_doc))
    }

    fn nest_hanging(self) -> (r: Rc<Doc>) {
        let properties = CommonProperties(query_inline_position(&self), 0);
        Rc::new(Doc::NestHanging(self, properties))
    }

    fn fits_until_l_bracket(self) -> (r: Rc<Doc>) {
        let properties = CommonProperties(query_inline_position(&self), 0);
        Rc::new(Doc::FitsUntilLBracket(self, properties))
    }
}

} // verus!
