//! Serialization of a laid-out document, and the whole pipeline.
use std::collections::{HashSet, VecDeque};
use std::rc::Rc;
use vstd::prelude::*;
use vstd::string::*;

use crate::doc::Doc;
use crate::layout::{bounded, it_format_to_sdoc, layout_spec, pieces_of, Mode, Piece, SimpleDoc, Triple};

verus! {

/// `n` spaces.
pub open spec fn spaces(n: nat) -> Seq<char> {
    Seq::new(n, |_k: int| ' ')
}

/// The characters an element of a laid-out document prints.
pub open spec fn piece_text(p: Piece) -> Seq<char> {
    match p {
        Piece::Text(s) => s,
        Piece::Line(n) => seq!['\n'] + spaces(n),
    }
}

/// The characters a laid-out document prints, element after element.
pub open spec fn render(ps: Seq<Piece>) -> Seq<char>
    decreases ps.len(),
{
    if ps.len() == 0 {
        seq![]
    } else {
        render(ps.drop_last()) + piece_text(ps.last())
    }
}

/// The work queue a whole document starts from: column zero, indentation
/// zero, and flat until a group decides otherwise.
pub open spec fn start_queue(doc: Rc<Doc>) -> Seq<Triple> {
    seq![(0i32, Mode::Flat, doc)]
}

/// The string a document formats to at the given line length.
pub open spec fn format_spec(doc: Rc<Doc>, line_length: i32) -> Seq<char> {
    render(layout_spec(line_length as int, 0, start_queue(doc), Set::empty()).0)
}

/// Renders a laid-out document: each text as it is, each line as a newline
/// followed by its indentation in spaces.
pub fn it_simple_doc_to_string(docs: &[SimpleDoc]) -> (r: String)
    ensures
        r@ == render(pieces_of(docs@)),
{
    let mut answer = String::new();
    let mut j: usize = 0;
    while j < docs.len()
        invariant
            j <= docs@.len(),
            answer@ == render(pieces_of(docs@.subrange(0, j as int))),
        decreases docs@.len() - j,
    {
        let ghost before = answer@;
        proof {
            let ps = pieces_of(docs@.subrange(0, j as int + 1));
            assert(ps.drop_last() =~= pieces_of(docs@.subrange(0, j as int)));
            assert(ps.last() == crate::layout::piece_of(docs@[j as int]));
        }
        match &docs[j] {
            SimpleDoc::Text(s) => {
                answer.append(s.as_str());
            },
            SimpleDoc::Line(indent) => {
                proof { reveal_strlit("\n"); reveal_strlit(" "); }
                answer.append("\n");
                let mut k: usize = 0;
                while k < *indent
                    invariant
                        k <= *indent,
                        answer@ == before + seq!['\n'] + spaces(k as nat),
                    decreases *indent - k,
                {
                    proof { reveal_strlit(" "); }
                    answer.append(" ");
                    assert(spaces((k + 1) as nat) =~= spaces(k as nat) + seq![' ']);
                    k = k + 1;
                }
                assert(before + seq!['\n'] + spaces(*indent as nat) =~= before + (seq!['\n'] + spaces(*indent as nat)));
            },
        }
        j = j + 1;
    }
    assert(docs@.subrange(0, docs@.len() as int) =~= docs@);
    answer
}

/// Formats a document at the given line length.
pub fn format_doc(doc: Rc<Doc>, line_length: i32) -> (r: String)
    requires
        bounded(0, start_queue(doc)),
    ensures
        r@ == format_spec(doc, line_length),
{
    let mut queue: VecDeque<Triple> = VecDeque::new();
    queue.push_back((0, Mode::Flat, doc));
    assert(queue@ =~= start_queue(doc));
    let mut broken_docs: HashSet<usize> = HashSet::new();
    let simple_docs = it_format_to_sdoc(0, &mut queue, line_length, &mut broken_docs);
    it_simple_doc_to_string(simple_docs.as_slice())
}

} // verus!
