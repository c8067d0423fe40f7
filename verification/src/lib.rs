//! Translates a plain-text notation for formal-logic arguments
//! (quantifiers, predicates, connectives, numbered premises and
//! conclusions) into LaTeX fragments built from a fixed macro set.
//!
//! The pipeline: [`grammar::parse`] turns the input into one `Root`
//! parse tree; [`assemble::parse_root`] consumes its header through
//! [`header::parse_header`], then routes the remaining children
//! through [`emit::emit`], producing document metadata and an ordered
//! list of sections ready for a templating step.

pub mod error;
pub mod tree;
pub mod emit;
pub mod text;
pub mod header;
pub mod assemble;
pub mod grammar;
pub mod laws;

use vstd::prelude::*;

verus! {

use crate::assemble::{parse_root, root_spec, Document, DocumentV};
use crate::error::Error;
use crate::grammar::{document_scan, spans_ok, wf_root};
use crate::tree::NodeV;

/// A tree the grammar can hand the assembler for this input: well
/// shaped, spanning the whole input, every token's text the input's
/// at its span.
pub open spec fn tree_of_input(t: NodeV, input: Seq<char>) -> bool {
    &&& wf_root(t)
    &&& spans_ok(t, input)
    &&& t.start == 0
    &&& t.end == input.len()
}

/// Run the whole translation: parse the input into a tree, then
/// assemble metadata and sections from it. An input outside the
/// grammar — exactly the inputs [`grammar::document_scan`] rejects —
/// always fails with a syntax error at an in-range span. A
/// grammatical input always yields [`assemble::root_spec`] of a tree
/// of this input (one whose every token is the input's text at its
/// span): its metadata and sections on success, its first
/// validation error otherwise.
pub fn parse(input: &Vec<char>) -> (r: Result<Document, Error>)
    ensures
        r is Ok ==> document_scan(input@),
        !document_scan(input@) ==> r is Err && r->Err_0.kind is Syntax && r->Err_0.start
            <= r->Err_0.end <= input@.len(),
        document_scan(input@) ==> exists|t: NodeV|
            #[trigger] tree_of_input(t, input@) && (match r {
                Ok(d) => root_spec(t) == Ok::<DocumentV, Error>(d@),
                Err(e) => root_spec(t) == Err::<DocumentV, Error>(e),
            }),
{
    let tree = match crate::grammar::parse(input) {
        Err(e) => {
            return Err(e);
        },
        Ok(t) => t,
    };
    let ghost tv = tree@;
    match parse_root(&tree) {
        Err(e) => {
            proof {
                assert(tree_of_input(tv, input@) && root_spec(tv) == Err::<DocumentV, Error>(
                    e,
                ));
            }
            Err(e)
        },
        Ok(d) => {
            proof {
                assert(tree_of_input(tv, input@) && root_spec(tv) == Ok::<DocumentV, Error>(
                    d@,
                ));
            }
            Ok(d)
        },
    }
}

} // verus!
