//! Normalization of documentation comments, mirroring how elm-format
//! re-renders their Markdown: headings, paragraphs, lists, emphasis, code
//! blocks and `@docs` lines.

pub mod assertion_blocks;
pub mod assertions;
pub mod block_shapes;
pub mod char_literals;
pub mod cleanup;
pub mod code_blocks;
pub mod code_examples;
pub mod docs_lines;
pub mod emphasis;
pub mod fences;
pub mod headings;
pub mod line_shapes;
pub mod lines;
pub mod lists;
pub mod paragraphs;
pub mod spacing;

use vstd::prelude::*;

use self::char_literals::char_literals_normalized;
use self::cleanup::{docs_spaced, trailing_stripped, without_empty_refs};
use self::code_blocks::blank_before_commented_blocks;
use self::code_examples::code_blocks_normalized;
use self::docs_lines::docs_lines_normalized;
use self::emphasis::emphasis_normalized;
use self::fences::fences_converted;
use self::headings::doc_shape;
use self::lists::lists_normalized;
use self::paragraphs::{link_refs_collapsed, paragraphs_unindented, prose_spaces_collapsed};

verus! {

/// The text of a doc comment as the pretty printer writes it: each
/// normalization step applied in turn, from the comment's overall shape to
/// the trailing whitespace of its lines.
#[verifier::opaque]
pub open spec fn doc_normalized(t: Seq<char>) -> Seq<char> {
    let a = link_refs_collapsed(doc_shape(t));
    let b = emphasis_normalized(char_literals_normalized(a));
    let c = lists_normalized(without_empty_refs(b));
    let d = code_blocks_normalized(fences_converted(c));
    let e = docs_spaced(blank_before_commented_blocks(d));
    let f = paragraphs_unindented(docs_lines_normalized(e));
    trailing_stripped(prose_spaces_collapsed(f))
}

} // verus!
