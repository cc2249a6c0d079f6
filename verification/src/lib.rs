//! Renders a length-prefixed, type-tagged binary stream as a fixed-width
//! table: raw hex bytes beside an equivalent human-readable text form, for
//! debugging malformed or unfamiliar payloads. The inspection engine walks a
//! decoded value tree, applies a skip/limit byte window that still surfaces
//! structural context, and emits one row per field id, annotation set and
//! value; the table writer lays the rows out in fixed columns, wrapping long
//! hex runs onto continuation rows.

pub mod engine;
pub mod events;
pub mod laws;
pub mod model;
pub mod style;
pub mod table;
pub mod textutil;

use vstd::prelude::*;

verus! {

/// Number of spaces added to the indentation for each nesting level.
pub const LEVEL_WIDTH: usize = 2;

/// The sequence of spaces that indents rows nested `depth` levels deep.
pub open spec fn spec_indentation(depth: nat) -> Seq<char>
    decreases depth,
{
    if depth == 0 {
        Seq::empty()
    } else {
        spec_indentation((depth - 1) as nat) + "  "@
    }
}

/// A row's indentation always has exactly `LEVEL_WIDTH` characters per
/// nesting level.
pub proof fn lemma_indentation_len(depth: nat)
    ensures
        spec_indentation(depth).len() == 2 * depth,
    decreases depth,
{
    reveal_strlit("  ");
    if depth > 0 {
        lemma_indentation_len((depth - 1) as nat);
    }
}

} // verus!
