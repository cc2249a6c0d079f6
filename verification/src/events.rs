use vstd::prelude::*;
use crate::model::{GRow, Row, RowTag, StructuralEvent};
use crate::style::dimmed;
use crate::textutil::spec_joined;
use crate::textutil::join_into;

verus! {

/// How many entries the format's built-in system symbol table has.
pub const ION_1_0_SYSTEM_TABLE_LENGTH: usize = 10;

/// The texts of the symbol table entries from index `from` on; empty when
/// `from` is out of range.
pub open spec fn spec_tail_texts(symbols: Seq<String>, from: int) -> Seq<Seq<char>> {
    if from >= symbols.len() {
        Seq::empty()
    } else {
        symbols.map_values(|s: String| s@).skip(from)
    }
}

/// The comment text a structural event is summarized as.
pub open spec fn spec_event_comment(ev: StructuralEvent) -> Seq<char> {
    match ev {
        StructuralEvent::VersionMarker => "// Ion 1.0 Version Marker"@,
        StructuralEvent::SymbolTableAppend { symbols, starting_id } => "// Local symbol table append: [\""@
            + spec_joined("\", \""@, spec_tail_texts(symbols@, starting_id as int)) + "\"]"@,
        StructuralEvent::SymbolTableReset { symbols } => if symbols@.len()
            > ION_1_0_SYSTEM_TABLE_LENGTH {
            "// New local symbol table: [\""@ + spec_joined(
                "\", \""@,
                spec_tail_texts(symbols@, ION_1_0_SYSTEM_TABLE_LENGTH as int),
            ) + "\"]"@
        } else {
            "// Using system symbol table"@
        },
    }
}

/// The hex column of a structural event's row: the version marker shows its
/// fixed encoding, other events a filler ellipsis.
pub open spec fn spec_event_hex(ev: StructuralEvent) -> Seq<char> {
    match ev {
        StructuralEvent::VersionMarker => "e0 01 00 ea"@,
        _ => "..."@,
    }
}

/// The row a structural event is rendered as: no offset or length, top-level
/// indentation, and the summary as a dimmed comment.
pub open spec fn spec_event_grow(ev: StructuralEvent) -> GRow {
    GRow {
        tag: RowTag::Event,
        depth: 0,
        offset: None,
        length: None,
        indentation: Seq::empty(),
        hex: spec_event_hex(ev),
        text: Seq::empty(),
        comment: spec_event_comment(ev),
        payload: Seq::empty(),
        body_text: Seq::empty(),
    }
}

fn tail_of(symbols: &Vec<String>, from: usize) -> (out: Vec<String>)
    ensures
        out@.map_values(|s: String| s@) == spec_tail_texts(symbols@, from as int),
{
    let mut out: Vec<String> = Vec::new();
    if from >= symbols.len() {
        proof {
            assert(out@.map_values(|s: String| s@) =~= spec_tail_texts(symbols@, from as int));
        }
        return out;
    }
    let mut i: usize = from;
    while i < symbols.len()
        invariant
            from <= i <= symbols@.len(),
            out@.len() == i - from,
            forall|j: int| 0 <= j < out@.len() ==> out@[j]@ == symbols@[from + j]@,
        decreases symbols@.len() - i,
    {
        out.push(symbols[i].clone());
        i = i + 1;
    }
    proof {
        assert(out@.map_values(|s: String| s@) =~= spec_tail_texts(symbols@, from as int));
    }
    out
}

/// Turns the decoder's structural notifications — version markers and symbol
/// table changes — into single dimmed comment rows at the top nesting level.
pub struct SystemLevelEventSummarizer {
    text_buffer: String,
}

impl SystemLevelEventSummarizer {
    /// A summarizer with an empty scratch buffer.
    pub fn new() -> (s: SystemLevelEventSummarizer) {
        SystemLevelEventSummarizer { text_buffer: String::new() }
    }

    /// The row for a version marker: its fixed hex encoding and a comment.
    pub fn on_ivm(&mut self) -> (r: Row)
        ensures
            crate::model::spec_row_matches(r, spec_event_grow(StructuralEvent::VersionMarker)),
    {
        Row {
            offset: None,
            length: None,
            indentation: String::new(),
            hex: String::from_str("e0 01 00 ea"),
            text: String::new(),
            comment: dimmed("// Ion 1.0 Version Marker"),
        }
    }

    /// The row for symbols appended to the local symbol table: a comment
    /// listing the newly added texts, quoted and comma-joined.
    pub fn on_symbol_table_append(&mut self, symbol_table: &Vec<String>, starting_id: usize) -> (r:
        Row)
        ensures
            crate::model::spec_row_matches(
                r,
                spec_event_grow(
                    StructuralEvent::SymbolTableAppend {
                        symbols: *symbol_table,
                        starting_id,
                    },
                ),
            ),
    {
        self.text_buffer = String::from_str("// Local symbol table append: [\"");
        let tail = tail_of(symbol_table, starting_id);
        join_into(&mut self.text_buffer, "\", \"", &tail);
        self.text_buffer.append("\"]");
        Row {
            offset: None,
            length: None,
            indentation: String::new(),
            hex: String::from_str("..."),
            text: String::new(),
            comment: dimmed(self.text_buffer.as_str()),
        }
    }

    /// The row for a reset of the local symbol table: the newly defined tail
    /// when the table outgrows the system table, otherwise a note that the
    /// system table is in use.
    pub fn on_symbol_table_reset(&mut self, symbol_table: &Vec<String>) -> (r: Row)
        ensures
            crate::model::spec_row_matches(
                r,
                spec_event_grow(StructuralEvent::SymbolTableReset { symbols: *symbol_table }),
            ),
    {
        if symbol_table.len() > ION_1_0_SYSTEM_TABLE_LENGTH {
            self.text_buffer = String::from_str("// New local symbol table: [\"");
            let tail = tail_of(symbol_table, ION_1_0_SYSTEM_TABLE_LENGTH);
            join_into(&mut self.text_buffer, "\", \"", &tail);
            self.text_buffer.append("\"]");
        } else {
            self.text_buffer = String::from_str("// Using system symbol table");
        }
        Row {
            offset: None,
            length: None,
            indentation: String::new(),
            hex: String::from_str("..."),
            text: String::new(),
            comment: dimmed(self.text_buffer.as_str()),
        }
    }

    /// The row for any structural event.
    pub fn summarize(&mut self, ev: &StructuralEvent) -> (r: Row)
        ensures
            crate::model::spec_row_matches(r, spec_event_grow(*ev)),
    {
        match ev {
            StructuralEvent::VersionMarker => self.on_ivm(),
            StructuralEvent::SymbolTableAppend { symbols, starting_id } => self
                .on_symbol_table_append(symbols, *starting_id),
            StructuralEvent::SymbolTableReset { symbols } => self.on_symbol_table_reset(symbols),
        }
    }
}

} // verus!
