use vstd::prelude::*;
use crate::style::{spec_styled, spec_dim_prefix};

verus! {

// ---------------------------------------------------------------------------
// The kinds of decoded values
// ---------------------------------------------------------------------------

/// The type of one decoded value of the binary stream.
#[derive(Clone, Copy, Debug, PartialEq, Eq, Structural)]
pub enum IonKind {
    Null,
    Boolean,
    Integer,
    Float,
    Decimal,
    Timestamp,
    Symbol,
    Str,
    Clob,
    Blob,
    List,
    SExpression,
    Struct,
}

/// True for the three container kinds, whose contents are nested values.
pub open spec fn spec_is_container(kind: IonKind) -> bool {
    kind == IonKind::List || kind == IonKind::SExpression || kind == IonKind::Struct
}

impl IonKind {
    /// True for the three container kinds.
    pub fn is_container(&self) -> (r: bool)
        ensures
            r == spec_is_container(*self),
    {
        match self {
            IonKind::List | IonKind::SExpression | IonKind::Struct => true,
            _ => false,
        }
    }
}

/// The delimiter that opens a container of the given kind.
pub open spec fn spec_opening_delimiter(kind: IonKind) -> Seq<char> {
    if kind == IonKind::List {
        "["@
    } else if kind == IonKind::SExpression {
        "("@
    } else {
        "{"@
    }
}

/// The delimiter that closes a container of the given kind.
pub open spec fn spec_closing_delimiter(kind: IonKind) -> Seq<char> {
    if kind == IonKind::List {
        "]"@
    } else if kind == IonKind::SExpression {
        ")"@
    } else {
        "}"@
    }
}

/// The closing delimiter for a container type; only containers have one.
pub fn closing_delimiter_for(container_type: IonKind) -> (r: &'static str)
    requires
        spec_is_container(container_type),
    ensures
        r@ == spec_closing_delimiter(container_type),
{
    match container_type {
        IonKind::List => "]",
        IonKind::SExpression => ")",
        _ => "}",
    }
}

// ---------------------------------------------------------------------------
// Decoded values, as the decoder reports them
// ---------------------------------------------------------------------------

/// The field name and id of a struct member, with the byte range that encoded
/// the field id.
pub struct FieldInfo {
    pub id: usize,
    pub name: String,
    pub offset: usize,
    pub length: usize,
    pub raw: Vec<u8>,
}

/// A value's annotations, with the byte range of the annotation wrapper.
pub struct AnnotationsInfo {
    pub ids: Vec<usize>,
    pub texts: Vec<String>,
    pub offset: usize,
    pub length: usize,
    pub raw: Vec<u8>,
}

/// One decoded value, reduced to the plain facts the inspection engine reads:
/// its kind, the byte ranges of its syntactic parts, the raw bytes of those
/// parts, and the text form of its body as the text serializer wrote it.
pub struct ValueRecord {
    pub kind: IonKind,
    pub is_null: bool,
    /// Present exactly when the enclosing container is a struct.
    pub field: Option<FieldInfo>,
    /// Present exactly when the value carries one or more annotations.
    pub annotations: Option<AnnotationsInfo>,
    /// Offset of the first header byte (the type descriptor).
    pub header_offset: usize,
    /// Byte count of the header, type descriptor included.
    pub header_length: usize,
    /// Byte count of the body; for a container this spans its nested content.
    pub value_length: usize,
    /// The literal header bytes.
    pub header_bytes: Vec<u8>,
    /// The literal body bytes; empty for containers.
    pub body_bytes: Vec<u8>,
    /// The serialized text of a scalar body; unused for containers.
    pub text: String,
    /// For symbol values, the id resolved against the symbol table.
    pub symbol_id: Option<usize>,
}

/// Offset of the first byte that pertains to the value: its field id if
/// present, else its annotations wrapper if present, else its header.
pub open spec fn spec_value_start(rec: ValueRecord) -> int {
    match rec.field {
        Some(f) => f.offset as int,
        None => match rec.annotations {
            Some(a) => a.offset as int,
            None => rec.header_offset as int,
        },
    }
}

/// Offset just past the value's body (past its nested content, for a
/// container).
pub open spec fn spec_value_end(rec: ValueRecord) -> int {
    rec.header_offset + rec.header_length + rec.value_length
}

/// What the decoder guarantees of every value it hands out: the byte ranges of
/// field id, annotations, header and body are contiguous, the raw byte strings
/// have exactly the ranges' lengths, and the whole value lies inside an
/// addressable buffer.
pub open spec fn spec_wf_record(rec: ValueRecord) -> bool {
    &&& rec.header_length >= 1
    &&& spec_value_end(rec) <= usize::MAX
    &&& rec.header_bytes@.len() == rec.header_length
    &&& (spec_is_container(rec.kind) ==> rec.body_bytes@.len() == 0)
    &&& (!spec_is_container(rec.kind) ==> rec.body_bytes@.len() == rec.value_length)
    &&& match rec.field {
        Some(f) => f.raw@.len() == f.length && f.offset + f.length == match rec.annotations {
            Some(a) => a.offset as int,
            None => rec.header_offset as int,
        },
        None => true,
    }
    &&& match rec.annotations {
        Some(a) => a.raw@.len() == a.length && a.offset + a.length == rec.header_offset
            && a.ids@.len() == a.texts@.len() && a.ids@.len() > 0,
        None => true,
    }
}

// ---------------------------------------------------------------------------
// Structural events and the value tree
// ---------------------------------------------------------------------------

/// A structural notification of the decoder, always reported at the top
/// nesting level: a version marker, or a change of the symbol table.
pub enum StructuralEvent {
    VersionMarker,
    /// Symbols were appended to the local symbol table; `symbols` is the whole
    /// table in order, `starting_id` the index of the first new entry.
    SymbolTableAppend { symbols: Vec<String>, starting_id: usize },
    /// The local symbol table was replaced; `symbols` is the new table in
    /// order, system entries included.
    SymbolTableReset { symbols: Vec<String> },
}

/// One entry of the decoded stream: a structural event, or a value together
/// with its nested children (empty for scalars).
pub enum Item {
    Event(StructuralEvent),
    Value(ValueRecord, Vec<Item>),
}

/// Well-formedness of one level of the stream, starting no earlier than byte
/// `lo`: every value is well formed, values sit at increasing, non-overlapping
/// byte ranges, only containers have children, and children follow the
/// container's header.
pub open spec fn spec_wf_items(items: Seq<Item>, lo: int) -> bool
    decreases items,
{
    if items.len() == 0 {
        true
    } else {
        (match items[0] {
            Item::Event(_) => spec_wf_items(items.drop_first(), lo),
            Item::Value(rec, children) => {
                &&& spec_wf_record(rec)
                &&& lo <= spec_value_start(rec)
                &&& (spec_is_container(rec.kind) || children@.len() == 0)
                &&& spec_wf_items(children@, rec.header_offset + rec.header_length)
                &&& spec_wf_items(items.drop_first(), spec_value_end(rec))
            },
        })
    }
}

// ---------------------------------------------------------------------------
// The byte window
// ---------------------------------------------------------------------------

/// The byte window of one inspection run: suppress values that end at or
/// before `bytes_to_skip`, and stop once `limit_bytes` of data past the skip
/// point have been processed. A requested limit of zero means unbounded and
/// is normalized to the largest representable count on construction.
pub struct InspectionWindow {
    pub bytes_to_skip: usize,
    pub limit_bytes: usize,
}

impl InspectionWindow {
    /// The normalization invariant: a stored limit is never zero.
    pub open spec fn wf(self) -> bool {
        self.limit_bytes > 0
    }

    /// Builds the window, normalizing a zero (unbounded) limit.
    pub fn new(bytes_to_skip: usize, limit_bytes: usize) -> (w: InspectionWindow)
        ensures
            w.bytes_to_skip == bytes_to_skip,
            w.limit_bytes == if limit_bytes == 0 {
                usize::MAX as int
            } else {
                limit_bytes as int
            },
            w.wf(),
    {
        let normalized: usize = if limit_bytes == 0 {
            usize::MAX
        } else {
            limit_bytes
        };
        InspectionWindow { bytes_to_skip, limit_bytes: normalized }
    }
}

// ---------------------------------------------------------------------------
// Rows
// ---------------------------------------------------------------------------

/// One emitted table row. `offset` and `length` are absent for purely
/// structural or comment rows. `text` is the plain rendered text; `comment`
/// is the trailing dimmed remark (possibly empty), kept apart because its
/// styling depends on the terminal.
#[derive(Clone, Debug)]
pub struct Row {
    pub offset: Option<usize>,
    pub length: Option<usize>,
    pub indentation: String,
    pub hex: String,
    pub text: String,
    pub comment: String,
}

/// What part a row plays in the table. Ghost bookkeeping only: the written
/// table does not carry it.
pub ghost enum RowTag {
    Field,
    Annotations,
    Value,
    Closing,
    Skipped,
    Limit,
    Event,
}

/// The mathematical form of one row: the five printed parts, the plain
/// (unstyled) comment, and ghost provenance — the row's role, the nesting
/// depth it was emitted at, the raw bytes its hex column shows, and the text
/// before any trailing separator.
pub ghost struct GRow {
    pub tag: RowTag,
    pub depth: nat,
    pub offset: Option<int>,
    pub length: Option<int>,
    pub indentation: Seq<char>,
    pub hex: Seq<char>,
    pub text: Seq<char>,
    pub comment: Seq<char>,
    pub payload: Seq<u8>,
    pub body_text: Seq<char>,
}

/// The option's value as a plain integer.
pub open spec fn spec_opt_int(o: Option<usize>) -> Option<int> {
    match o {
        Some(v) => Some(v as int),
        None => None,
    }
}

/// An emitted row agrees with its mathematical form: all printed parts are
/// equal, except that the comment may carry the dim styling.
pub open spec fn spec_row_matches(r: Row, g: GRow) -> bool {
    &&& spec_opt_int(r.offset) == g.offset
    &&& spec_opt_int(r.length) == g.length
    &&& r.indentation@ == g.indentation
    &&& r.hex@ == g.hex
    &&& r.text@ == g.text
    &&& spec_styled(spec_dim_prefix(), g.comment, r.comment@)
}

/// Pointwise agreement of a row vector's tail with a sequence of mathematical
/// rows: the rows from position `from` on match `gs` in order.
pub open spec fn spec_rows_match_from(rows: Seq<Row>, from: int, gs: Seq<GRow>) -> bool {
    &&& rows.len() == from + gs.len()
    &&& forall|j: int| 0 <= j < gs.len() ==> spec_row_matches(rows[from + j], #[trigger] gs[j])
}

} // verus!
