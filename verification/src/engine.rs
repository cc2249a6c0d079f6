use vstd::prelude::*;
use crate::events::{SystemLevelEventSummarizer, spec_event_grow};
use crate::model::{
    GRow, InspectionWindow, IonKind, Item, Row, RowTag, ValueRecord,
    spec_closing_delimiter, spec_is_container, spec_opening_delimiter, spec_row_matches,
    spec_rows_match_from, spec_value_end, spec_value_start, spec_wf_items, spec_wf_record,
    closing_delimiter_for,
};
use crate::style::{dimmed, spec_styled, spec_dim_prefix};
use crate::textutil::{
    spec_decimal, spec_hex, spec_joined, decimals_of, format_usize, join_into, to_hex,
};
use crate::{spec_indentation, lemma_indentation_len};

verus! {

// ---------------------------------------------------------------------------
// The rows one value contributes, in mathematical form
// ---------------------------------------------------------------------------

/// The field-id row of a struct member; meaningful when the record carries a
/// field.
pub open spec fn spec_field_grow(rec: ValueRecord, depth: nat) -> GRow {
    let f = rec.field->Some_0;
    GRow {
        tag: RowTag::Field,
        depth,
        offset: Some(f.offset as int),
        length: Some(f.length as int),
        indentation: spec_indentation(depth),
        hex: spec_hex(f.raw@),
        text: "'"@ + f.name@ + "':"@,
        comment: " // $"@ + spec_decimal(f.id as nat) + ":"@,
        payload: f.raw@,
        body_text: Seq::empty(),
    }
}

/// The annotations row of an annotated value; meaningful when the record
/// carries annotations.
pub open spec fn spec_annotations_grow(rec: ValueRecord, depth: nat) -> GRow {
    let a = rec.annotations->Some_0;
    GRow {
        tag: RowTag::Annotations,
        depth,
        offset: Some(a.offset as int),
        length: Some(a.length as int),
        indentation: spec_indentation(depth),
        hex: spec_hex(a.raw@),
        text: "'"@ + spec_joined("'::'"@, a.texts@.map_values(|s: String| s@)) + "'::"@,
        comment: " // $"@ + spec_joined(
            "::$"@,
            a.ids@.map_values(|n: usize| spec_decimal(n as nat)),
        ) + "::"@,
        payload: a.raw@,
        body_text: Seq::empty(),
    }
}

/// A value row's text before any trailing separator: the serialized scalar
/// text, or a container's opening delimiter.
pub open spec fn spec_value_body_text(rec: ValueRecord) -> Seq<char> {
    if spec_is_container(rec.kind) {
        spec_opening_delimiter(rec.kind)
    } else {
        rec.text@
    }
}

/// A value row's full text: at nesting depth above the top level a trailing
/// separator is appended, on scalars and container openings alike.
pub open spec fn spec_value_text(rec: ValueRecord, depth: nat) -> Seq<char> {
    spec_value_body_text(rec) + if depth > 0 {
        ","@
    } else {
        Seq::empty()
    }
}

/// A value row's trailing comment: the resolved id of a symbol value, or
/// nothing.
pub open spec fn spec_value_comment(rec: ValueRecord) -> Seq<char> {
    match rec.symbol_id {
        Some(id) => " // $"@ + spec_decimal(id as nat),
        None => Seq::empty(),
    }
}

/// The value row: header-and-body hex for scalars, header hex alone for
/// containers, whose bodies are rendered as nested rows instead.
pub open spec fn spec_value_grow(rec: ValueRecord, depth: nat) -> GRow {
    GRow {
        tag: RowTag::Value,
        depth,
        offset: Some(rec.header_offset as int),
        length: Some(rec.header_length + rec.value_length),
        indentation: spec_indentation(depth),
        hex: if spec_is_container(rec.kind) {
            spec_hex(rec.header_bytes@)
        } else {
            spec_hex(rec.header_bytes@) + " "@ + spec_hex(rec.body_bytes@)
        },
        text: spec_value_text(rec, depth),
        comment: spec_value_comment(rec),
        payload: if spec_is_container(rec.kind) {
            rec.header_bytes@
        } else {
            rec.header_bytes@ + rec.body_bytes@
        },
        body_text: spec_value_body_text(rec),
    }
}

/// The row that closes a container: the matching delimiter, no hex payload,
/// at the container's own indentation.
pub open spec fn spec_closing_grow(kind: IonKind, depth: nat) -> GRow {
    GRow {
        tag: RowTag::Closing,
        depth,
        offset: None,
        length: None,
        indentation: spec_indentation(depth),
        hex: Seq::empty(),
        text: spec_closing_delimiter(kind),
        comment: Seq::empty(),
        payload: Seq::empty(),
        body_text: spec_closing_delimiter(kind),
    }
}

/// The comment row that reports bytes suppressed by the skip window at one
/// level.
pub open spec fn spec_skip_grow(depth: nat, skipped: nat) -> GRow {
    GRow {
        tag: RowTag::Skipped,
        depth,
        offset: None,
        length: None,
        indentation: spec_indentation(depth),
        hex: "..."@,
        text: Seq::empty(),
        comment: "// Skipped "@ + spec_decimal(skipped) + " bytes of user-level data"@,
        payload: Seq::empty(),
        body_text: Seq::empty(),
    }
}

/// The terminal comment row once the limit is reached: "stepping out" inside
/// a container, "ending" at the top level.
pub open spec fn spec_limit_grow(depth: nat) -> GRow {
    GRow {
        tag: RowTag::Limit,
        depth,
        offset: None,
        length: None,
        indentation: spec_indentation(depth),
        hex: "..."@,
        text: Seq::empty(),
        comment: if depth > 0 {
            "// --limit-bytes reached, stepping out."@
        } else {
            "// --limit-bytes reached, ending."@
        },
        payload: Seq::empty(),
        body_text: Seq::empty(),
    }
}

/// The field-id row (when present), the annotations row (when present), and
/// the value row, in that order.
pub open spec fn spec_rows_for_value(rec: ValueRecord, depth: nat) -> Seq<GRow> {
    (match rec.field {
        Some(_) => seq![spec_field_grow(rec, depth)],
        None => Seq::empty(),
    }) + (match rec.annotations {
        Some(_) => seq![spec_annotations_grow(rec, depth)],
        None => Seq::empty(),
    }) + seq![spec_value_grow(rec, depth)]
}

// ---------------------------------------------------------------------------
// The engine's meaning: the rows one level of the stream produces
// ---------------------------------------------------------------------------

/// Height of the value tree, for termination bounds.
pub open spec fn spec_items_height(items: Seq<Item>) -> nat
    decreases items,
{
    if items.len() == 0 {
        0
    } else {
        let first: nat = match items[0] {
            Item::Event(_) => 0,
            Item::Value(_, children) => spec_items_height(children@) + 1,
        };
        let rest = spec_items_height(items.drop_first());
        if first > rest {
            first
        } else {
            rest
        }
    }
}

/// The rows the engine emits for the items of one nesting level, given the
/// byte window and the bytes already skipped-but-unreported at this level.
///
/// A structural event always becomes its comment row. A value whose range
/// ends at or before the skip point is suppressed and its length accumulated.
/// Once a value starts at or past the limit, a single terminal comment row is
/// emitted and the rest of the level is dropped. Otherwise any accumulated
/// skipped bytes are flushed as a comment row, the value's rows follow, and a
/// container additionally contributes its children one level deeper and a
/// closing delimiter row.
pub open spec fn spec_level(
    items: Seq<Item>,
    depth: nat,
    skipped: nat,
    win: InspectionWindow,
) -> Seq<GRow>
    decreases items,
{
    if items.len() == 0 {
        Seq::empty()
    } else {
        match items[0] {
            Item::Event(ev) => seq![spec_event_grow(ev)] + spec_level(
                items.drop_first(),
                depth,
                skipped,
                win,
            ),
            Item::Value(rec, children) => {
                let start = spec_value_start(rec);
                let end = spec_value_end(rec);
                let amount: nat = if end >= start {
                    (end - start) as nat
                } else {
                    0
                };
                if end <= win.bytes_to_skip {
                    spec_level(items.drop_first(), depth, (skipped + amount) as nat, win)
                } else {
                    let processed: int = if start >= win.bytes_to_skip {
                        start - win.bytes_to_skip
                    } else {
                        0
                    };
                    if processed >= win.limit_bytes {
                        seq![spec_limit_grow(depth)]
                    } else {
                        (if skipped > 0 {
                            seq![spec_skip_grow(depth, skipped)]
                        } else {
                            Seq::empty()
                        }) + spec_rows_for_value(rec, depth) + (if spec_is_container(rec.kind) {
                            spec_level(children@, depth + 1, 0, win) + seq![
                                spec_closing_grow(rec.kind, depth),
                            ]
                        } else {
                            Seq::empty()
                        }) + spec_level(items.drop_first(), depth, 0, win)
                    }
                }
            },
        }
    }
}

// ---------------------------------------------------------------------------
// Small lemmas about the tree
// ---------------------------------------------------------------------------

/// Well-formedness of a level only gets easier as the lower bound drops.
pub proof fn lemma_wf_items_weaken(items: Seq<Item>, lo1: int, lo2: int)
    requires
        spec_wf_items(items, lo1),
        lo2 <= lo1,
    ensures
        spec_wf_items(items, lo2),
    decreases items,
{
    if items.len() > 0 {
        match items[0] {
            Item::Event(_) => {
                lemma_wf_items_weaken(items.drop_first(), lo1, lo2);
            },
            Item::Value(_, _) => {},
        }
    }
}

/// Dropping leading items never raises the height of a level.
pub proof fn lemma_items_height_skip(items: Seq<Item>, i: int)
    requires
        0 <= i <= items.len(),
    ensures
        spec_items_height(items.skip(i)) <= spec_items_height(items),
    decreases i,
{
    if i == 0 {
        assert(items.skip(0) =~= items);
    } else {
        assert(items.skip(i) =~= items.drop_first().skip(i - 1));
        lemma_items_height_skip(items.drop_first(), i - 1);
    }
}

// ---------------------------------------------------------------------------
// The inspector
// ---------------------------------------------------------------------------

/// The inspection engine: walks one decoded level after another, enforces the
/// byte window, and collects the table rows it emits.
pub struct IonInspector {
    pub bytes_to_skip: usize,
    pub limit_bytes: usize,
    pub indentation_buffer: String,
    pub summarizer: SystemLevelEventSummarizer,
    pub rows: Vec<Row>,
}

impl IonInspector {
    /// The byte window this run was configured with.
    pub open spec fn spec_window(self) -> InspectionWindow {
        InspectionWindow { bytes_to_skip: self.bytes_to_skip, limit_bytes: self.limit_bytes }
    }

    /// An engine for one run over the given byte window, with no rows
    /// emitted yet.
    pub fn new(window: InspectionWindow) -> (ins: IonInspector)
        ensures
            ins.spec_window() == window,
            ins.rows@ =~= Seq::<Row>::empty(),
            ins.indentation_buffer@ =~= Seq::<char>::empty(),
    {
        IonInspector {
            bytes_to_skip: window.bytes_to_skip,
            limit_bytes: window.limit_bytes,
            indentation_buffer: String::new(),
            summarizer: SystemLevelEventSummarizer::new(),
            rows: Vec::new(),
        }
    }

    /// Offset of the first byte that pertains to the given value: its field
    /// id if present, else its annotations if present, else its header.
    pub fn first_value_byte_offset(&self, rec: &ValueRecord) -> (r: usize)
        ensures
            r as int == spec_value_start(*rec),
    {
        match &rec.field {
            Some(f) => f.offset,
            None => match &rec.annotations {
                Some(a) => a.offset,
                None => rec.header_offset,
            },
        }
    }

    /// The byte range containing the value with its annotations and field id,
    /// as a (start, end) pair of absolute offsets.
    pub fn complete_value_range(&self, rec: &ValueRecord) -> (r: (usize, usize))
        requires
            spec_wf_record(*rec),
        ensures
            r.0 as int == spec_value_start(*rec),
            r.1 as int == spec_value_end(*rec),
            r.0 <= r.1,
    {
        let start = self.first_value_byte_offset(rec);
        let end = rec.header_offset + rec.header_length + rec.value_length;
        (start, end)
    }

    fn increase_indentation(&mut self, depth: usize)
        ensures
            final(self).indentation_buffer@ == old(self).indentation_buffer@ + (if depth > 0 {
                "  "@
            } else {
                Seq::<char>::empty()
            }),
            final(self).bytes_to_skip == old(self).bytes_to_skip,
            final(self).limit_bytes == old(self).limit_bytes,
            final(self).rows@ == old(self).rows@,
    {
        if depth > 0 {
            self.indentation_buffer.append("  ");
        } else {
            proof {
                assert(final(self).indentation_buffer@ =~= old(self).indentation_buffer@
                    + Seq::<char>::empty());
            }
        }
    }

    fn decrease_indentation(&mut self, depth: usize)
        requires
            old(self).indentation_buffer@ == spec_indentation(depth as nat),
        ensures
            final(self).indentation_buffer@ == spec_indentation(
                if depth > 0 {
                    (depth - 1) as nat
                } else {
                    0
                },
            ),
            final(self).bytes_to_skip == old(self).bytes_to_skip,
            final(self).limit_bytes == old(self).limit_bytes,
            final(self).rows@ == old(self).rows@,
    {
        if depth > 0 {
            proof {
                lemma_indentation_len(depth as nat);
                lemma_indentation_len((depth - 1) as nat);
            }
            let len = self.indentation_buffer.as_str().unicode_len();
            let shorter = self.indentation_buffer.as_str().substring_char(0, len - 2).to_owned();
            proof {
                assert(old(self).indentation_buffer@.subrange(0, 2 * (depth - 1))
                    =~= spec_indentation((depth - 1) as nat));
            }
            self.indentation_buffer = shorter;
        }
    }

    /// Emits the field-id row when the enclosing container is a struct.
    fn write_field_if_present(&mut self, rec: &ValueRecord, Ghost(depth): Ghost<nat>)
        requires
            old(self).indentation_buffer@ == spec_indentation(depth),
        ensures
            final(self).bytes_to_skip == old(self).bytes_to_skip,
            final(self).limit_bytes == old(self).limit_bytes,
            final(self).indentation_buffer@ == old(self).indentation_buffer@,
            match rec.field {
                Some(_) => {
                    &&& final(self).rows@.len() == old(self).rows@.len() + 1
                    &&& final(self).rows@.drop_last() == old(self).rows@
                    &&& spec_row_matches(final(self).rows@.last(), spec_field_grow(*rec, depth))
                },
                None => final(self).rows@ == old(self).rows@,
            },
    {
        match &rec.field {
            Some(f) => {
                let mut hex = String::new();
                to_hex(&mut hex, f.raw.as_slice());
                let mut text = String::from_str("'");
                text.append(f.name.as_str());
                text.append("':");
                let mut cmt = String::from_str(" // $");
                let digits = format_usize(f.id);
                cmt.append(digits.as_str());
                cmt.append(":");
                let row = Row {
                    offset: Some(f.offset),
                    length: Some(f.length),
                    indentation: self.indentation_buffer.clone(),
                    hex,
                    text,
                    comment: dimmed(cmt.as_str()),
                };
                self.rows.push(row);
                proof {
                    assert(rec.field->Some_0 == *f);
                    assert(self.rows@.drop_last() =~= old(self).rows@);
                }
            },
            None => {},
        }
    }

    /// Emits the annotations row when the value carries annotations.
    fn write_annotations_if_present(&mut self, rec: &ValueRecord, Ghost(depth): Ghost<nat>)
        requires
            old(self).indentation_buffer@ == spec_indentation(depth),
        ensures
            final(self).bytes_to_skip == old(self).bytes_to_skip,
            final(self).limit_bytes == old(self).limit_bytes,
            final(self).indentation_buffer@ == old(self).indentation_buffer@,
            match rec.annotations {
                Some(_) => {
                    &&& final(self).rows@.len() == old(self).rows@.len() + 1
                    &&& final(self).rows@.drop_last() == old(self).rows@
                    &&& spec_row_matches(
                        final(self).rows@.last(),
                        spec_annotations_grow(*rec, depth),
                    )
                },
                None => final(self).rows@ == old(self).rows@,
            },
    {
        match &rec.annotations {
            Some(a) => {
                let mut hex = String::new();
                to_hex(&mut hex, a.raw.as_slice());
                let mut text = String::from_str("'");
                join_into(&mut text, "'::'", &a.texts);
                text.append("'::");
                let mut cmt = String::from_str(" // $");
                let id_texts = decimals_of(&a.ids);
                join_into(&mut cmt, "::$", &id_texts);
                cmt.append("::");
                let row = Row {
                    offset: Some(a.offset),
                    length: Some(a.length),
                    indentation: self.indentation_buffer.clone(),
                    hex,
                    text,
                    comment: dimmed(cmt.as_str()),
                };
                self.rows.push(row);
                proof {
                    assert(rec.annotations->Some_0 == *a);
                    assert(self.rows@.drop_last() =~= old(self).rows@);
                }
            },
            None => {},
        }
    }

    /// Emits the value row: full hex and serialized text for a scalar, header
    /// hex and the opening delimiter for a container.
    fn write_value(&mut self, rec: &ValueRecord, depth: usize)
        requires
            old(self).indentation_buffer@ == spec_indentation(depth as nat),
            spec_wf_record(*rec),
        ensures
            final(self).bytes_to_skip == old(self).bytes_to_skip,
            final(self).limit_bytes == old(self).limit_bytes,
            final(self).indentation_buffer@ == old(self).indentation_buffer@,
            final(self).rows@.len() == old(self).rows@.len() + 1,
            final(self).rows@.drop_last() == old(self).rows@,
            spec_row_matches(final(self).rows@.last(), spec_value_grow(*rec, depth as nat)),
    {
        let (text, comment) = format_value(rec, depth);
        let mut hex = String::new();
        to_hex(&mut hex, rec.header_bytes.as_slice());
        if !rec.kind.is_container() {
            hex.append(" ");
            to_hex(&mut hex, rec.body_bytes.as_slice());
        }
        let length = rec.header_length + rec.value_length;
        let row = Row {
            offset: Some(rec.header_offset),
            length: Some(length),
            indentation: self.indentation_buffer.clone(),
            hex,
            text,
            comment,
        };
        self.rows.push(row);
        proof {
            assert(self.rows@.drop_last() =~= old(self).rows@);
        }
    }

    /// Walks all the values at one nesting level, recursing into containers,
    /// and appends the rows the level produces under the engine's byte
    /// window: exactly `spec_level` of the given items.
    #[verifier::rlimit(100)]
    pub fn inspect_level(&mut self, items: &Vec<Item>, depth: usize)
        requires
            spec_wf_items(items@, 0),
            depth + spec_items_height(items@) <= usize::MAX,
            old(self).indentation_buffer@ == spec_indentation(
                if depth > 0 {
                    (depth - 1) as nat
                } else {
                    0
                },
            ),
        ensures
            final(self).bytes_to_skip == old(self).bytes_to_skip,
            final(self).limit_bytes == old(self).limit_bytes,
            final(self).indentation_buffer@ == old(self).indentation_buffer@,
            final(self).rows@.subrange(0, old(self).rows@.len() as int) == old(self).rows@,
            spec_rows_match_from(
                final(self).rows@,
                old(self).rows@.len() as int,
                spec_level(items@, depth as nat, 0, old(self).spec_window()),
            ),
        decreases spec_items_height(items@),
    {
        self.increase_indentation(depth);
        let ghost win = old(self).spec_window();
        let ghost base = old(self).rows@.len() as int;
        let ghost target = spec_level(items@, depth as nat, 0, win);
        let ghost mut done: Seq<GRow> = Seq::empty();
        let ghost mut lo: int = 0;
        let mut bytes_skipped_this_level: usize = 0;
        let mut i: usize = 0;
        let n = items.len();
        proof {
            assert(items@.skip(0) =~= items@);
            assert(self.rows@.subrange(0, base) =~= old(self).rows@);
        }
        while i < n
            invariant
                i <= n,
                n == items@.len(),
                depth + spec_items_height(items@) <= usize::MAX,
                win == old(self).spec_window(),
                target == spec_level(items@, depth as nat, 0, win),
                old(self).indentation_buffer@ == spec_indentation(
                    if depth > 0 {
                        (depth - 1) as nat
                    } else {
                        0
                    },
                ),
                self.bytes_to_skip == win.bytes_to_skip,
                self.limit_bytes == win.limit_bytes,
                self.indentation_buffer@ == spec_indentation(depth as nat),
                spec_wf_items(items@.skip(i as int), lo),
                0 <= lo <= usize::MAX,
                bytes_skipped_this_level <= lo,
                self.rows@.subrange(0, base) == old(self).rows@,
                base == old(self).rows@.len(),
                spec_rows_match_from(self.rows@, base, done),
                done + spec_level(
                    items@.skip(i as int),
                    depth as nat,
                    bytes_skipped_this_level as nat,
                    win,
                ) == target,
            decreases n - i,
        {
            let ghost suffix = items@.skip(i as int);
            let ghost k_entry = bytes_skipped_this_level as nat;
            proof {
                assert(suffix[0] == items@[i as int]);
                assert(suffix.drop_first() =~= items@.skip(i + 1int));
                lemma_items_height_skip(items@, i as int);
            }
            let item = &items[i];
            match item {
                Item::Event(ev) => {
                    let row = self.summarizer.summarize(ev);
                    let ghost rows_before = self.rows@;
                    self.rows.push(row);
                    proof {
                        assert(*item == Item::Event(*ev));
                        lemma_match_append_one(
                            rows_before,
                            self.rows@,
                            base,
                            done,
                            row,
                            spec_event_grow(*ev),
                        );
                        let rest = spec_level(items@.skip(i + 1int), depth as nat, k_entry, win);
                        assert(spec_level(suffix, depth as nat, k_entry, win) == seq![
                            spec_event_grow(*ev),
                        ] + rest);
                        assert((done + seq![spec_event_grow(*ev)]) + rest =~= done + (seq![
                            spec_event_grow(*ev),
                        ] + rest));
                        done = done + seq![spec_event_grow(*ev)];
                        assert(self.rows@.subrange(0, base) =~= old(self).rows@);
                    }
                },
                Item::Value(rec, children) => {
                    proof {
                        assert(*item == Item::Value(*rec, *children));
                        assert(spec_wf_record(*rec));
                    }
                    let (start, end) = self.complete_value_range(rec);
                    if end <= self.bytes_to_skip {
                        proof {
                            assert(lo <= spec_value_start(*rec));
                        }
                        bytes_skipped_this_level = bytes_skipped_this_level + (end - start);
                        proof {
                            assert(spec_level(suffix, depth as nat, k_entry, win) == spec_level(
                                items@.skip(i + 1int),
                                depth as nat,
                                bytes_skipped_this_level as nat,
                                win,
                            ));
                            lo = spec_value_end(*rec);
                        }
                    } else {
                        let bytes_processed = if start >= self.bytes_to_skip {
                            start - self.bytes_to_skip
                        } else {
                            0
                        };
                        if bytes_processed >= self.limit_bytes {
                            let msg: &str = if depth > 0 {
                                "// --limit-bytes reached, stepping out."
                            } else {
                                "// --limit-bytes reached, ending."
                            };
                            let row = Row {
                                offset: None,
                                length: None,
                                indentation: self.indentation_buffer.clone(),
                                hex: String::from_str("..."),
                                text: String::new(),
                                comment: dimmed(msg),
                            };
                            let ghost rows_before = self.rows@;
                            self.rows.push(row);
                            proof {
                                assert(spec_level(suffix, depth as nat, k_entry, win) == seq![
                                    spec_limit_grow(depth as nat),
                                ]);
                                lemma_match_append_one(
                                    rows_before,
                                    self.rows@,
                                    base,
                                    done,
                                    row,
                                    spec_limit_grow(depth as nat),
                                );
                                done = done + seq![spec_limit_grow(depth as nat)];
                                assert(done =~= target);
                                assert(self.rows@.subrange(0, base) =~= old(self).rows@);
                            }
                            self.decrease_indentation(depth);
                            return;
                        }
                        let ghost done_entry = done;
                        let ghost spart: Seq<GRow> = if k_entry > 0 {
                            seq![spec_skip_grow(depth as nat, k_entry)]
                        } else {
                            Seq::empty()
                        };
                        if bytes_skipped_this_level > 0 {
                            let mut m = String::from_str("// Skipped ");
                            let digits = format_usize(bytes_skipped_this_level);
                            m.append(digits.as_str());
                            m.append(" bytes of user-level data");
                            let row = Row {
                                offset: None,
                                length: None,
                                indentation: self.indentation_buffer.clone(),
                                hex: String::from_str("..."),
                                text: String::new(),
                                comment: dimmed(m.as_str()),
                            };
                            let ghost rows_before = self.rows@;
                            self.rows.push(row);
                            proof {
                                lemma_match_append_one(
                                    rows_before,
                                    self.rows@,
                                    base,
                                    done,
                                    row,
                                    spec_skip_grow(depth as nat, k_entry),
                                );
                                done = done + spart;
                            }
                            bytes_skipped_this_level = 0;
                        } else {
                            proof {
                                assert(done + spart =~= done);
                                done = done + spart;
                            }
                        }
                        let ghost rows_before = self.rows@;
                        self.write_field_if_present(rec, Ghost(depth as nat));
                        proof {
                            match rec.field {
                                Some(_) => {
                                    assert(self.rows@ =~= rows_before.push(self.rows@.last()));
                                    lemma_match_append_one(
                                        rows_before,
                                        self.rows@,
                                        base,
                                        done,
                                        self.rows@.last(),
                                        spec_field_grow(*rec, depth as nat),
                                    );
                                    done = done + seq![spec_field_grow(*rec, depth as nat)];
                                },
                                None => {},
                            }
                        }
                        let ghost rows_before = self.rows@;
                        self.write_annotations_if_present(rec, Ghost(depth as nat));
                        proof {
                            match rec.annotations {
                                Some(_) => {
                                    assert(self.rows@ =~= rows_before.push(self.rows@.last()));
                                    lemma_match_append_one(
                                        rows_before,
                                        self.rows@,
                                        base,
                                        done,
                                        self.rows@.last(),
                                        spec_annotations_grow(*rec, depth as nat),
                                    );
                                    done = done + seq![spec_annotations_grow(*rec, depth as nat)];
                                },
                                None => {},
                            }
                        }
                        let ghost rows_before = self.rows@;
                        self.write_value(rec, depth);
                        proof {
                            assert(self.rows@ =~= rows_before.push(self.rows@.last()));
                            lemma_match_append_one(
                                rows_before,
                                self.rows@,
                                base,
                                done,
                                self.rows@.last(),
                                spec_value_grow(*rec, depth as nat),
                            );
                            done = done + seq![spec_value_grow(*rec, depth as nat)];
                        }
                        if rec.kind.is_container() {
                            proof {
                                assert(spec_items_height(suffix) >= spec_items_height(children@)
                                    + 1);
                                lemma_wf_items_weaken(
                                    children@,
                                    rec.header_offset + rec.header_length,
                                    0,
                                );
                            }
                            let ghost rows_mid = self.rows@;
                            let ghost done_mid = done;
                            self.inspect_level(children, depth + 1);
                            proof {
                                let child_rows = spec_level(children@, (depth + 1) as nat, 0, win);
                                assert(self.rows@.subrange(0, base) =~= old(self).rows@);
                                assert forall|j: int|
                                    0 <= j < (done_mid + child_rows).len() implies spec_row_matches(
                                    self.rows@[base + j],
                                    #[trigger] (done_mid + child_rows)[j],
                                ) by {
                                    if j < done_mid.len() {
                                        assert(self.rows@[base + j] == self.rows@.subrange(
                                            0,
                                            rows_mid.len() as int,
                                        )[base + j]);
                                        assert(self.rows@[base + j] == rows_mid[base + j]);
                                    }
                                }
                                done = done_mid + child_rows;
                                assert(spec_rows_match_from(self.rows@, base, done));
                            }
                            let closing = closing_delimiter_for(rec.kind);
                            let row = Row {
                                offset: None,
                                length: None,
                                indentation: self.indentation_buffer.clone(),
                                hex: String::new(),
                                text: closing.to_owned(),
                                comment: String::new(),
                            };
                            let ghost rows_before = self.rows@;
                            self.rows.push(row);
                            proof {
                                lemma_match_append_one(
                                    rows_before,
                                    self.rows@,
                                    base,
                                    done,
                                    row,
                                    spec_closing_grow(rec.kind, depth as nat),
                                );
                                done = done + seq![spec_closing_grow(rec.kind, depth as nat)];
                                assert(self.rows@.subrange(0, base) =~= old(self).rows@);
                            }
                        }
                        proof {
                            let d = depth as nat;
                            let vpart = spec_rows_for_value(*rec, d);
                            let cpart: Seq<GRow> = if spec_is_container(rec.kind) {
                                spec_level(children@, d + 1, 0, win) + seq![
                                    spec_closing_grow(rec.kind, d),
                                ]
                            } else {
                                Seq::empty()
                            };
                            let rest = spec_level(items@.skip(i + 1int), d, 0, win);
                            assert(spec_level(suffix, d, k_entry, win) == spart + vpart + cpart
                                + rest);
                            assert(done =~= done_entry + (spart + vpart + cpart));
                            assert(done + rest =~= done_entry + (spart + vpart + cpart + rest));
                            lo = spec_value_end(*rec);
                        }
                    }
                },
            }
            i = i + 1;
        }
        proof {
            assert(items@.skip(n as int) =~= Seq::<Item>::empty());
            assert(done + Seq::<GRow>::empty() =~= done);
            assert(done == target);
        }
        self.decrease_indentation(depth);
    }
}

/// Checks that a byte buffer begins with the format's fixed four-byte version
/// marker.
pub open spec fn spec_is_ivm_prefix(data: Seq<u8>) -> bool {
    data.len() >= 4 && data[0] == 0xe0 && data[1] == 0x01 && data[2] == 0x00 && data[3] == 0xea
}

/// True when the input begins with the binary format's version marker; input
/// that does not is rejected before the engine runs.
pub fn starts_with_ivm(data: &[u8]) -> (r: bool)
    ensures
        r == spec_is_ivm_prefix(data@),
{
    if data.len() < 4 {
        return false;
    }
    data[0] == 0xe0 && data[1] == 0x01 && data[2] == 0x00 && data[3] == 0xea
}

/// Runs the inspection engine over a whole decoded stream and returns the
/// table rows it emits: exactly `spec_level` of the stream at depth zero.
pub fn inspect(items: &Vec<Item>, window: InspectionWindow) -> (rows: Vec<Row>)
    requires
        spec_wf_items(items@, 0),
        spec_items_height(items@) <= usize::MAX,
    ensures
        spec_rows_match_from(rows@, 0, spec_level(items@, 0, 0, window)),
{
    let mut inspector = IonInspector::new(window);
    inspector.inspect_level(items, 0);
    proof {
        assert(inspector.rows@.subrange(0, 0) =~= Seq::<Row>::empty());
    }
    inspector.rows
}

/// Appending a matched row keeps a row vector matched.
proof fn lemma_match_append_one(
    rows_old: Seq<Row>,
    rows_new: Seq<Row>,
    base: int,
    done: Seq<GRow>,
    r: Row,
    g: GRow,
)
    requires
        0 <= base,
        spec_rows_match_from(rows_old, base, done),
        rows_new == rows_old.push(r),
        spec_row_matches(r, g),
    ensures
        spec_rows_match_from(rows_new, base, done + seq![g]),
        rows_new.subrange(0, base) == rows_old.subrange(0, base),
{
    assert(rows_new.subrange(0, base) =~= rows_old.subrange(0, base));
    assert forall|j: int| 0 <= j < (done + seq![g]).len() implies spec_row_matches(
        rows_new[base + j],
        #[trigger] (done + seq![g])[j],
    ) by {
        if j < done.len() {
            assert((done + seq![g])[j] == done[j]);
            assert(rows_new[base + j] == rows_old[base + j]);
        } else {
            assert((done + seq![g])[j] == g);
            assert(rows_new[base + j] == r);
        }
    }
}

/// The text column of one value's row and its trailing comment: a scalar's
/// serialized text or a container's opening delimiter, a separator when
/// nested, and for symbols the resolved id as a dimmed remark.
fn format_value(rec: &ValueRecord, depth: usize) -> (r: (String, String))
    ensures
        r.0@ == spec_value_text(*rec, depth as nat),
        spec_styled(spec_dim_prefix(), spec_value_comment(*rec), r.1@),
{
    let mut text = if rec.kind.is_container() {
        match rec.kind {
            IonKind::List => String::from_str("["),
            IonKind::SExpression => String::from_str("("),
            _ => String::from_str("{"),
        }
    } else {
        rec.text.clone()
    };
    if depth > 0 {
        text.append(",");
    } else {
        proof {
            assert(text@ =~= spec_value_body_text(*rec) + Seq::<char>::empty());
        }
    }
    let comment_plain = match &rec.symbol_id {
        Some(id) => {
            let mut c = String::from_str(" // $");
            let digits = format_usize(*id);
            c.append(digits.as_str());
            c
        },
        None => String::new(),
    };
    (text, dimmed(comment_plain.as_str()))
}

} // verus!
