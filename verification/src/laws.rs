use vstd::prelude::*;
use crate::engine::{
    spec_field_grow, spec_annotations_grow, spec_value_grow, spec_closing_grow, spec_skip_grow,
    spec_limit_grow, spec_rows_for_value, spec_level,
};
use crate::events::spec_event_grow;
use crate::model::{GRow, InspectionWindow, Item, RowTag, ValueRecord, spec_is_container,
    spec_value_end, spec_value_start, spec_wf_items};
use crate::textutil::{spec_hex, spec_hex_pair, spec_hex_digit};
use crate::{spec_indentation};

verus! {

// ---------------------------------------------------------------------------
// Reading the hex column back as bytes
// ---------------------------------------------------------------------------

/// The hex column with its separating spaces removed: the bare digit pairs.
pub open spec fn spec_strip_spaces(s: Seq<char>) -> Seq<char> {
    s.filter(|c: char| c != ' ')
}

/// The digit pairs of a byte string, with no separators.
pub open spec fn spec_hex_flat(bytes: Seq<u8>) -> Seq<char>
    decreases bytes.len(),
{
    if bytes.len() == 0 {
        Seq::empty()
    } else {
        spec_hex_flat(bytes.drop_last()) + spec_hex_pair(bytes.last())
    }
}

proof fn lemma_filter_pair(x: char, y: char)
    requires
        x != ' ',
        y != ' ',
    ensures
        seq![x, y].filter(|c: char| c != ' ') == seq![x, y],
{
    reveal_with_fuel(Seq::filter, 4);
    assert(seq![x, y].drop_last() =~= seq![x]);
    assert(seq![x].drop_last() =~= Seq::<char>::empty());
    assert(seq![x].filter(|c: char| c != ' ') =~= seq![x]);
    assert(seq![x, y].filter(|c: char| c != ' ') =~= seq![x, y]);
}

proof fn lemma_filter_space()
    ensures
        seq![' '].filter(|c: char| c != ' ') == Seq::<char>::empty(),
{
    reveal_with_fuel(Seq::filter, 3);
    assert(seq![' '].drop_last() =~= Seq::<char>::empty());
    assert(seq![' '].filter(|c: char| c != ' ') =~= Seq::<char>::empty());
}

/// Stripping the spaces from the spaced hex text of a byte string leaves
/// exactly its digit pairs.
pub proof fn lemma_hex_strip(bytes: Seq<u8>)
    ensures
        spec_strip_spaces(spec_hex(bytes)) == spec_hex_flat(bytes),
    decreases bytes.len(),
{
    let pred = |c: char| c != ' ';
    if bytes.len() == 0 {
        reveal_with_fuel(Seq::filter, 2);
        assert(spec_hex(bytes).filter(pred) =~= Seq::<char>::empty());
    } else if bytes.len() == 1 {
        assert(spec_hex_pair(bytes[0]) =~= seq![
            spec_hex_digit(bytes[0] as nat / 16),
            spec_hex_digit(bytes[0] as nat % 16),
        ]);
        lemma_filter_pair(spec_hex_digit(bytes[0] as nat / 16), spec_hex_digit(bytes[0] as nat % 16));
        assert(spec_hex_flat(bytes.drop_last()) =~= Seq::<char>::empty());
        assert(spec_hex_flat(bytes) =~= spec_hex_pair(bytes.last()));
        assert(bytes.last() == bytes[0]);
    } else {
        lemma_hex_strip(bytes.drop_last());
        let h = spec_hex(bytes.drop_last());
        let p = spec_hex_pair(bytes.last());
        assert(p =~= seq![
            spec_hex_digit(bytes.last() as nat / 16),
            spec_hex_digit(bytes.last() as nat % 16),
        ]);
        Seq::filter_distributes_over_add(h + seq![' '], p, pred);
        Seq::filter_distributes_over_add(h, seq![' '], pred);
        lemma_filter_space();
        lemma_filter_pair(
            spec_hex_digit(bytes.last() as nat / 16),
            spec_hex_digit(bytes.last() as nat % 16),
        );
        assert(spec_hex(bytes) == h + seq![' '] + p);
        assert(spec_strip_spaces(spec_hex(bytes)) =~= spec_hex_flat(bytes));
    }
}

/// The digit pairs of a concatenation are the concatenated digit pairs.
pub proof fn lemma_hex_flat_concat(a: Seq<u8>, b: Seq<u8>)
    ensures
        spec_hex_flat(a + b) == spec_hex_flat(a) + spec_hex_flat(b),
    decreases b.len(),
{
    if b.len() == 0 {
        assert(a + b =~= a);
        assert(spec_hex_flat(a) + spec_hex_flat(b) =~= spec_hex_flat(a));
    } else {
        assert((a + b).drop_last() =~= a + b.drop_last());
        lemma_hex_flat_concat(a, b.drop_last());
        assert((a + b).last() == b.last());
        assert(spec_hex_flat(a) + spec_hex_flat(b) =~= spec_hex_flat(a) + spec_hex_flat(
            b.drop_last(),
        ) + spec_hex_pair(b.last()));
    }
}

// ---------------------------------------------------------------------------
// Pointwise facts that hold of every emitted row
// ---------------------------------------------------------------------------

/// `pred` holds of every row of `gs`.
pub open spec fn spec_all_rows(gs: Seq<GRow>, pred: spec_fn(GRow) -> bool) -> bool {
    forall|j: int| 0 <= j < gs.len() ==> pred(#[trigger] gs[j])
}

proof fn lemma_all_rows_concat(a: Seq<GRow>, b: Seq<GRow>, pred: spec_fn(GRow) -> bool)
    requires
        spec_all_rows(a, pred),
        spec_all_rows(b, pred),
    ensures
        spec_all_rows(a + b, pred),
{
    assert forall|j: int| 0 <= j < (a + b).len() implies pred(#[trigger] (a + b)[j]) by {
        if j < a.len() {
            assert((a + b)[j] == a[j]);
        } else {
            assert((a + b)[j] == b[j - a.len()]);
        }
    }
}

/// The facts true of every single row the engine emits, by construction:
/// its indentation is exactly its depth's worth of level widths; structural
/// event rows sit at the top level; a value row's text is its body text plus
/// a trailing separator exactly when nested; a value row's hex column, spaces
/// dropped, spells exactly the raw bytes it stands for; the limit row's
/// message matches its depth; comment rows carry no offset or length.
pub open spec fn spec_row_sane(g: GRow) -> bool {
    &&& g.indentation == spec_indentation(g.depth)
    &&& (g.tag == RowTag::Event ==> g.depth == 0)
    &&& (g.tag == RowTag::Value ==> g.text == g.body_text + (if g.depth > 0 {
        ","@
    } else {
        Seq::<char>::empty()
    }))
    &&& (g.tag == RowTag::Value ==> spec_strip_spaces(g.hex) == spec_hex_flat(g.payload))
    &&& (g.tag == RowTag::Value ==> g.offset is Some && g.length is Some)
    &&& (g.tag == RowTag::Limit ==> g.comment == (if g.depth > 0 {
        "// --limit-bytes reached, stepping out."@
    } else {
        "// --limit-bytes reached, ending."@
    }))
    &&& ((g.tag == RowTag::Limit || g.tag == RowTag::Skipped || g.tag == RowTag::Closing || g.tag
        == RowTag::Event) ==> g.offset is None && g.length is None)
}

proof fn lemma_value_grow_sane(rec: ValueRecord, depth: nat)
    ensures
        spec_row_sane(spec_value_grow(rec, depth)),
{
    let g = spec_value_grow(rec, depth);
    if spec_is_container(rec.kind) {
        lemma_hex_strip(rec.header_bytes@);
    } else {
        let pred = |c: char| c != ' ';
        lemma_hex_strip(rec.header_bytes@);
        lemma_hex_strip(rec.body_bytes@);
        lemma_hex_flat_concat(rec.header_bytes@, rec.body_bytes@);
        Seq::filter_distributes_over_add(
            spec_hex(rec.header_bytes@) + " "@,
            spec_hex(rec.body_bytes@),
            pred,
        );
        Seq::filter_distributes_over_add(spec_hex(rec.header_bytes@), " "@, pred);
        reveal_strlit(" ");
        assert(" "@ =~= seq![' ']);
        lemma_filter_space();
        assert(spec_strip_spaces(g.hex) =~= spec_hex_flat(g.payload));
    }
}

proof fn lemma_rows_for_value_sane(rec: ValueRecord, depth: nat)
    ensures
        spec_all_rows(spec_rows_for_value(rec, depth), |g: GRow| spec_row_sane(g)),
{
    lemma_value_grow_sane(rec, depth);
    let fpart: Seq<GRow> = match rec.field {
        Some(_) => seq![spec_field_grow(rec, depth)],
        None => Seq::empty(),
    };
    let apart: Seq<GRow> = match rec.annotations {
        Some(_) => seq![spec_annotations_grow(rec, depth)],
        None => Seq::empty(),
    };
    lemma_all_rows_concat(fpart, apart, |g: GRow| spec_row_sane(g));
    lemma_all_rows_concat(fpart + apart, seq![spec_value_grow(rec, depth)], |g: GRow| spec_row_sane(g));
}

/// Every row of every level is sane in the sense of `spec_row_sane`. This
/// carries, among others, the laws that indentation length always equals
/// nesting depth times the level width (the implicit top level adding none),
/// that a value row's hex column spells exactly the bytes of its value, that
/// trailing separators appear on rendered values exactly at depth above the
/// top level, and that the terminal limit message matches the depth at the
/// stopping point.
pub proof fn lemma_level_rows_sane(
    items: Seq<Item>,
    depth: nat,
    skipped: nat,
    win: InspectionWindow,
)
    ensures
        spec_all_rows(spec_level(items, depth, skipped, win), |g: GRow| spec_row_sane(g)),
    decreases items,
{
    let gs = spec_level(items, depth, skipped, win);
    if items.len() == 0 {
    } else {
        match items[0] {
            Item::Event(ev) => {
                lemma_level_rows_sane(items.drop_first(), depth, skipped, win);
                lemma_all_rows_concat(
                    seq![spec_event_grow(ev)],
                    spec_level(items.drop_first(), depth, skipped, win),
                    |g: GRow| spec_row_sane(g),
                );
            },
            Item::Value(rec, children) => {
                let start = spec_value_start(rec);
                let end = spec_value_end(rec);
                let amount: nat = if end >= start {
                    (end - start) as nat
                } else {
                    0
                };
                if end <= win.bytes_to_skip {
                    lemma_level_rows_sane(
                        items.drop_first(),
                        depth,
                        (skipped + amount) as nat,
                        win,
                    );
                } else {
                    let processed: int = if start >= win.bytes_to_skip {
                        start - win.bytes_to_skip
                    } else {
                        0
                    };
                    if processed >= win.limit_bytes {
                        assert(spec_all_rows(seq![spec_limit_grow(depth)], |g: GRow| spec_row_sane(g)));
                    } else {
                        let spart: Seq<GRow> = if skipped > 0 {
                            seq![spec_skip_grow(depth, skipped)]
                        } else {
                            Seq::empty()
                        };
                        let vpart = spec_rows_for_value(rec, depth);
                        let cpart: Seq<GRow> = if spec_is_container(rec.kind) {
                            spec_level(children@, depth + 1, 0, win) + seq![
                                spec_closing_grow(rec.kind, depth),
                            ]
                        } else {
                            Seq::empty()
                        };
                        let rest = spec_level(items.drop_first(), depth, 0, win);
                        lemma_rows_for_value_sane(rec, depth);
                        if spec_is_container(rec.kind) {
                            lemma_level_rows_sane(children@, depth + 1, 0, win);
                            lemma_all_rows_concat(
                                spec_level(children@, depth + 1, 0, win),
                                seq![spec_closing_grow(rec.kind, depth)],
                                |g: GRow| spec_row_sane(g),
                            );
                        }
                        lemma_level_rows_sane(items.drop_first(), depth, 0, win);
                        lemma_all_rows_concat(spart, vpart, |g: GRow| spec_row_sane(g));
                        lemma_all_rows_concat(spart + vpart, cpart, |g: GRow| spec_row_sane(g));
                        lemma_all_rows_concat(spart + vpart + cpart, rest, |g: GRow| spec_row_sane(g));
                    }
                }
            },
        }
    }
}


// ---------------------------------------------------------------------------
// An unbounded window renders everything
// ---------------------------------------------------------------------------

/// What the engine emits when the window suppresses nothing: every value at
/// every depth, in order, with containers opened, recursed into and closed —
/// and nothing else.
pub open spec fn spec_render_all(items: Seq<Item>, depth: nat) -> Seq<GRow>
    decreases items,
{
    if items.len() == 0 {
        Seq::empty()
    } else {
        match items[0] {
            Item::Event(ev) => seq![spec_event_grow(ev)] + spec_render_all(
                items.drop_first(),
                depth,
            ),
            Item::Value(rec, children) => spec_rows_for_value(rec, depth) + (if spec_is_container(
                rec.kind,
            ) {
                spec_render_all(children@, depth + 1) + seq![spec_closing_grow(rec.kind, depth)]
            } else {
                Seq::empty()
            }) + spec_render_all(items.drop_first(), depth),
        }
    }
}

/// With nothing to skip and an unbounded limit, the engine renders every
/// value at every depth.
pub proof fn lemma_unbounded_window_renders_all(
    items: Seq<Item>,
    depth: nat,
    win: InspectionWindow,
    lo: int,
)
    requires
        spec_wf_items(items, lo),
        win.bytes_to_skip == 0,
        win.limit_bytes == usize::MAX,
    ensures
        spec_level(items, depth, 0, win) == spec_render_all(items, depth),
    decreases items,
{
    if items.len() == 0 {
    } else {
        match items[0] {
            Item::Event(_) => {
                lemma_unbounded_window_renders_all(items.drop_first(), depth, win, lo);
            },
            Item::Value(rec, children) => {
                let start = spec_value_start(rec);
                let end = spec_value_end(rec);
                assert(end > 0);
                assert(start < end);
                assert(start < usize::MAX);
                lemma_unbounded_window_renders_all(
                    items.drop_first(),
                    depth,
                    win,
                    spec_value_end(rec),
                );
                if spec_is_container(rec.kind) {
                    lemma_unbounded_window_renders_all(
                        children@,
                        depth + 1,
                        win,
                        rec.header_offset + rec.header_length,
                    );
                }
                let vpart = spec_rows_for_value(rec, depth);
                assert(Seq::<GRow>::empty() + vpart =~= vpart);
            },
        }
    }
}

/// The rows of an unsuppressed rendering never include a skip or limit
/// comment row.
pub proof fn lemma_render_all_no_window_rows(items: Seq<Item>, depth: nat)
    ensures
        spec_all_rows(
            spec_render_all(items, depth),
            |g: GRow| g.tag != RowTag::Skipped && g.tag != RowTag::Limit,
        ),
    decreases items,
{
    let pred = |g: GRow| g.tag != RowTag::Skipped && g.tag != RowTag::Limit;
    if items.len() == 0 {
    } else {
        match items[0] {
            Item::Event(ev) => {
                lemma_render_all_no_window_rows(items.drop_first(), depth);
                lemma_all_rows_concat(
                    seq![spec_event_grow(ev)],
                    spec_render_all(items.drop_first(), depth),
                    pred,
                );
            },
            Item::Value(rec, children) => {
                lemma_render_all_no_window_rows(items.drop_first(), depth);
                let vpart = spec_rows_for_value(rec, depth);
                let cpart: Seq<GRow> = if spec_is_container(rec.kind) {
                    spec_render_all(children@, depth + 1) + seq![
                        spec_closing_grow(rec.kind, depth),
                    ]
                } else {
                    Seq::empty()
                };
                assert(spec_all_rows(vpart, pred));
                if spec_is_container(rec.kind) {
                    lemma_render_all_no_window_rows(children@, depth + 1);
                    lemma_all_rows_concat(
                        spec_render_all(children@, depth + 1),
                        seq![spec_closing_grow(rec.kind, depth)],
                        pred,
                    );
                }
                lemma_all_rows_concat(vpart, cpart, pred);
                lemma_all_rows_concat(
                    vpart + cpart,
                    spec_render_all(items.drop_first(), depth),
                    pred,
                );
            },
        }
    }
}

// ---------------------------------------------------------------------------
// Every rendered value lies past the skip point
// ---------------------------------------------------------------------------

/// Under a skip of `k` bytes, every emitted value row stands for a value
/// whose full range ends past `k`: its offset plus its length — which equal
/// the range's end — exceed the skip point. A value straddling the boundary
/// is thus shown whole, never truncated.
pub proof fn lemma_rendered_values_end_past_skip(
    items: Seq<Item>,
    depth: nat,
    skipped: nat,
    win: InspectionWindow,
)
    ensures
        spec_all_rows(
            spec_level(items, depth, skipped, win),
            |g: GRow| g.tag == RowTag::Value ==> g.offset->Some_0 + g.length->Some_0
                > win.bytes_to_skip,
        ),
    decreases items,
{
    let pred = |g: GRow| g.tag == RowTag::Value ==> g.offset->Some_0 + g.length->Some_0
        > win.bytes_to_skip;
    if items.len() == 0 {
    } else {
        match items[0] {
            Item::Event(ev) => {
                lemma_rendered_values_end_past_skip(items.drop_first(), depth, skipped, win);
                lemma_all_rows_concat(
                    seq![spec_event_grow(ev)],
                    spec_level(items.drop_first(), depth, skipped, win),
                    pred,
                );
            },
            Item::Value(rec, children) => {
                let start = spec_value_start(rec);
                let end = spec_value_end(rec);
                let amount: nat = if end >= start {
                    (end - start) as nat
                } else {
                    0
                };
                if end <= win.bytes_to_skip {
                    lemma_rendered_values_end_past_skip(
                        items.drop_first(),
                        depth,
                        (skipped + amount) as nat,
                        win,
                    );
                } else {
                    let processed: int = if start >= win.bytes_to_skip {
                        start - win.bytes_to_skip
                    } else {
                        0
                    };
                    if processed >= win.limit_bytes {
                        assert(spec_all_rows(seq![spec_limit_grow(depth)], pred));
                    } else {
                        let spart: Seq<GRow> = if skipped > 0 {
                            seq![spec_skip_grow(depth, skipped)]
                        } else {
                            Seq::empty()
                        };
                        let vpart = spec_rows_for_value(rec, depth);
                        let cpart: Seq<GRow> = if spec_is_container(rec.kind) {
                            spec_level(children@, depth + 1, 0, win) + seq![
                                spec_closing_grow(rec.kind, depth),
                            ]
                        } else {
                            Seq::empty()
                        };
                        let rest = spec_level(items.drop_first(), depth, 0, win);
                        assert(spec_all_rows(vpart, pred));
                        if spec_is_container(rec.kind) {
                            lemma_rendered_values_end_past_skip(children@, depth + 1, 0, win);
                            lemma_all_rows_concat(
                                spec_level(children@, depth + 1, 0, win),
                                seq![spec_closing_grow(rec.kind, depth)],
                                pred,
                            );
                        }
                        lemma_rendered_values_end_past_skip(items.drop_first(), depth, 0, win);
                        lemma_all_rows_concat(spart, vpart, pred);
                        lemma_all_rows_concat(spart + vpart, cpart, pred);
                        lemma_all_rows_concat(spart + vpart + cpart, rest, pred);
                    }
                }
            },
        }
    }
}


// ---------------------------------------------------------------------------
// A struct member's rows come in order
// ---------------------------------------------------------------------------

/// What must follow the row at position `j` when it is a field-id or
/// annotations row: the annotations row (when there is one) and then the
/// value row of the same member, directly, at the same depth.
pub open spec fn spec_member_row_followed(gs: Seq<GRow>, j: int) -> bool {
    &&& (gs[j].tag == RowTag::Field ==> j + 1 < gs.len() && gs[j + 1].depth == gs[j].depth && (
    gs[j + 1].tag == RowTag::Value || (gs[j + 1].tag == RowTag::Annotations && j + 2 < gs.len()
        && gs[j + 2].tag == RowTag::Value && gs[j + 2].depth == gs[j].depth)))
    &&& (gs[j].tag == RowTag::Annotations ==> j + 1 < gs.len() && gs[j + 1].tag == RowTag::Value
        && gs[j + 1].depth == gs[j].depth)
}

/// Within one row sequence: a field-id row directly precedes its member's
/// annotations row (when there is one) and then its value row; an
/// annotations row directly precedes its value row; all at one depth.
pub open spec fn spec_member_rows_ordered(gs: Seq<GRow>) -> bool {
    forall|j: int| 0 <= j < gs.len() ==> #[trigger] spec_member_row_followed(gs, j)
}

proof fn lemma_ordered_concat(a: Seq<GRow>, b: Seq<GRow>)
    requires
        spec_member_rows_ordered(a),
        spec_member_rows_ordered(b),
    ensures
        spec_member_rows_ordered(a + b),
{
    assert forall|j: int| 0 <= j < (a + b).len() implies #[trigger] spec_member_row_followed(
        a + b,
        j,
    ) by {
        if j < a.len() {
            assert(spec_member_row_followed(a, j));
            assert((a + b)[j] == a[j]);
            if j + 1 < a.len() {
                assert((a + b)[j + 1] == a[j + 1]);
            }
            if j + 2 < a.len() {
                assert((a + b)[j + 2] == a[j + 2]);
            }
        } else {
            let k = j - a.len();
            assert(spec_member_row_followed(b, k));
            assert((a + b)[j] == b[k]);
            if k + 1 < b.len() {
                assert((a + b)[j + 1] == b[k + 1]);
            }
            if k + 2 < b.len() {
                assert((a + b)[j + 2] == b[k + 2]);
            }
        }
    }
}

proof fn lemma_rows_for_value_ordered(rec: ValueRecord, depth: nat)
    ensures
        spec_member_rows_ordered(spec_rows_for_value(rec, depth)),
{
    let gs = spec_rows_for_value(rec, depth);
    match rec.field {
        Some(_) => {
            match rec.annotations {
                Some(_) => {
                    assert(gs =~= seq![
                        spec_field_grow(rec, depth),
                        spec_annotations_grow(rec, depth),
                        spec_value_grow(rec, depth),
                    ]);
                },
                None => {
                    assert(gs =~= seq![spec_field_grow(rec, depth), spec_value_grow(rec, depth)]);
                },
            }
        },
        None => {
            match rec.annotations {
                Some(_) => {
                    assert(gs =~= seq![
                        spec_annotations_grow(rec, depth),
                        spec_value_grow(rec, depth),
                    ]);
                },
                None => {
                    assert(gs =~= seq![spec_value_grow(rec, depth)]);
                },
            }
        },
    }
}

/// A struct member's field-id row always directly precedes its annotations
/// row, which always directly precedes its value row, at one depth, in every
/// row sequence the engine emits.
#[verifier::rlimit(100)]
pub proof fn lemma_member_rows_ordered(
    items: Seq<Item>,
    depth: nat,
    skipped: nat,
    win: InspectionWindow,
)
    ensures
        spec_member_rows_ordered(spec_level(items, depth, skipped, win)),
    decreases items,
{
    if items.len() == 0 {
    } else {
        match items[0] {
            Item::Event(ev) => {
                lemma_member_rows_ordered(items.drop_first(), depth, skipped, win);
                lemma_ordered_concat(
                    seq![spec_event_grow(ev)],
                    spec_level(items.drop_first(), depth, skipped, win),
                );
            },
            Item::Value(rec, children) => {
                let start = spec_value_start(rec);
                let end = spec_value_end(rec);
                let amount: nat = if end >= start {
                    (end - start) as nat
                } else {
                    0
                };
                if end <= win.bytes_to_skip {
                    lemma_member_rows_ordered(
                        items.drop_first(),
                        depth,
                        (skipped + amount) as nat,
                        win,
                    );
                } else {
                    let processed: int = if start >= win.bytes_to_skip {
                        start - win.bytes_to_skip
                    } else {
                        0
                    };
                    if processed >= win.limit_bytes {
                        assert(spec_member_rows_ordered(seq![spec_limit_grow(depth)]));
                    } else {
                        let spart: Seq<GRow> = if skipped > 0 {
                            seq![spec_skip_grow(depth, skipped)]
                        } else {
                            Seq::empty()
                        };
                        let vpart = spec_rows_for_value(rec, depth);
                        let cpart: Seq<GRow> = if spec_is_container(rec.kind) {
                            spec_level(children@, depth + 1, 0, win) + seq![
                                spec_closing_grow(rec.kind, depth),
                            ]
                        } else {
                            Seq::empty()
                        };
                        let rest = spec_level(items.drop_first(), depth, 0, win);
                        lemma_rows_for_value_ordered(rec, depth);
                        if spec_is_container(rec.kind) {
                            lemma_member_rows_ordered(children@, depth + 1, 0, win);
                            lemma_ordered_concat(
                                spec_level(children@, depth + 1, 0, win),
                                seq![spec_closing_grow(rec.kind, depth)],
                            );
                        }
                        lemma_member_rows_ordered(items.drop_first(), depth, 0, win);
                        lemma_ordered_concat(spart, vpart);
                        lemma_ordered_concat(spart + vpart, cpart);
                        lemma_ordered_concat(spart + vpart + cpart, rest);
                    }
                }
            },
        }
    }
}


// ---------------------------------------------------------------------------
// After the limit, only unwinding
// ---------------------------------------------------------------------------

/// Containment of the value tree below a byte bound: every value of the
/// level ends at or before `hi`, and a container's children end within the
/// container. The decoder guarantees this nesting of byte ranges.
pub open spec fn spec_items_within(items: Seq<Item>, hi: int) -> bool
    decreases items,
{
    if items.len() == 0 {
        true
    } else {
        match items[0] {
            Item::Event(_) => spec_items_within(items.drop_first(), hi),
            Item::Value(rec, children) => spec_value_end(rec) <= hi && spec_items_within(
                children@,
                spec_value_end(rec),
            ) && spec_items_within(items.drop_first(), hi),
        }
    }
}

/// A row that may still appear while the engine unwinds after the limit: a
/// further limit notice, a container's closing delimiter, or a structural
/// event.
pub open spec fn spec_tail_row(g: GRow) -> bool {
    g.tag == RowTag::Limit || g.tag == RowTag::Closing || g.tag == RowTag::Event
}

/// Some row of `gs` is a limit notice.
pub open spec fn spec_has_limit_row(gs: Seq<GRow>) -> bool {
    exists|j: int| 0 <= j < gs.len() && (#[trigger] gs[j]).tag == RowTag::Limit
}

/// Once a limit notice has been emitted, every later row is a limit notice,
/// a closing delimiter, or a structural event: no user value follows it.
pub open spec fn spec_only_unwinding_after_limit(gs: Seq<GRow>) -> bool {
    forall|j1: int, j2: int|
        #![trigger gs[j1], gs[j2]]
        0 <= j1 < j2 < gs.len() && gs[j1].tag == RowTag::Limit ==> spec_tail_row(gs[j2])
}

proof fn lemma_has_limit_split(a: Seq<GRow>, b: Seq<GRow>)
    ensures
        spec_has_limit_row(a + b) <==> (spec_has_limit_row(a) || spec_has_limit_row(b)),
{
    if spec_has_limit_row(a + b) {
        let j = choose|j: int| 0 <= j < (a + b).len() && (#[trigger] (a + b)[j]).tag
            == RowTag::Limit;
        if j < a.len() {
            assert(a[j] == (a + b)[j]);
        } else {
            assert(b[j - a.len()] == (a + b)[j]);
        }
    }
    if spec_has_limit_row(a) {
        let j = choose|j: int| 0 <= j < a.len() && (#[trigger] a[j]).tag == RowTag::Limit;
        assert((a + b)[j] == a[j]);
        assert(spec_has_limit_row(a + b));
    }
    if spec_has_limit_row(b) {
        let j = choose|j: int| 0 <= j < b.len() && (#[trigger] b[j]).tag == RowTag::Limit;
        assert((a + b)[a.len() + j] == b[j]);
        assert(spec_has_limit_row(a + b));
    }
}

proof fn lemma_after_limit_concat(a: Seq<GRow>, b: Seq<GRow>)
    requires
        spec_only_unwinding_after_limit(a),
        spec_only_unwinding_after_limit(b),
        spec_has_limit_row(a) ==> spec_all_rows(b, |g: GRow| spec_tail_row(g)),
    ensures
        spec_only_unwinding_after_limit(a + b),
{
    assert forall|j1: int, j2: int|
        0 <= j1 < j2 < (a + b).len() && (#[trigger] (a + b)[j1]).tag == RowTag::Limit implies
        spec_tail_row(#[trigger] (a + b)[j2]) by {
        if j1 < a.len() {
            assert((a + b)[j1] == a[j1]);
            assert(spec_has_limit_row(a));
            if j2 < a.len() {
                assert((a + b)[j2] == a[j2]);
            } else {
                assert((a + b)[j2] == b[j2 - a.len()]);
            }
        } else {
            assert((a + b)[j1] == b[j1 - a.len()]);
            assert((a + b)[j2] == b[j2 - a.len()]);
        }
    }
}

/// Once every value of a level starts at or past the limit point, the level
/// contributes nothing but structural events and a limit notice.
proof fn lemma_high_start_levels(
    items: Seq<Item>,
    depth: nat,
    skipped: nat,
    win: InspectionWindow,
    lo: int,
)
    requires
        spec_wf_items(items, lo),
        lo >= win.bytes_to_skip + win.limit_bytes,
        win.limit_bytes >= 1,
    ensures
        spec_all_rows(
            spec_level(items, depth, skipped, win),
            |g: GRow| g.tag == RowTag::Event || g.tag == RowTag::Limit,
        ),
    decreases items,
{
    let pred = |g: GRow| g.tag == RowTag::Event || g.tag == RowTag::Limit;
    if items.len() == 0 {
    } else {
        match items[0] {
            Item::Event(ev) => {
                lemma_high_start_levels(items.drop_first(), depth, skipped, win, lo);
                lemma_all_rows_concat(
                    seq![spec_event_grow(ev)],
                    spec_level(items.drop_first(), depth, skipped, win),
                    pred,
                );
            },
            Item::Value(rec, _) => {
                let start = spec_value_start(rec);
                let end = spec_value_end(rec);
                assert(start <= end - 1);
                assert(end > win.bytes_to_skip);
                assert(start - win.bytes_to_skip >= win.limit_bytes);
                assert(spec_all_rows(seq![spec_limit_grow(depth)], pred));
            },
        }
    }
}

/// Once the engine has emitted a limit notice, no further user value, field,
/// annotation or skip row appears: only further limit notices at the
/// unwinding levels, the closing delimiters of containers already opened,
/// and structural events. Moreover a limit notice only appears at all when
/// the level's containing range reaches past the window, `hi` at least
/// `bytes_to_skip + limit_bytes`.
pub proof fn lemma_only_unwinding_after_limit(
    items: Seq<Item>,
    depth: nat,
    skipped: nat,
    win: InspectionWindow,
    lo: int,
    hi: int,
)
    requires
        spec_wf_items(items, lo),
        spec_items_within(items, hi),
        win.limit_bytes >= 1,
    ensures
        spec_only_unwinding_after_limit(spec_level(items, depth, skipped, win)),
        spec_has_limit_row(spec_level(items, depth, skipped, win)) ==> hi >= win.bytes_to_skip
            + win.limit_bytes,
    decreases items,
{
    let gs = spec_level(items, depth, skipped, win);
    if items.len() == 0 {
    } else {
        match items[0] {
            Item::Event(ev) => {
                let rest = spec_level(items.drop_first(), depth, skipped, win);
                lemma_only_unwinding_after_limit(
                    items.drop_first(),
                    depth,
                    skipped,
                    win,
                    lo,
                    hi,
                );
                assert(spec_only_unwinding_after_limit(seq![spec_event_grow(ev)]));
                lemma_has_limit_split(seq![spec_event_grow(ev)], rest);
                lemma_after_limit_concat(seq![spec_event_grow(ev)], rest);
            },
            Item::Value(rec, children) => {
                let start = spec_value_start(rec);
                let end = spec_value_end(rec);
                let amount: nat = if end >= start {
                    (end - start) as nat
                } else {
                    0
                };
                if end <= win.bytes_to_skip {
                    lemma_only_unwinding_after_limit(
                        items.drop_first(),
                        depth,
                        (skipped + amount) as nat,
                        win,
                        spec_value_end(rec),
                        hi,
                    );
                } else {
                    let processed: int = if start >= win.bytes_to_skip {
                        start - win.bytes_to_skip
                    } else {
                        0
                    };
                    if processed >= win.limit_bytes {
                        assert(gs == seq![spec_limit_grow(depth)]);
                        assert(spec_only_unwinding_after_limit(gs));
                        assert(start >= win.bytes_to_skip);
                        assert(start <= end <= hi);
                    } else {
                        let spart: Seq<GRow> = if skipped > 0 {
                            seq![spec_skip_grow(depth, skipped)]
                        } else {
                            Seq::empty()
                        };
                        let vpart = spec_rows_for_value(rec, depth);
                        let cpart: Seq<GRow> = if spec_is_container(rec.kind) {
                            spec_level(children@, depth + 1, 0, win) + seq![
                                spec_closing_grow(rec.kind, depth),
                            ]
                        } else {
                            Seq::empty()
                        };
                        let rest = spec_level(items.drop_first(), depth, 0, win);
                        let head = spart + vpart;
                        assert(spec_all_rows(head, |g: GRow| g.tag != RowTag::Limit));
                        assert(!spec_has_limit_row(head)) by {
                            if spec_has_limit_row(head) {
                                let j = choose|j: int|
                                    0 <= j < head.len() && (#[trigger] head[j]).tag
                                        == RowTag::Limit;
                            }
                        }
                        assert(spec_only_unwinding_after_limit(head));
                        lemma_only_unwinding_after_limit(
                            items.drop_first(),
                            depth,
                            0,
                            win,
                            spec_value_end(rec),
                            hi,
                        );
                        if spec_is_container(rec.kind) {
                            let child = spec_level(children@, depth + 1, 0, win);
                            lemma_only_unwinding_after_limit(
                                children@,
                                depth + 1,
                                0,
                                win,
                                rec.header_offset + rec.header_length,
                                spec_value_end(rec),
                            );
                            assert(spec_only_unwinding_after_limit(seq![
                                spec_closing_grow(rec.kind, depth),
                            ]));
                            lemma_after_limit_concat(
                                child,
                                seq![spec_closing_grow(rec.kind, depth)],
                            );
                            lemma_has_limit_split(child, seq![spec_closing_grow(rec.kind, depth)]);
                            lemma_after_limit_concat(head, cpart);
                            lemma_has_limit_split(head, cpart);
                            if spec_has_limit_row(child) {
                                lemma_high_start_levels(
                                    items.drop_first(),
                                    depth,
                                    0,
                                    win,
                                    spec_value_end(rec),
                                );
                                assert(spec_all_rows(rest, |g: GRow| spec_tail_row(g)));
                            }
                            lemma_after_limit_concat(head + cpart, rest);
                            lemma_has_limit_split(head + cpart, rest);
                        } else {
                            assert(head + cpart =~= head);
                            lemma_after_limit_concat(head + cpart, rest);
                            lemma_has_limit_split(head + cpart, rest);
                        }
                    }
                }
            },
        }
    }
}


// ---------------------------------------------------------------------------
// The skip notice reports exactly what was suppressed
// ---------------------------------------------------------------------------

/// The total byte length of the first `upto` items of a level (structural
/// events have none).
pub open spec fn spec_suppressed_sum(items: Seq<Item>, upto: int) -> int
    decreases items,
{
    if upto <= 0 || items.len() == 0 {
        0
    } else {
        (match items[0] {
            Item::Event(_) => 0int,
            Item::Value(rec, _) => {
                let start = spec_value_start(rec);
                let end = spec_value_end(rec);
                if end >= start {
                    end - start
                } else {
                    0
                }
            },
        }) + spec_suppressed_sum(items.drop_first(), upto - 1)
    }
}

/// The first `upto` items of the level are values wholly before the skip
/// point.
pub open spec fn spec_suppressed_prefix(items: Seq<Item>, upto: int, win: InspectionWindow) -> bool {
    forall|j: int|
        0 <= j < upto ==> (#[trigger] items[j]) is Value && spec_value_end(items[j]->Value_0)
            <= win.bytes_to_skip
}

/// When a level starts with `m` values suppressed by the skip window and its
/// next value is rendered, the level's first row is the skip notice, and the
/// number it reports is exactly the skipped bytes carried in plus the sum of
/// the suppressed values' lengths.
pub proof fn lemma_skip_notice_reports_sum(
    items: Seq<Item>,
    depth: nat,
    skipped: nat,
    win: InspectionWindow,
    m: int,
)
    requires
        0 <= m < items.len(),
        spec_suppressed_prefix(items, m, win),
        items[m] is Value,
        spec_value_end(items[m]->Value_0) > win.bytes_to_skip,
        (if spec_value_start(items[m]->Value_0) >= win.bytes_to_skip {
            spec_value_start(items[m]->Value_0) - win.bytes_to_skip
        } else {
            0
        }) < win.limit_bytes,
        skipped + spec_suppressed_sum(items, m) > 0,
    ensures
        spec_level(items, depth, skipped, win).len() > 0,
        spec_level(items, depth, skipped, win)[0] == spec_skip_grow(
            depth,
            (skipped + spec_suppressed_sum(items, m)) as nat,
        ),
    decreases m,
{
    if m == 0 {
        assert(spec_suppressed_sum(items, 0) == 0);
        let rec = items[0]->Value_0;
        let spart: Seq<GRow> = seq![spec_skip_grow(depth, skipped)];
        assert(spec_level(items, depth, skipped, win)[0] == spec_skip_grow(depth, skipped));
    } else {
        assert(items[0] is Value && spec_value_end(items[0]->Value_0) <= win.bytes_to_skip);
        let rec = items[0]->Value_0;
        let start = spec_value_start(rec);
        let end = spec_value_end(rec);
        let amount: nat = if end >= start {
            (end - start) as nat
        } else {
            0
        };
        assert forall|j: int| 0 <= j < m - 1 implies (#[trigger] items.drop_first()[j]) is Value
            && spec_value_end(items.drop_first()[j]->Value_0) <= win.bytes_to_skip by {
            assert(items.drop_first()[j] == items[j + 1]);
        }
        assert(items.drop_first()[m - 1] == items[m]);
        lemma_skip_notice_reports_sum(
            items.drop_first(),
            depth,
            (skipped + amount) as nat,
            win,
            m - 1,
        );
        assert(spec_level(items, depth, skipped, win) == spec_level(
            items.drop_first(),
            depth,
            (skipped + amount) as nat,
            win,
        ));
        assert(skipped + spec_suppressed_sum(items, m) == (skipped + amount)
            + spec_suppressed_sum(items.drop_first(), m - 1));
    }
}

} // verus!
