use vstd::prelude::*;
use crate::model::{Row, spec_opt_int};
use crate::style::{spec_styled, spec_heading_prefix};
use crate::textutil::{spec_decimal, spec_repeat, format_usize, repeat_str};
use crate::style::heading;

verus! {

// ---------------------------------------------------------------------------
// Fixed column geometry
// ---------------------------------------------------------------------------

/// The string that separates the table's columns.
pub open spec fn spec_column_delimiter() -> Seq<char> {
    " | "@
}

/// `n` spaces.
pub open spec fn spec_spaces(n: nat) -> Seq<char> {
    spec_repeat(" "@, n)
}

/// `s` padded on the left with spaces up to width `w`; `s` unchanged when it
/// is already at least that wide.
pub open spec fn spec_pad_left(s: Seq<char>, w: nat) -> Seq<char> {
    if s.len() >= w {
        s
    } else {
        spec_spaces((w - s.len()) as nat) + s
    }
}

/// `s` centered in width `w` (extra space goes to the right); `s` unchanged
/// when it is already at least that wide.
pub open spec fn spec_center(s: Seq<char>, w: nat) -> Seq<char> {
    if s.len() >= w {
        s
    } else {
        spec_spaces(((w - s.len()) as nat) / 2) + s + spec_spaces(
            ((w - s.len()) as nat - ((w - s.len()) as nat) / 2) as nat,
        )
    }
}

/// The nine-character offset or length column: the number right-aligned, or
/// all spaces when absent.
pub open spec fn spec_column9(v: Option<int>) -> Seq<char> {
    match v {
        Some(n) => spec_pad_left(spec_decimal(n as nat), 9),
        None => spec_spaces(9),
    }
}

// ---------------------------------------------------------------------------
// One row's lines
// ---------------------------------------------------------------------------

/// The first row's hex field: the hex text padded to the 24-character column,
/// or its first 24 characters when it is longer.
pub open spec fn spec_hex_first(hex: Seq<char>) -> Seq<char> {
    if hex.len() < 24 {
        hex + spec_spaces((24 - hex.len()) as nat)
    } else {
        hex.subrange(0, 24)
    }
}

/// The hex text left over for continuation lines.
pub open spec fn spec_hex_overflow(hex: Seq<char>) -> Seq<char> {
    if hex.len() <= 24 {
        Seq::empty()
    } else {
        hex.skip(24)
    }
}

/// Continuation lines for hex text that did not fit the first line: blank
/// offset and length columns, then the next 24 characters' worth of hex.
pub open spec fn spec_continuation_lines(rest: Seq<char>) -> Seq<char>
    decreases rest.len(),
{
    if rest.len() == 0 {
        Seq::empty()
    } else {
        let c = if rest.len() < 24 {
            rest.len()
        } else {
            24
        };
        spec_spaces(9) + spec_column_delimiter() + spec_spaces(9) + spec_column_delimiter()
            + rest.take(c as int) + spec_spaces((24 - c) as nat) + spec_column_delimiter() + "\n"@
            + spec_continuation_lines(rest.skip(c as int))
    }
}

/// Everything `emit_row` writes for one logical row: the first line with all
/// four columns, then continuation lines while hex text remains.
pub open spec fn spec_row_lines(
    offset: Option<int>,
    length: Option<int>,
    indentation: Seq<char>,
    hex: Seq<char>,
    text: Seq<char>,
) -> Seq<char> {
    spec_column9(offset) + spec_column_delimiter() + spec_column9(length)
        + spec_column_delimiter() + spec_hex_first(hex) + spec_column_delimiter() + " "@
        + indentation + text + "\n"@ + spec_continuation_lines(spec_hex_overflow(hex))
}

/// The lines of one stored row; its text column is the plain text followed by
/// the (possibly styled) comment.
pub open spec fn spec_row_lines_of(r: Row) -> Seq<char> {
    spec_row_lines(
        spec_opt_int(r.offset),
        spec_opt_int(r.length),
        r.indentation@,
        r.hex@,
        r.text@ + r.comment@,
    )
}

/// The lines of a whole row vector, in order.
pub open spec fn spec_rows_lines(rows: Seq<Row>) -> Seq<char>
    decreases rows.len(),
{
    if rows.len() == 0 {
        Seq::empty()
    } else {
        spec_rows_lines(rows.drop_last()) + spec_row_lines_of(rows.last())
    }
}

// ---------------------------------------------------------------------------
// Executable writers
// ---------------------------------------------------------------------------

/// `n` spaces.
pub fn spaces(n: usize) -> (s: String)
    ensures
        s@ == spec_spaces(n as nat),
{
    repeat_str(" ", n)
}

fn column9(v: Option<usize>) -> (s: String)
    ensures
        s@ == spec_column9(spec_opt_int(v)),
{
    match v {
        Some(n) => {
            let digits = format_usize(n);
            let width = digits.as_str().unicode_len();
            if width >= 9 {
                digits
            } else {
                let mut s = spaces(9 - width);
                s.append(digits.as_str());
                s
            }
        },
        None => spaces(9),
    }
}

/// Renders one logical row of the table into text: fixed-width offset,
/// length, hex and text columns, the hex column wrapping to continuation
/// lines when its content exceeds one line's capacity.
#[verifier::rlimit(80)]
pub fn output(
    offset: Option<usize>,
    length: Option<usize>,
    indentation: &str,
    hex_column: &str,
    text_column: &str,
) -> (out: String)
    ensures
        out@ == spec_row_lines(
            spec_opt_int(offset),
            spec_opt_int(length),
            indentation@,
            hex_column@,
            text_column@,
        ),
{
    let mut out = column9(offset);
    out.append(" | ");
    let len_col = column9(length);
    out.append(len_col.as_str());
    out.append(" | ");

    let hex_len = hex_column.unicode_len();
    if hex_len < 24 {
        out.append(hex_column);
        let pad = spaces(24 - hex_len);
        out.append(pad.as_str());
    } else {
        out.append(hex_column.substring_char(0, 24));
    }
    out.append(" | ");
    out.append(" ");
    out.append(indentation);
    out.append(text_column);
    out.append("\n");

    proof {
        assert(out@ =~= spec_column9(spec_opt_int(offset)) + spec_column_delimiter()
            + spec_column9(spec_opt_int(length)) + spec_column_delimiter() + spec_hex_first(
            hex_column@,
        ) + spec_column_delimiter() + " "@ + indentation@ + text_column@ + "\n"@);
    }

    // Write as many continuation lines as the hex text still needs.
    let mut pos: usize = if hex_len < 24 {
        hex_len
    } else {
        24
    };
    proof {
        assert(hex_column@.skip(pos as int) =~= spec_hex_overflow(hex_column@));
    }
    let ghost first_part = out@;
    let ghost mut done: Seq<char> = Seq::empty();
    while pos < hex_len
        invariant
            pos <= hex_len,
            hex_len == hex_column@.len(),
            out@ == first_part + done,
            done + spec_continuation_lines(hex_column@.skip(pos as int))
                == spec_continuation_lines(spec_hex_overflow(hex_column@)),
        decreases hex_len - pos,
    {
        let chunk = if hex_len - pos < 24 {
            hex_len - pos
        } else {
            24
        };
        let ghost before = out@;
        let pad9 = spaces(9);
        out.append(pad9.as_str());
        out.append(" | ");
        out.append(pad9.as_str());
        out.append(" | ");
        out.append(hex_column.substring_char(pos, pos + chunk));
        let pad = spaces(24 - chunk);
        out.append(pad.as_str());
        out.append(" | ");
        out.append("\n");
        proof {
            let rest = hex_column@.skip(pos as int);
            let line = spec_spaces(9) + spec_column_delimiter() + spec_spaces(9)
                + spec_column_delimiter() + rest.take(chunk as int) + spec_spaces(
                (24 - chunk) as nat,
            ) + spec_column_delimiter() + "\n"@;
            assert(rest.take(chunk as int) =~= hex_column@.subrange(
                pos as int,
                pos + chunk as int,
            ));
            assert(rest.skip(chunk as int) =~= hex_column@.skip(pos + chunk as int));
            assert(out@ =~= before + line);
            assert(spec_continuation_lines(rest) == line + spec_continuation_lines(
                rest.skip(chunk as int),
            ));
            done = done + line;
            assert(out@ =~= first_part + done);
            assert(done + spec_continuation_lines(hex_column@.skip(pos + chunk as int))
                =~= spec_continuation_lines(spec_hex_overflow(hex_column@)));
        }
        pos = pos + chunk;
    }
    proof {
        assert(hex_column@.skip(hex_len as int) =~= Seq::<char>::empty());
        assert(done =~= spec_continuation_lines(spec_hex_overflow(hex_column@)));
        assert(out@ =~= first_part + spec_continuation_lines(spec_hex_overflow(hex_column@)));
    }
    out
}

/// The lines `output` produces for one stored row.
pub fn output_row(r: &Row) -> (out: String)
    ensures
        out@ == spec_row_lines_of(*r),
{
    let mut text = r.text.clone();
    text.append(r.comment.as_str());
    output(r.offset, r.length, r.indentation.as_str(), r.hex.as_str(), text.as_str())
}

/// The whole table body: every row's lines, in order.
pub fn render_rows(rows: &Vec<Row>) -> (out: String)
    ensures
        out@ == spec_rows_lines(rows@),
{
    let mut out = String::new();
    let mut i: usize = 0;
    while i < rows.len()
        invariant
            i <= rows@.len(),
            out@ == spec_rows_lines(rows@.take(i as int)),
        decreases rows@.len() - i,
    {
        let line = output_row(&rows[i]);
        out.append(line.as_str());
        proof {
            assert(rows@.take(i + 1int).drop_last() =~= rows@.take(i as int));
            assert(rows@.take(i + 1int).last() == rows@[i as int]);
        }
        i = i + 1;
    }
    proof {
        assert(rows@.take(rows@.len() as int) =~= rows@);
    }
    out
}

// ---------------------------------------------------------------------------
// The header
// ---------------------------------------------------------------------------

/// The decorative rule above and below the column titles.
pub open spec fn spec_header_rule() -> Seq<char> {
    spec_repeat("-"@, 75)
}

/// The title line, given the four (possibly styled) column titles.
pub open spec fn spec_header_title_line(
    od: Seq<char>,
    ld: Seq<char>,
    bd: Seq<char>,
    td: Seq<char>,
) -> Seq<char> {
    spec_center(od, 9) + spec_column_delimiter() + spec_center(ld, 9) + spec_column_delimiter()
        + spec_center(bd, 24) + spec_column_delimiter() + spec_center(td, 24) + "\n"@
}

/// What the header looks like: a rule line, the four column titles (each
/// possibly wrapped in the heading style), and a second rule line.
pub open spec fn spec_is_header(out: Seq<char>) -> bool {
    exists|od: Seq<char>, ld: Seq<char>, bd: Seq<char>, td: Seq<char>|
        {
            &&& spec_styled(spec_heading_prefix(), "Offset"@, od)
            &&& spec_styled(spec_heading_prefix(), "Length"@, ld)
            &&& spec_styled(spec_heading_prefix(), "Binary Ion"@, bd)
            &&& spec_styled(spec_heading_prefix(), "Text Ion"@, td)
            &&& out == spec_header_rule() + "\n"@ + #[trigger] spec_header_title_line(
                od,
                ld,
                bd,
                td,
            ) + spec_header_rule() + "\n"@
        }
}

fn center(s: &str, width: usize) -> (out: String)
    ensures
        out@ == spec_center(s@, width as nat),
{
    let len = s.unicode_len();
    if len >= width {
        s.to_owned()
    } else {
        let left = (width - len) / 2;
        let mut out = spaces(left);
        out.append(s);
        let pad = spaces(width - len - left);
        out.append(pad.as_str());
        out
    }
}

/// Writes the table's header: a rule line, the styled column titles centered
/// over their columns, and a second rule line.
#[verifier::rlimit(80)]
pub fn write_header() -> (out: String)
    ensures
        spec_is_header(out@),
{
    let rule = repeat_str("-", 75);
    let offset_title = heading("Offset");
    let length_title = heading("Length");
    let binary_title = heading("Binary Ion");
    let text_title = heading("Text Ion");

    let mut out = rule.clone();
    out.append("\n");
    let piece = center(offset_title.as_str(), 9);
    out.append(piece.as_str());
    out.append(" | ");
    let piece = center(length_title.as_str(), 9);
    out.append(piece.as_str());
    out.append(" | ");
    let piece = center(binary_title.as_str(), 24);
    out.append(piece.as_str());
    out.append(" | ");
    let piece = center(text_title.as_str(), 24);
    out.append(piece.as_str());
    out.append("\n");
    out.append(rule.as_str());
    out.append("\n");

    proof {
        let od = offset_title@;
        let ld = length_title@;
        let bd = binary_title@;
        let td = text_title@;
        assert(out@ =~= spec_header_rule() + "\n"@ + spec_header_title_line(od, ld, bd, td)
            + spec_header_rule() + "\n"@);
    }
    out
}

} // verus!
