use vstd::prelude::*;

verus! {

// ---------------------------------------------------------------------------
// Decimal text
// ---------------------------------------------------------------------------

/// The decimal digit `d` as a character; meaningful for `d < 10`.
pub open spec fn spec_digit(d: nat) -> char {
    if d == 0 {
        '0'
    } else if d == 1 {
        '1'
    } else if d == 2 {
        '2'
    } else if d == 3 {
        '3'
    } else if d == 4 {
        '4'
    } else if d == 5 {
        '5'
    } else if d == 6 {
        '6'
    } else if d == 7 {
        '7'
    } else if d == 8 {
        '8'
    } else {
        '9'
    }
}

/// The decimal text of `n`, most significant digit first, with no sign and no
/// leading zeros (except for `n == 0`, which is written "0").
pub open spec fn spec_decimal(n: nat) -> Seq<char>
    decreases n,
{
    if n < 10 {
        seq![spec_digit(n)]
    } else {
        spec_decimal(n / 10) + seq![spec_digit(n % 10)]
    }
}

fn digit_str(d: usize) -> (r: &'static str)
    requires
        d < 10,
    ensures
        r@ == seq![spec_digit(d as nat)],
{
    proof {
        reveal_strlit("0");
        reveal_strlit("1");
        reveal_strlit("2");
        reveal_strlit("3");
        reveal_strlit("4");
        reveal_strlit("5");
        reveal_strlit("6");
        reveal_strlit("7");
        reveal_strlit("8");
        reveal_strlit("9");
        assert("0"@ =~= seq!['0']);
        assert("1"@ =~= seq!['1']);
        assert("2"@ =~= seq!['2']);
        assert("3"@ =~= seq!['3']);
        assert("4"@ =~= seq!['4']);
        assert("5"@ =~= seq!['5']);
        assert("6"@ =~= seq!['6']);
        assert("7"@ =~= seq!['7']);
        assert("8"@ =~= seq!['8']);
        assert("9"@ =~= seq!['9']);
    }
    match d {
        0 => "0",
        1 => "1",
        2 => "2",
        3 => "3",
        4 => "4",
        5 => "5",
        6 => "6",
        7 => "7",
        8 => "8",
        _ => "9",
    }
}

/// Writes `n` in decimal.
pub fn format_usize(n: usize) -> (s: String)
    ensures
        s@ == spec_decimal(n as nat),
    decreases n,
{
    if n < 10 {
        String::from_str(digit_str(n))
    } else {
        let mut s = format_usize(n / 10);
        s.append(digit_str(n % 10));
        s
    }
}

// ---------------------------------------------------------------------------
// Repetition
// ---------------------------------------------------------------------------

/// `piece` repeated `n` times.
pub open spec fn spec_repeat(piece: Seq<char>, n: nat) -> Seq<char>
    decreases n,
{
    if n == 0 {
        Seq::empty()
    } else {
        spec_repeat(piece, (n - 1) as nat) + piece
    }
}

/// Builds the string made of `n` copies of `piece`.
pub fn repeat_str(piece: &str, n: usize) -> (s: String)
    ensures
        s@ == spec_repeat(piece@, n as nat),
{
    let mut s = String::new();
    let mut i: usize = 0;
    while i < n
        invariant
            i <= n,
            s@ == spec_repeat(piece@, i as nat),
        decreases n - i,
    {
        s.append(piece);
        i = i + 1;
    }
    s
}

// ---------------------------------------------------------------------------
// Hexadecimal text
// ---------------------------------------------------------------------------

/// The hexadecimal digit `d` as a lower-case character; meaningful for `d < 16`.
pub open spec fn spec_hex_digit(d: nat) -> char {
    if d < 10 {
        spec_digit(d)
    } else if d == 10 {
        'a'
    } else if d == 11 {
        'b'
    } else if d == 12 {
        'c'
    } else if d == 13 {
        'd'
    } else if d == 14 {
        'e'
    } else {
        'f'
    }
}

/// One byte as two lower-case hexadecimal digits.
pub open spec fn spec_hex_pair(b: u8) -> Seq<char> {
    seq![spec_hex_digit(b as nat / 16), spec_hex_digit(b as nat % 16)]
}

/// A byte string as two-digit hexadecimal groups separated by single spaces:
/// the form the hex column of the table uses.
pub open spec fn spec_hex(bytes: Seq<u8>) -> Seq<char>
    decreases bytes.len(),
{
    if bytes.len() == 0 {
        Seq::empty()
    } else if bytes.len() == 1 {
        spec_hex_pair(bytes[0])
    } else {
        spec_hex(bytes.drop_last()) + seq![' '] + spec_hex_pair(bytes.last())
    }
}

fn hex_digit_str(d: u8) -> (r: &'static str)
    requires
        d < 16,
    ensures
        r@ == seq![spec_hex_digit(d as nat)],
{
    if d < 10 {
        digit_str(d as usize)
    } else {
        proof {
            reveal_strlit("a");
            reveal_strlit("b");
            reveal_strlit("c");
            reveal_strlit("d");
            reveal_strlit("e");
            reveal_strlit("f");
            assert("a"@ =~= seq!['a']);
            assert("b"@ =~= seq!['b']);
            assert("c"@ =~= seq!['c']);
            assert("d"@ =~= seq!['d']);
            assert("e"@ =~= seq!['e']);
            assert("f"@ =~= seq!['f']);
        }
        match d {
            10 => "a",
            11 => "b",
            12 => "c",
            13 => "d",
            14 => "e",
            _ => "f",
        }
    }
}

/// Appends the bytes to `buffer` as space-separated two-digit hex groups.
pub fn to_hex(buffer: &mut String, bytes: &[u8])
    ensures
        final(buffer)@ == old(buffer)@ + spec_hex(bytes@),
{
    let n = bytes.len();
    let mut i: usize = 0;
    while i < n
        invariant
            i <= n,
            n == bytes@.len(),
            buffer@ == old(buffer)@ + spec_hex(bytes@.take(i as int)),
        decreases n - i,
    {
        if i > 0 {
            buffer.append(" ");
        }
        buffer.append(hex_digit_str(bytes[i] / 16));
        buffer.append(hex_digit_str(bytes[i] % 16));
        proof {
            reveal_strlit(" ");
            let taken = bytes@.take(i + 1int);
            assert(taken.drop_last() =~= bytes@.take(i as int));
            assert(taken.last() == bytes@[i as int]);
            assert(" "@ =~= seq![' ']);
            assert(spec_hex_pair(bytes@[i as int]) =~= seq![
                spec_hex_digit(bytes@[i as int] as nat / 16),
                spec_hex_digit(bytes@[i as int] as nat % 16),
            ]);
            assert(buffer@ =~= old(buffer)@ + spec_hex(bytes@.take(i + 1int)));
        }
        i = i + 1;
    }
    proof {
        assert(bytes@.take(n as int) =~= bytes@);
    }
}

// ---------------------------------------------------------------------------
// Joining
// ---------------------------------------------------------------------------

/// The pieces joined with `delimiter` between neighbours; empty when there are
/// no pieces.
pub open spec fn spec_joined(delimiter: Seq<char>, pieces: Seq<Seq<char>>) -> Seq<char>
    decreases pieces.len(),
{
    if pieces.len() == 0 {
        Seq::empty()
    } else if pieces.len() == 1 {
        pieces[0]
    } else {
        spec_joined(delimiter, pieces.drop_last()) + delimiter + pieces.last()
    }
}

/// Appends the given strings to `buffer`, joined with `delimiter`.
pub fn join_into(buffer: &mut String, delimiter: &str, values: &Vec<String>)
    ensures
        final(buffer)@ == old(buffer)@ + spec_joined(
            delimiter@,
            values@.map_values(|v: String| v@),
        ),
{
    let ghost pieces = values@.map_values(|v: String| v@);
    let n = values.len();
    let mut i: usize = 0;
    while i < n
        invariant
            i <= n,
            n == values@.len(),
            pieces == values@.map_values(|v: String| v@),
            buffer@ == old(buffer)@ + spec_joined(delimiter@, pieces.take(i as int)),
        decreases n - i,
    {
        if i > 0 {
            buffer.append(delimiter);
        }
        buffer.append(values[i].as_str());
        proof {
            let taken = pieces.take(i + 1int);
            assert(taken.drop_last() =~= pieces.take(i as int));
            assert(taken.last() == pieces[i as int]);
            assert(pieces[i as int] == values@[i as int]@);
            assert(buffer@ =~= old(buffer)@ + spec_joined(delimiter@, taken));
        }
        i = i + 1;
    }
    proof {
        assert(pieces.take(n as int) =~= pieces);
    }
}

/// The decimal texts of the given numbers, in order.
pub fn decimals_of(values: &Vec<usize>) -> (out: Vec<String>)
    ensures
        out@.map_values(|v: String| v@) =~= values@.map_values(|n: usize| spec_decimal(n as nat)),
{
    let mut out: Vec<String> = Vec::new();
    let mut i: usize = 0;
    while i < values.len()
        invariant
            i <= values@.len(),
            out@.len() == i,
            forall|j: int| 0 <= j < i ==> out@[j]@ == spec_decimal(values@[j] as nat),
        decreases values@.len() - i,
    {
        out.push(format_usize(values[i]));
        i = i + 1;
    }
    proof {
        assert(out@.map_values(|v: String| v@) =~= values@.map_values(
            |n: usize| spec_decimal(n as nat),
        ));
    }
    out
}

} // verus!
