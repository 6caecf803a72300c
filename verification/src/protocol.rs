//! The wire format between the panel's receiver board and the show.
//!
//! Lines of ASCII, one frame per line:
//!
//! ```text
//! P 0000000a 4213 12
//! │ │        │    └── milliseconds since the receiver last heard the panel
//! │ │        └─────── transmitter sequence, for spotting lost radio packets
//! │ └──────────────── button bitmask in hex, bit 0 is button 0
//! └────────────────── frame kind
//! ```
//!
//! Anything starting with `#` is a comment and carries nothing. The mask is
//! absolute state, not edges: a dropped frame is corrected by the next one.

use vstd::prelude::*;
use vstd::string::{StrSliceExecFns, StringExecFns};

use crate::text::{
    chars_of, digit_value, digits_value, is_white_space, parse_unsigned, parse_unsigned_range,
    token_ranges, tokens, tokens_from, word_end, ws_end,
};

verus! {

/// One decoded line from the receiver.
#[derive(Debug, Clone, Copy, PartialEq, Eq, Structural)]
pub struct Frame {
    /// Bit `n` set means button `n` is currently held.
    pub buttons: u32,
    /// Wrapping counter from the transmitter's radio packets. Forward jumps
    /// reveal packet loss; a repeat means no new packet arrived.
    pub seq: u16,
    /// How long ago the receiver last heard from the panel, in milliseconds.
    pub panel_age_ms: u32,
}

/// Why a line could not be decoded.
#[derive(Debug, Clone, PartialEq, Eq)]
pub enum ParseError {
    /// The leading token was not a frame kind this version knows.
    UnknownKind(String),
    /// A `P` frame did not carry mask, sequence and age.
    WrongFieldCount(usize),
    /// One of the three numbers did not parse.
    BadField(&'static str),
}

/// What a line comes to, in the terms a contract can compare.
pub enum LineOutcome {
    /// A comment or a blank line.
    Nothing,
    /// A frame.
    Decoded(Frame),
    /// The kind token was not `P`.
    UnknownKind(Seq<char>),
    /// The number of fields after `P`.
    WrongFieldCount(int),
    /// The name of the field that did not parse.
    BadField(Seq<char>),
}

/// The outcome a parse result stands for.
pub open spec fn outcome_of(r: Result<Option<Frame>, ParseError>) -> LineOutcome {
    match r {
        Ok(None) => LineOutcome::Nothing,
        Ok(Some(frame)) => LineOutcome::Decoded(frame),
        Err(ParseError::UnknownKind(kind)) => LineOutcome::UnknownKind(kind@),
        Err(ParseError::WrongFieldCount(n)) => LineOutcome::WrongFieldCount(n as int),
        Err(ParseError::BadField(name)) => LineOutcome::BadField(name@),
    }
}

/// What one line of the wire format decodes to.
///
/// Blank lines and lines whose first token starts with `#` carry nothing.
/// Otherwise the first token must be `P`, followed by exactly three tokens:
/// the button mask in hex, then the sequence and the panel age in decimal,
/// each within its type's range. The first of those that fails names the
/// error.
pub open spec fn line_outcome(line: Seq<char>) -> LineOutcome {
    let t = tokens(line);
    if t.len() == 0 || t[0][0] == '#' {
        LineOutcome::Nothing
    } else if t[0] != seq!['P'] {
        LineOutcome::UnknownKind(t[0])
    } else if t.len() != 4 {
        LineOutcome::WrongFieldCount(t.len() - 1)
    } else if parse_unsigned(t[1], 16, u32::MAX as int) is None {
        LineOutcome::BadField("button mask"@)
    } else if parse_unsigned(t[2], 10, u16::MAX as int) is None {
        LineOutcome::BadField("sequence"@)
    } else if parse_unsigned(t[3], 10, u32::MAX as int) is None {
        LineOutcome::BadField("panel age"@)
    } else {
        LineOutcome::Decoded(
            Frame {
                buttons: parse_unsigned(t[1], 16, u32::MAX as int)->0 as u32,
                seq: parse_unsigned(t[2], 10, u16::MAX as int)->0 as u16,
                panel_age_ms: parse_unsigned(t[3], 10, u32::MAX as int)->0 as u32,
            },
        )
    }
}

/// Decode one line.
///
/// `Ok(None)` is a line that is valid but carries nothing — a comment, or
/// blank.
pub fn parse_line(line: &str) -> (r: Result<Option<Frame>, ParseError>)
    ensures
        outcome_of(r) == line_outcome(line@),
{
    let v = chars_of(line);
    let ranges = token_ranges(&v);
    let ghost t = tokens(line@);
    if ranges.len() == 0 {
        return Ok(None);
    }
    let (a0, b0) = ranges[0];
    assert(t[0] == v@.subrange(a0 as int, b0 as int));
    if v[a0] == '#' {
        return Ok(None);
    }
    if !(b0 == a0 + 1 && v[a0] == 'P') {
        proof {
            if t[0] == seq!['P'] {
                assert(t[0].len() == 1 && t[0][0] == 'P');
            }
        }
        let kind = line.substring_char(a0, b0).to_owned();
        return Err(ParseError::UnknownKind(kind));
    }
    assert(t[0] =~= seq!['P']);
    if ranges.len() != 4 {
        return Err(ParseError::WrongFieldCount(ranges.len() - 1));
    }
    let (a1, b1) = ranges[1];
    let (a2, b2) = ranges[2];
    let (a3, b3) = ranges[3];
    assert(t[1] == v@.subrange(a1 as int, b1 as int));
    assert(t[2] == v@.subrange(a2 as int, b2 as int));
    assert(t[3] == v@.subrange(a3 as int, b3 as int));
    let buttons = match parse_unsigned_range(&v, a1, b1, 16, u32::MAX) {
        Some(n) => n,
        None => return Err(ParseError::BadField("button mask")),
    };
    let seq = match parse_unsigned_range(&v, a2, b2, 10, 0xFFFF) {
        Some(n) => n as u16,
        None => return Err(ParseError::BadField("sequence")),
    };
    let panel_age_ms = match parse_unsigned_range(&v, a3, b3, 10, u32::MAX) {
        Some(n) => n,
        None => return Err(ParseError::BadField("panel age")),
    };
    Ok(Some(Frame { buttons, seq, panel_age_ms }))
}

} // verus!

verus! {

/// The digit character for `d` in `0..16`, lower case as `printf("%x")`
/// writes it.
pub open spec fn digit_char(d: int) -> char {
    if d < 10 {
        (48 + d) as char
    } else {
        (87 + d) as char
    }
}

/// `16^w`.
pub open spec fn pow16(w: nat) -> nat
    decreases w,
{
    if w == 0 {
        1
    } else {
        16 * pow16((w - 1) as nat)
    }
}

/// `x` in `w` hex digits with leading zeros, as `printf("%0wx")` writes it.
pub open spec fn hex_fixed(x: nat, w: nat) -> Seq<char>
    decreases w,
{
    if w == 0 {
        seq![]
    } else {
        hex_fixed(x / 16, (w - 1) as nat).push(digit_char((x % 16) as int))
    }
}

/// `x` in decimal without leading zeros, as `printf("%u")` writes it.
pub open spec fn decimal(x: nat) -> Seq<char>
    decreases x,
{
    if x < 10 {
        seq![digit_char(x as int)]
    } else {
        decimal(x / 10).push(digit_char((x % 10) as int))
    }
}

/// The line the receiver firmware prints for a frame:
/// `printf("P %08lx %u %lu\n", buttons, seq, age)`.
pub open spec fn firmware_line(f: Frame) -> Seq<char> {
    seq!['P', ' '] + hex_fixed(f.buttons as nat, 8) + seq![' '] + decimal(f.seq as nat) + seq![
        ' ',
    ] + decimal(f.panel_age_ms as nat) + seq!['\n']
}

/// A run of characters that is one token: digits, never whitespace, never a
/// leading `+`.
pub open spec fn plain_digits(t: Seq<char>, radix: int) -> bool {
    &&& t.len() > 0
    &&& forall|k: int| 0 <= k < t.len() ==> digit_value(#[trigger] t[k], radix) is Some
}

proof fn lemma_digit_char(d: int, radix: int)
    requires
        0 <= d < radix <= 16,
    ensures
        digit_value(digit_char(d), radix) == Some(d),
        !is_white_space(digit_char(d)),
        digit_char(d) != '+',
{
}

proof fn lemma_hex_fixed(x: nat, w: nat)
    requires
        x < pow16(w),
    ensures
        hex_fixed(x, w).len() == w,
        digits_value(hex_fixed(x, w), 16) == Some(x as int),
        forall|k: int|
            0 <= k < w ==> digit_value(#[trigger] hex_fixed(x, w)[k], 16) is Some,
    decreases w,
{
    if w > 0 {
        let q = x / 16;
        let r = x % 16;
        assert(x == q * 16 + r && r < 16) by (nonlinear_arith)
            requires q == x / 16, r == x % 16;
        assert(q < pow16((w - 1) as nat)) by (nonlinear_arith)
            requires x == q * 16 + r, x < 16 * pow16((w - 1) as nat), r >= 0;
        lemma_hex_fixed(q, (w - 1) as nat);
        lemma_digit_char(r as int, 16);
        let t = hex_fixed(x, w);
        assert(t.drop_last() =~= hex_fixed(q, (w - 1) as nat));
    }
}

proof fn lemma_decimal(x: nat)
    ensures
        decimal(x).len() > 0,
        digits_value(decimal(x), 10) == Some(x as int),
        forall|k: int|
            0 <= k < decimal(x).len() ==> digit_value(#[trigger] decimal(x)[k], 10) is Some,
    decreases x,
{
    if x < 10 {
        lemma_digit_char(x as int, 10);
        assert(decimal(x).drop_last() =~= Seq::<char>::empty());
        assert(digits_value(Seq::<char>::empty(), 10) == Some(0int));
        assert(decimal(x).last() == digit_char(x as int));
    } else {
        let q = x / 10;
        let r = x % 10;
        assert(x == q * 10 + r && r < 10) by (nonlinear_arith)
            requires q == x / 10, r == x % 10;
        lemma_decimal(q);
        lemma_digit_char(r as int, 10);
        assert(decimal(x).drop_last() =~= decimal(q));
        assert(decimal(x).last() == digit_char(r as int));
    }
}

proof fn lemma_parse_plain(t: Seq<char>, radix: int, v: int, max: int)
    requires
        2 <= radix <= 16,
        plain_digits(t, radix),
        digits_value(t, radix) == Some(v),
        v <= max,
    ensures
        parse_unsigned(t, radix, max) == Some(v),
{
    assert(digit_value(t[0], radix) is Some);
    assert(t[0] != '+');
}

proof fn lemma_word_end_run(s: Seq<char>, i: int, n: int)
    requires
        0 <= i,
        0 <= n,
        i + n <= s.len(),
        forall|k: int| i <= k < i + n ==> !is_white_space(#[trigger] s[k]),
        i + n == s.len() || is_white_space(s[i + n]),
    ensures
        word_end(s, i) == i + n,
    decreases n,
{
    if n > 0 {
        lemma_word_end_run(s, i + 1, n - 1);
    }
}

/// Tokens from `i`, when one whitespace character at `i` is followed by the
/// token `w` and then whitespace.
proof fn lemma_token_after_space(s: Seq<char>, i: int, w: Seq<char>)
    requires
        0 <= i,
        i + 1 + w.len() < s.len(),
        is_white_space(s[i]),
        w.len() > 0,
        s.subrange(i + 1, i + 1 + w.len()) == w,
        forall|k: int| 0 <= k < w.len() ==> !is_white_space(#[trigger] w[k]),
        is_white_space(s[i + 1 + w.len()]),
    ensures
        tokens_from(s, i) == seq![w] + tokens_from(s, i + 1 + w.len()),
{
    assert(s[i + 1] == w[0]);
    assert(ws_end(s, i + 1) == i + 1);
    assert(ws_end(s, i) == i + 1);
    assert forall|k: int| i + 1 <= k < i + 1 + w.len() implies !is_white_space(#[trigger] s[k]) by {
        assert(s[k] == w[k - (i + 1)]);
    }
    lemma_word_end_run(s, i + 1, w.len() as int);
}

/// The firmware's output decodes to the frame it was printed from, for every
/// frame: whatever the mask, including the top bit, whatever the sequence,
/// and whatever the age.
pub proof fn lemma_firmware_line_decodes(f: Frame)
    ensures
        line_outcome(firmware_line(f)) == LineOutcome::Decoded(f),
{
    let hb = hex_fixed(f.buttons as nat, 8);
    let ds = decimal(f.seq as nat);
    let da = decimal(f.panel_age_ms as nat);
    assert(pow16(8) == 0x1_0000_0000) by {
        reveal_with_fuel(pow16, 9);
    }
    lemma_hex_fixed(f.buttons as nat, 8);
    lemma_decimal(f.seq as nat);
    lemma_decimal(f.panel_age_ms as nat);
    let s = firmware_line(f);
    let p = seq!['P'];
    let a = 1int;
    let b: int = 2 + hb.len() as int;
    let c: int = b + 1 + ds.len();
    let e: int = c + 1 + da.len();
    assert(s.len() == e + 1);
    assert(s[0] == 'P');
    assert(s[1] == ' ');
    assert(s[b] == ' ');
    assert(s[c] == ' ');
    assert(s[e] == '\n');
    assert(s.subrange(2, b) =~= hb);
    assert(s.subrange(b + 1, c) =~= ds);
    assert(s.subrange(c + 1, e) =~= da);
    assert(s.subrange(0, 1) =~= p);
    assert forall|k: int| 0 <= k < hb.len() implies !is_white_space(#[trigger] hb[k]) by {
        assert(digit_value(hb[k], 16) is Some);
    }
    assert forall|k: int| 0 <= k < ds.len() implies !is_white_space(#[trigger] ds[k]) by {
        assert(digit_value(ds[k], 10) is Some);
    }
    assert forall|k: int| 0 <= k < da.len() implies !is_white_space(#[trigger] da[k]) by {
        assert(digit_value(da[k], 10) is Some);
    }
    // The kind token.
    assert(ws_end(s, 0) == 0);
    lemma_word_end_run(s, 0, 1);
    assert(tokens_from(s, 0) == seq![p] + tokens_from(s, 1));
    lemma_token_after_space(s, 1, hb);
    lemma_token_after_space(s, b, ds);
    lemma_token_after_space(s, c, da);
    // Only the line ending is left.
    assert(ws_end(s, e + 1) == e + 1);
    assert(ws_end(s, e) == e + 1);
    assert(tokens_from(s, e) =~= Seq::<Seq<char>>::empty());
    let t = tokens(s);
    assert(t =~= seq![p, hb, ds, da]);
    lemma_parse_plain(hb, 16, f.buttons as int, u32::MAX as int);
    lemma_parse_plain(ds, 10, f.seq as int, u16::MAX as int);
    lemma_parse_plain(da, 10, f.panel_age_ms as int, u32::MAX as int);
}

} // verus!

verus! {

/// The one-character string for digit `d`.
fn digit_str(d: usize) -> (r: &'static str)
    requires
        d < 10,
    ensures
        r@ == seq![digit_char(d as int)],
{
    proof {
        reveal_strlit("0");
        reveal_strlit("1");
        reveal_strlit("2");
        reveal_strlit("3");
        reveal_strlit("4");
        reveal_strlit("5");
        reveal_strlit("6");
        reveal_strlit("7");
        reveal_strlit("8");
        reveal_strlit("9");
    }
    let r = match d {
        0 => "0",
        1 => "1",
        2 => "2",
        3 => "3",
        4 => "4",
        5 => "5",
        6 => "6",
        7 => "7",
        8 => "8",
        _ => "9",
    };
    assert(r@ =~= seq![digit_char(d as int)]);
    r
}

/// Append `n` in decimal to `out`.
fn push_decimal(out: &mut String, n: usize)
    ensures
        final(out)@ == old(out)@ + decimal(n as nat),
    decreases n,
{
    if n < 10 {
        out.append(digit_str(n));
    } else {
        push_decimal(out, n / 10);
        out.append(digit_str(n % 10));
        assert(decimal(n as nat) == decimal((n / 10) as nat).push(digit_char((n % 10) as int)));
        assert(old(out)@ + decimal(n as nat) =~= old(out)@ + decimal((n / 10) as nat) + seq![
            digit_char((n % 10) as int),
        ]);
    }
}

impl ParseError {
    /// What went wrong, for the log.
    pub fn message(&self) -> (r: String)
        ensures
            r@ == match self {
                ParseError::UnknownKind(kind) => "unknown frame kind `"@ + kind@ + "`"@,
                ParseError::WrongFieldCount(n) => "expected 3 fields after `P`, got "@ + decimal(
                    *n as nat,
                ),
                ParseError::BadField(name) => "could not parse the "@ + name@ + " field"@,
            },
    {
        let mut out = String::new();
        match self {
            ParseError::UnknownKind(kind) => {
                out.append("unknown frame kind `");
                out.append(kind.as_str());
                out.append("`");
            },
            ParseError::WrongFieldCount(n) => {
                out.append("expected 3 fields after `P`, got ");
                push_decimal(&mut out, *n);
            },
            ParseError::BadField(name) => {
                out.append("could not parse the ");
                out.append(name);
                out.append(" field");
            },
        }
        out
    }
}

} // verus!
