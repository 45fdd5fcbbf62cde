//! The on-disk document format, at the mathematical level.
//!
//! A history is persisted as one UTF-8 JSON document: a top-level object
//! whose single `items` member is an array of entry objects in insertion
//! order.  This module defines the format twice over character sequences:
//! [`render_doc`] / [`render_image_doc`] give the canonical document written
//! for a history, and [`parse_doc`] / [`parse_image_doc`] give the meaning
//! of an arbitrary document, tolerating whitespace between tokens.  The
//! writer escapes a quote, a backslash and every control character as a
//! `\u00XX` sequence; the reader also accepts the usual short escapes, and
//! reads a `\u00XX` escape for any code point below 256 — the only ones
//! the writer ever emits.

use vstd::prelude::*;

use crate::entry::{EntryModel, ImageModel};

verus! {

// ---------- characters ----------

/// JSON insignificant whitespace.
pub open spec fn is_ws(c: char) -> bool {
    c == ' ' || c == '\n' || c == '\r' || c == '\t'
}

/// A decimal digit.
pub open spec fn is_digit(c: char) -> bool {
    48 <= c as u32 <= 57
}

/// A lower-case hexadecimal digit.
pub open spec fn is_hex(c: char) -> bool {
    is_digit(c) || (97 <= c as u32 <= 102)
}

/// The value of a decimal digit.
pub open spec fn digit_val(c: char) -> int {
    c as u32 - 48
}

/// The value of a lower-case hexadecimal digit.
pub open spec fn hex_val(c: char) -> int {
    if is_digit(c) {
        c as u32 - 48
    } else {
        c as u32 - 87
    }
}

/// The lower-case digit character for a value below sixteen.
pub open spec fn digit_char(d: int) -> char {
    if d == 0 {
        '0'
    } else if d == 1 {
        '1'
    } else if d == 2 {
        '2'
    } else if d == 3 {
        '3'
    } else if d == 4 {
        '4'
    } else if d == 5 {
        '5'
    } else if d == 6 {
        '6'
    } else if d == 7 {
        '7'
    } else if d == 8 {
        '8'
    } else if d == 9 {
        '9'
    } else if d == 10 {
        'a'
    } else if d == 11 {
        'b'
    } else if d == 12 {
        'c'
    } else if d == 13 {
        'd'
    } else if d == 14 {
        'e'
    } else if d == 15 {
        'f'
    } else {
        '0'
    }
}

/// Digit characters decode to the value they were written for.
pub proof fn lemma_digit_char_val(d: int)
    requires
        0 <= d < 16,
    ensures
        is_hex(digit_char(d)),
        hex_val(digit_char(d)) == d,
        d < 10 ==> is_digit(digit_char(d)) && digit_val(digit_char(d)) == d,
{
}

// ---------- string escaping ----------

/// Whether the writer escapes this character.
pub open spec fn needs_escape(c: char) -> bool {
    c == '"' || c == '\\' || (c as u32) < 32
}

/// How the writer renders one character of a string value.
pub open spec fn esc_char(c: char) -> Seq<char> {
    if needs_escape(c) {
        seq![
            '\\',
            'u',
            '0',
            '0',
            digit_char((c as u32) as int / 16),
            digit_char((c as u32) as int % 16),
        ]
    } else {
        seq![c]
    }
}

/// How the writer renders a whole string value, closing quote excluded.
pub open spec fn esc_str(s: Seq<char>) -> Seq<char>
    decreases s.len(),
{
    if s.len() == 0 {
        Seq::empty()
    } else {
        esc_char(s[0]) + esc_str(s.drop_first())
    }
}

/// The character a short escape sequence stands for.
pub open spec fn short_escape(e: char) -> Option<char> {
    if e == '"' {
        Some('"')
    } else if e == '\\' {
        Some('\\')
    } else if e == '/' {
        Some('/')
    } else if e == 'n' {
        Some('\n')
    } else if e == 'r' {
        Some('\r')
    } else if e == 't' {
        Some('\t')
    } else if e == 'b' {
        Some('\u{8}')
    } else if e == 'f' {
        Some('\u{c}')
    } else {
        None
    }
}

// ---------- decimal numbers ----------

/// Powers of ten.
pub open spec fn pow10(k: int) -> int
    decreases k,
{
    if k <= 0 {
        1
    } else {
        10 * pow10(k - 1)
    }
}

/// The canonical decimal rendering of a non-negative number.
pub open spec fn dec_digits(n: int) -> Seq<char>
    decreases n,
{
    if n < 10 {
        seq![digit_char(n)]
    } else {
        dec_digits(n / 10) + seq![digit_char(n % 10)]
    }
}

/// The value of a sequence of decimal digit characters.
pub open spec fn digits_value(ds: Seq<char>) -> int
    decreases ds.len(),
{
    if ds.len() == 0 {
        0
    } else {
        digits_value(ds.drop_last()) * 10 + digit_val(ds.last())
    }
}

// ---------- the parser ----------

/// The first position at or after `i` that does not hold whitespace.
pub open spec fn skip_ws(s: Seq<char>, i: int) -> int
    decreases s.len() - i,
{
    if 0 <= i < s.len() && is_ws(s[i]) {
        skip_ws(s, i + 1)
    } else {
        i
    }
}

/// Consumes the exact characters of `lit` at position `i`.
pub open spec fn expect_lit(s: Seq<char>, i: int, lit: Seq<char>) -> Option<int> {
    if 0 <= i && i + lit.len() <= s.len() && s.subrange(i, i + lit.len()) == lit {
        Some(i + lit.len())
    } else {
        None
    }
}

/// Skips whitespace, then consumes the exact characters of `lit`.
pub open spec fn expect_tok(s: Seq<char>, i: int, lit: Seq<char>) -> Option<int> {
    expect_lit(s, skip_ws(s, i), lit)
}

/// Consumes the body of a string value up to and over its closing quote,
/// yielding the characters the body stands for.
pub open spec fn parse_string_body(s: Seq<char>, i: int) -> Option<(Seq<char>, int)>
    decreases s.len() - i,
{
    if !(0 <= i < s.len()) {
        None
    } else {
        let c = s[i];
        if c == '"' {
            Some((Seq::empty(), i + 1))
        } else if c == '\\' {
            if i + 1 < s.len() {
                let e = s[i + 1];
                if e == 'u' {
                    if i + 5 < s.len() && s[i + 2] == '0' && s[i + 3] == '0' && is_hex(s[i + 4])
                        && is_hex(s[i + 5]) {
                        let v = hex_val(s[i + 4]) * 16 + hex_val(s[i + 5]);
                        match parse_string_body(s, i + 6) {
                            Some((tail, j)) => Some((seq![((v as u8) as char)] + tail, j)),
                            None => None,
                        }
                    } else {
                        None
                    }
                } else {
                    match short_escape(e) {
                        Some(d) => match parse_string_body(s, i + 2) {
                            Some((tail, j)) => Some((seq![d] + tail, j)),
                            None => None,
                        },
                        None => None,
                    }
                }
            } else {
                None
            }
        } else {
            match parse_string_body(s, i + 1) {
                Some((tail, j)) => Some((seq![c] + tail, j)),
                None => None,
            }
        }
    }
}

/// The first position at or after `i` that does not hold a decimal digit.
pub open spec fn digit_run_end(s: Seq<char>, i: int) -> int
    decreases s.len() - i,
{
    if 0 <= i < s.len() && is_digit(s[i]) {
        digit_run_end(s, i + 1)
    } else {
        i
    }
}

/// Consumes a run of at most ten decimal digits and yields its value.
pub open spec fn parse_number(s: Seq<char>, i: int) -> Option<(int, int)> {
    let e = digit_run_end(s, i);
    if e <= i || e - i > 10 {
        None
    } else {
        Some((digits_value(s.subrange(i, e)), e))
    }
}

// ---------- grammar: text entries ----------

/// The characters of the `items` member name, quotes included.
pub open spec fn key_items() -> Seq<char> {
    seq!['"', 'i', 't', 'e', 'm', 's', '"']
}

/// The characters of the `message` member name, quotes included.
pub open spec fn key_message() -> Seq<char> {
    seq!['"', 'm', 'e', 's', 's', 'a', 'g', 'e', '"']
}

/// The characters of the `description` member name, quotes included.
pub open spec fn key_description() -> Seq<char> {
    seq!['"', 'd', 'e', 's', 'c', 'r', 'i', 'p', 't', 'i', 'o', 'n', '"']
}

/// Consumes one text entry object.
pub open spec fn parse_entry(s: Seq<char>, i: int) -> Option<(EntryModel, int)> {
    match expect_tok(s, i, seq!['{']) {
        None => None,
        Some(i1) => match expect_tok(s, i1, key_message()) {
            None => None,
            Some(i2) => match expect_tok(s, i2, seq![':']) {
                None => None,
                Some(i3) => match expect_tok(s, i3, seq!['"']) {
                    None => None,
                    Some(i4) => match parse_string_body(s, i4) {
                        None => None,
                        Some((msg, i5)) => match expect_tok(s, i5, seq![',']) {
                            None => None,
                            Some(i6) => match expect_tok(s, i6, key_description()) {
                                None => None,
                                Some(i7) => match expect_tok(s, i7, seq![':']) {
                                    None => None,
                                    Some(i8) => match expect_tok(s, i8, seq!['"']) {
                                        None => None,
                                        Some(i9) => match parse_string_body(s, i9) {
                                            None => None,
                                            Some((desc, i10)) => match expect_tok(
                                                s,
                                                i10,
                                                seq!['}'],
                                            ) {
                                                None => None,
                                                Some(i11) => Some(
                                                    (
                                                        EntryModel {
                                                            message: msg,
                                                            description: desc,
                                                        },
                                                        i11,
                                                    ),
                                                ),
                                            },
                                        },
                                    },
                                },
                            },
                        },
                    },
                },
            },
        },
    }
}

/// Consumes `, entry` groups until the closing bracket of the array.
pub open spec fn parse_more_entries(s: Seq<char>, i: int) -> Option<(Seq<EntryModel>, int)>
    decreases s.len() - i,
    via parse_more_entries_dec
{
    match expect_tok(s, i, seq![']']) {
        Some(j) => Some((Seq::empty(), j)),
        None => match expect_tok(s, i, seq![',']) {
            None => None,
            Some(i1) => match parse_entry(s, i1) {
                None => None,
                Some((e, i2)) => match parse_more_entries(s, i2) {
                    None => None,
                    Some((rest, j)) => Some((seq![e] + rest, j)),
                },
            },
        },
    }
}

#[via_fn]
proof fn parse_more_entries_dec(s: Seq<char>, i: int) {
    lemma_expect_tok_bounds(s, i, seq![',']);
    match expect_tok(s, i, seq![',']) {
        Some(i1) => {
            lemma_parse_entry_bounds(s, i1);
        },
        None => {},
    }
}

/// Consumes the contents of the `items` array, opening bracket already
/// consumed, up to and over its closing bracket.
pub open spec fn parse_entries(s: Seq<char>, i: int) -> Option<(Seq<EntryModel>, int)> {
    match expect_tok(s, i, seq![']']) {
        Some(j) => Some((Seq::empty(), j)),
        None => match parse_entry(s, i) {
            None => None,
            Some((e, i1)) => match parse_more_entries(s, i1) {
                None => None,
                Some((rest, j)) => Some((seq![e] + rest, j)),
            },
        },
    }
}

/// The meaning of a whole text history document: the entries it holds, or
/// nothing when the document is malformed.
pub open spec fn parse_doc(s: Seq<char>) -> Option<Seq<EntryModel>> {
    match expect_tok(s, 0, seq!['{']) {
        None => None,
        Some(i1) => match expect_tok(s, i1, key_items()) {
            None => None,
            Some(i2) => match expect_tok(s, i2, seq![':']) {
                None => None,
                Some(i3) => match expect_tok(s, i3, seq!['[']) {
                    None => None,
                    Some(i4) => match parse_entries(s, i4) {
                        None => None,
                        Some((items, i5)) => match expect_tok(s, i5, seq!['}']) {
                            None => None,
                            Some(i6) => if skip_ws(s, i6) == s.len() {
                                Some(items)
                            } else {
                                None
                            },
                        },
                    },
                },
            },
        },
    }
}

// ---------- grammar: image entries ----------

/// The characters of the `width` member name, quotes included.
pub open spec fn key_width() -> Seq<char> {
    seq!['"', 'w', 'i', 'd', 't', 'h', '"']
}

/// The characters of the `height` member name, quotes included.
pub open spec fn key_height() -> Seq<char> {
    seq!['"', 'h', 'e', 'i', 'g', 'h', 't', '"']
}

/// The characters of the `bytes` member name, quotes included.
pub open spec fn key_bytes() -> Seq<char> {
    seq!['"', 'b', 'y', 't', 'e', 's', '"']
}

/// Consumes one number after optional whitespace, within `u32` range.
pub open spec fn parse_u32(s: Seq<char>, i: int) -> Option<(u32, int)> {
    match parse_number(s, skip_ws(s, i)) {
        None => None,
        Some((v, j)) => if v <= 0xffff_ffff {
            Some((v as u32, j))
        } else {
            None
        },
    }
}

/// Consumes one number after optional whitespace, within byte range.
pub open spec fn parse_byte(s: Seq<char>, i: int) -> Option<(u8, int)> {
    match parse_number(s, skip_ws(s, i)) {
        None => None,
        Some((v, j)) => if v <= 255 {
            Some((v as u8, j))
        } else {
            None
        },
    }
}

/// Consumes `, byte` groups until the closing bracket of the array.
pub open spec fn parse_more_bytes(s: Seq<char>, i: int) -> Option<(Seq<u8>, int)>
    decreases s.len() - i,
    via parse_more_bytes_dec
{
    match expect_tok(s, i, seq![']']) {
        Some(j) => Some((Seq::empty(), j)),
        None => match expect_tok(s, i, seq![',']) {
            None => None,
            Some(i1) => match parse_byte(s, i1) {
                None => None,
                Some((b, i2)) => match parse_more_bytes(s, i2) {
                    None => None,
                    Some((rest, j)) => Some((seq![b] + rest, j)),
                },
            },
        },
    }
}

#[via_fn]
proof fn parse_more_bytes_dec(s: Seq<char>, i: int) {
    lemma_expect_tok_bounds(s, i, seq![',']);
    match expect_tok(s, i, seq![',']) {
        Some(i1) => {
            lemma_parse_byte_bounds(s, i1);
        },
        None => {},
    }
}

/// Consumes the contents of a byte array, opening bracket already consumed,
/// up to and over its closing bracket.
pub open spec fn parse_byte_list(s: Seq<char>, i: int) -> Option<(Seq<u8>, int)> {
    match expect_tok(s, i, seq![']']) {
        Some(j) => Some((Seq::empty(), j)),
        None => match parse_byte(s, i) {
            None => None,
            Some((b, i1)) => match parse_more_bytes(s, i1) {
                None => None,
                Some((rest, j)) => Some((seq![b] + rest, j)),
            },
        },
    }
}

/// Consumes the tail of an image entry object, from the comma after the
/// `height` member on: the `bytes` member and the closing brace.
pub open spec fn parse_image_tail(s: Seq<char>, i: int) -> Option<(Seq<u8>, int)> {
    match expect_tok(s, i, seq![',']) {
        None => None,
        Some(i9) => match expect_tok(s, i9, key_bytes()) {
            None => None,
            Some(i10) => match expect_tok(s, i10, seq![':']) {
                None => None,
                Some(i11) => match expect_tok(s, i11, seq!['[']) {
                    None => None,
                    Some(i12) => match parse_byte_list(s, i12) {
                        None => None,
                        Some((bs, i13)) => match expect_tok(s, i13, seq!['}']) {
                            None => None,
                            Some(i14) => Some((bs, i14)),
                        },
                    },
                },
            },
        },
    }
}

/// Consumes one image entry object.
pub open spec fn parse_image_entry(s: Seq<char>, i: int) -> Option<(ImageModel, int)> {
    match expect_tok(s, i, seq!['{']) {
        None => None,
        Some(i1) => match expect_tok(s, i1, key_width()) {
            None => None,
            Some(i2) => match expect_tok(s, i2, seq![':']) {
                None => None,
                Some(i3) => match parse_u32(s, i3) {
                    None => None,
                    Some((w, i4)) => match expect_tok(s, i4, seq![',']) {
                        None => None,
                        Some(i5) => match expect_tok(s, i5, key_height()) {
                            None => None,
                            Some(i6) => match expect_tok(s, i6, seq![':']) {
                                None => None,
                                Some(i7) => match parse_u32(s, i7) {
                                    None => None,
                                    Some((h, i8)) => match parse_image_tail(s, i8) {
                                        None => None,
                                        Some((bs, i14)) => Some(
                                            (ImageModel { width: w, height: h, bytes: bs }, i14),
                                        ),
                                    },
                                },
                            },
                        },
                    },
                },
            },
        },
    }
}

/// Consumes `, image entry` groups until the closing bracket of the array.
pub open spec fn parse_more_image_entries(s: Seq<char>, i: int) -> Option<(Seq<ImageModel>, int)>
    decreases s.len() - i,
    via parse_more_image_entries_dec
{
    match expect_tok(s, i, seq![']']) {
        Some(j) => Some((Seq::empty(), j)),
        None => match expect_tok(s, i, seq![',']) {
            None => None,
            Some(i1) => match parse_image_entry(s, i1) {
                None => None,
                Some((e, i2)) => match parse_more_image_entries(s, i2) {
                    None => None,
                    Some((rest, j)) => Some((seq![e] + rest, j)),
                },
            },
        },
    }
}

#[via_fn]
proof fn parse_more_image_entries_dec(s: Seq<char>, i: int) {
    lemma_expect_tok_bounds(s, i, seq![',']);
    match expect_tok(s, i, seq![',']) {
        Some(i1) => {
            lemma_parse_image_entry_bounds(s, i1);
        },
        None => {},
    }
}

/// Consumes the contents of the image `items` array.
pub open spec fn parse_image_entries(s: Seq<char>, i: int) -> Option<(Seq<ImageModel>, int)> {
    match expect_tok(s, i, seq![']']) {
        Some(j) => Some((Seq::empty(), j)),
        None => match parse_image_entry(s, i) {
            None => None,
            Some((e, i1)) => match parse_more_image_entries(s, i1) {
                None => None,
                Some((rest, j)) => Some((seq![e] + rest, j)),
            },
        },
    }
}

/// The meaning of a whole image history document.
pub open spec fn parse_image_doc(s: Seq<char>) -> Option<Seq<ImageModel>> {
    match expect_tok(s, 0, seq!['{']) {
        None => None,
        Some(i1) => match expect_tok(s, i1, key_items()) {
            None => None,
            Some(i2) => match expect_tok(s, i2, seq![':']) {
                None => None,
                Some(i3) => match expect_tok(s, i3, seq!['[']) {
                    None => None,
                    Some(i4) => match parse_image_entries(s, i4) {
                        None => None,
                        Some((items, i5)) => match expect_tok(s, i5, seq!['}']) {
                            None => None,
                            Some(i6) => if skip_ws(s, i6) == s.len() {
                                Some(items)
                            } else {
                                None
                            },
                        },
                    },
                },
            },
        },
    }
}

// ---------- the writer ----------

/// The canonical rendering of one text entry object.
pub open spec fn render_entry(e: EntryModel) -> Seq<char> {
    seq!['{'] + key_message() + seq![':'] + seq!['"'] + esc_str(e.message) + seq!['"'] + seq![',']
        + key_description() + seq![':'] + seq!['"'] + esc_str(e.description) + seq!['"']
        + seq!['}']
}

/// The canonical rendering of `, entry` groups after the first entry.
pub open spec fn render_more_entries(items: Seq<EntryModel>) -> Seq<char>
    decreases items.len(),
{
    if items.len() == 0 {
        Seq::empty()
    } else {
        seq![','] + render_entry(items[0]) + render_more_entries(items.drop_first())
    }
}

/// The canonical rendering of the contents of the `items` array.
pub open spec fn render_entries(items: Seq<EntryModel>) -> Seq<char> {
    if items.len() == 0 {
        Seq::empty()
    } else {
        render_entry(items[0]) + render_more_entries(items.drop_first())
    }
}

/// The canonical text history document for these entries.
pub open spec fn render_doc(items: Seq<EntryModel>) -> Seq<char> {
    seq!['{'] + key_items() + seq![':'] + seq!['['] + render_entries(items) + seq![']']
        + seq!['}']
}

/// The canonical rendering of one image entry object.
pub open spec fn render_image_entry(e: ImageModel) -> Seq<char> {
    seq!['{'] + key_width() + seq![':'] + dec_digits(e.width as int) + seq![','] + key_height()
        + seq![':'] + dec_digits(e.height as int) + seq![','] + key_bytes() + seq![':']
        + seq!['['] + render_byte_list(e.bytes) + seq![']'] + seq!['}']
}

/// The canonical rendering of `, byte` groups after the first byte.
pub open spec fn render_more_bytes(bs: Seq<u8>) -> Seq<char>
    decreases bs.len(),
{
    if bs.len() == 0 {
        Seq::empty()
    } else {
        seq![','] + dec_digits(bs[0] as int) + render_more_bytes(bs.drop_first())
    }
}

/// The canonical rendering of the contents of a byte array.
pub open spec fn render_byte_list(bs: Seq<u8>) -> Seq<char> {
    if bs.len() == 0 {
        Seq::empty()
    } else {
        dec_digits(bs[0] as int) + render_more_bytes(bs.drop_first())
    }
}

/// The canonical rendering of `, image entry` groups after the first one.
pub open spec fn render_more_image_entries(items: Seq<ImageModel>) -> Seq<char>
    decreases items.len(),
{
    if items.len() == 0 {
        Seq::empty()
    } else {
        seq![','] + render_image_entry(items[0]) + render_more_image_entries(items.drop_first())
    }
}

/// The canonical rendering of the contents of the image `items` array.
pub open spec fn render_image_entries(items: Seq<ImageModel>) -> Seq<char> {
    if items.len() == 0 {
        Seq::empty()
    } else {
        render_image_entry(items[0]) + render_more_image_entries(items.drop_first())
    }
}

/// The canonical image history document for these entries.
pub open spec fn render_image_doc(items: Seq<ImageModel>) -> Seq<char> {
    seq!['{'] + key_items() + seq![':'] + seq!['['] + render_image_entries(items) + seq![']']
        + seq!['}']
}

// ---------- growing a rendering on the right ----------

/// Escaping one more character extends the escaped string on the right.
pub proof fn lemma_esc_str_snoc(s: Seq<char>, c: char)
    ensures
        esc_str(s.push(c)) == esc_str(s) + esc_char(c),
    decreases s.len(),
{
    if s.len() == 0 {
        assert(s.push(c)[0] == c);
        assert(s.push(c).drop_first() =~= Seq::<char>::empty());
        assert(esc_str(Seq::<char>::empty()) == Seq::<char>::empty());
        assert(esc_str(s.push(c)) =~= esc_str(s) + esc_char(c));
    } else {
        assert(s.push(c)[0] == s[0]);
        assert(s.push(c).drop_first() =~= s.drop_first().push(c));
        lemma_esc_str_snoc(s.drop_first(), c);
        assert(esc_str(s.push(c)) == esc_char(s[0]) + esc_str(s.drop_first().push(c)));
        assert(esc_str(s) == esc_char(s[0]) + esc_str(s.drop_first()));
        assert(esc_char(s[0]) + (esc_str(s.drop_first()) + esc_char(c)) =~= (esc_char(s[0])
            + esc_str(s.drop_first())) + esc_char(c));
        assert(esc_str(s.push(c)) =~= esc_str(s) + esc_char(c));
    }
}

/// Rendering one more entry extends the array body on the right.
pub proof fn lemma_render_more_entries_snoc(items: Seq<EntryModel>, e: EntryModel)
    ensures
        render_more_entries(items.push(e)) == render_more_entries(items) + seq![',']
            + render_entry(e),
    decreases items.len(),
{
    if items.len() == 0 {
        assert(items.push(e)[0] == e);
        assert(items.push(e).drop_first() =~= Seq::<EntryModel>::empty());
        assert(render_more_entries(Seq::<EntryModel>::empty()) == Seq::<char>::empty());
        assert(render_more_entries(items.push(e)) =~= render_more_entries(items) + seq![',']
            + render_entry(e));
    } else {
        assert(items.push(e)[0] == items[0]);
        assert(items.push(e).drop_first() =~= items.drop_first().push(e));
        lemma_render_more_entries_snoc(items.drop_first(), e);
        assert(render_more_entries(items.push(e)) =~= render_more_entries(items) + seq![',']
            + render_entry(e));
    }
}

/// Rendering one more byte extends the array body on the right.
pub proof fn lemma_render_more_bytes_snoc(bs: Seq<u8>, b: u8)
    ensures
        render_more_bytes(bs.push(b)) == render_more_bytes(bs) + seq![','] + dec_digits(b as int),
    decreases bs.len(),
{
    if bs.len() == 0 {
        assert(bs.push(b)[0] == b);
        assert(bs.push(b).drop_first() =~= Seq::<u8>::empty());
        assert(render_more_bytes(Seq::<u8>::empty()) == Seq::<char>::empty());
        assert(render_more_bytes(bs.push(b)) =~= render_more_bytes(bs) + seq![','] + dec_digits(
            b as int,
        ));
    } else {
        assert(bs.push(b)[0] == bs[0]);
        assert(bs.push(b).drop_first() =~= bs.drop_first().push(b));
        lemma_render_more_bytes_snoc(bs.drop_first(), b);
        assert(render_more_bytes(bs.push(b)) =~= render_more_bytes(bs) + seq![','] + dec_digits(
            b as int,
        ));
    }
}

/// Rendering one more image entry extends the array body on the right.
pub proof fn lemma_render_more_image_entries_snoc(items: Seq<ImageModel>, e: ImageModel)
    ensures
        render_more_image_entries(items.push(e)) == render_more_image_entries(items) + seq![',']
            + render_image_entry(e),
    decreases items.len(),
{
    if items.len() == 0 {
        assert(items.push(e)[0] == e);
        assert(items.push(e).drop_first() =~= Seq::<ImageModel>::empty());
        assert(render_more_image_entries(Seq::<ImageModel>::empty()) == Seq::<char>::empty());
        assert(render_more_image_entries(items.push(e)) =~= render_more_image_entries(items)
            + seq![','] + render_image_entry(e));
    } else {
        assert(items.push(e)[0] == items[0]);
        assert(items.push(e).drop_first() =~= items.drop_first().push(e));
        lemma_render_more_image_entries_snoc(items.drop_first(), e);
        assert(render_more_image_entries(items.push(e)) =~= render_more_image_entries(items)
            + seq![','] + render_image_entry(e));
    }
}

/// Powers of ten grow with the exponent.
pub proof fn lemma_pow10_mono(a: int, b: int)
    requires
        0 <= a <= b,
    ensures
        pow10(a) <= pow10(b),
        pow10(a) >= 1,
    decreases b,
{
    if a < b {
        lemma_pow10_mono(a, b - 1);
    } else if b > 0 {
        lemma_pow10_mono(a - 1, b - 1);
    }
}

/// Rendering one more entry extends the whole array body on the right.
pub proof fn lemma_render_entries_snoc(items: Seq<EntryModel>, e: EntryModel)
    ensures
        render_entries(items.push(e)) == render_entries(items) + (if items.len() == 0 {
            render_entry(e)
        } else {
            seq![','] + render_entry(e)
        }),
{
    if items.len() == 0 {
        assert(items.push(e)[0] == e);
        assert(items.push(e).drop_first() =~= Seq::<EntryModel>::empty());
        assert(render_more_entries(Seq::<EntryModel>::empty()) == Seq::<char>::empty());
        assert(render_entries(items.push(e)) =~= render_entries(items) + render_entry(e));
    } else {
        assert(items.push(e)[0] == items[0]);
        assert(items.push(e).drop_first() =~= items.drop_first().push(e));
        lemma_render_more_entries_snoc(items.drop_first(), e);
        assert(render_entries(items.push(e)) =~= render_entries(items) + (seq![',']
            + render_entry(e)));
    }
}

/// Rendering one more byte extends the whole array body on the right.
pub proof fn lemma_render_byte_list_snoc(bs: Seq<u8>, b: u8)
    ensures
        render_byte_list(bs.push(b)) == render_byte_list(bs) + (if bs.len() == 0 {
            dec_digits(b as int)
        } else {
            seq![','] + dec_digits(b as int)
        }),
{
    if bs.len() == 0 {
        assert(bs.push(b)[0] == b);
        assert(bs.push(b).drop_first() =~= Seq::<u8>::empty());
        assert(render_more_bytes(Seq::<u8>::empty()) == Seq::<char>::empty());
        assert(render_byte_list(bs.push(b)) =~= render_byte_list(bs) + dec_digits(b as int));
    } else {
        assert(bs.push(b)[0] == bs[0]);
        assert(bs.push(b).drop_first() =~= bs.drop_first().push(b));
        lemma_render_more_bytes_snoc(bs.drop_first(), b);
        assert(render_byte_list(bs.push(b)) =~= render_byte_list(bs) + (seq![','] + dec_digits(
            b as int,
        )));
    }
}

/// Rendering one more image entry extends the whole array body on the right.
pub proof fn lemma_render_image_entries_snoc(items: Seq<ImageModel>, e: ImageModel)
    ensures
        render_image_entries(items.push(e)) == render_image_entries(items) + (if items.len()
            == 0 {
            render_image_entry(e)
        } else {
            seq![','] + render_image_entry(e)
        }),
{
    if items.len() == 0 {
        assert(items.push(e)[0] == e);
        assert(items.push(e).drop_first() =~= Seq::<ImageModel>::empty());
        assert(render_more_image_entries(Seq::<ImageModel>::empty()) == Seq::<char>::empty());
        assert(render_image_entries(items.push(e)) =~= render_image_entries(items)
            + render_image_entry(e));
    } else {
        assert(items.push(e)[0] == items[0]);
        assert(items.push(e).drop_first() =~= items.drop_first().push(e));
        lemma_render_more_image_entries_snoc(items.drop_first(), e);
        assert(render_image_entries(items.push(e)) =~= render_image_entries(items) + (seq![',']
            + render_image_entry(e)));
    }
}

// ---------- bounds of the parser ----------

/// Skipping whitespace stays within the document.
pub proof fn lemma_skip_ws_bounds(s: Seq<char>, i: int)
    ensures
        0 <= i <= s.len() ==> i <= skip_ws(s, i) <= s.len(),
        i > s.len() ==> skip_ws(s, i) == i,
        i < 0 ==> skip_ws(s, i) == i,
    decreases s.len() - i,
{
    if 0 <= i < s.len() && is_ws(s[i]) {
        lemma_skip_ws_bounds(s, i + 1);
    }
}

/// A consumed token moves the position strictly forward, within bounds.
pub proof fn lemma_expect_tok_bounds(s: Seq<char>, i: int, lit: Seq<char>)
    requires
        lit.len() >= 1,
    ensures
        expect_tok(s, i, lit) matches Some(j) ==> 0 <= i < j <= s.len(),
{
    lemma_skip_ws_bounds(s, i);
}

/// A consumed string body moves the position strictly forward, within bounds.
pub proof fn lemma_parse_string_body_bounds(s: Seq<char>, i: int)
    ensures
        parse_string_body(s, i) matches Some(p) ==> i < p.1 <= s.len(),
    decreases s.len() - i,
{
    if 0 <= i < s.len() {
        let c = s[i];
        if c == '"' {
        } else if c == '\\' {
            if i + 1 < s.len() {
                if s[i + 1] == 'u' {
                    if i + 5 < s.len() {
                        lemma_parse_string_body_bounds(s, i + 6);
                    }
                } else {
                    lemma_parse_string_body_bounds(s, i + 2);
                }
            }
        } else {
            lemma_parse_string_body_bounds(s, i + 1);
        }
    }
}

/// A digit run stays within the document.
pub proof fn lemma_digit_run_bounds(s: Seq<char>, i: int)
    ensures
        0 <= i <= s.len() ==> i <= digit_run_end(s, i) <= s.len(),
        i > s.len() ==> digit_run_end(s, i) == i,
        i < 0 ==> digit_run_end(s, i) == i,
        forall|k: int| i <= k < digit_run_end(s, i) && 0 <= k ==> is_digit(s[k]),
    decreases s.len() - i,
{
    if 0 <= i < s.len() && is_digit(s[i]) {
        lemma_digit_run_bounds(s, i + 1);
    }
}

/// A consumed number moves the position strictly forward, within bounds.
pub proof fn lemma_parse_number_bounds(s: Seq<char>, i: int)
    ensures
        parse_number(s, i) matches Some(p) ==> i < p.1 <= s.len(),
{
    lemma_digit_run_bounds(s, i);
}

/// A consumed byte moves the position strictly forward, within bounds.
pub proof fn lemma_parse_byte_bounds(s: Seq<char>, i: int)
    ensures
        parse_byte(s, i) matches Some(p) ==> i < p.1 <= s.len(),
{
    lemma_skip_ws_bounds(s, i);
    lemma_parse_number_bounds(s, skip_ws(s, i));
}

/// A consumed bounded number moves the position strictly forward.
pub proof fn lemma_parse_u32_bounds(s: Seq<char>, i: int)
    ensures
        parse_u32(s, i) matches Some(p) ==> i < p.1 <= s.len(),
{
    lemma_skip_ws_bounds(s, i);
    lemma_parse_number_bounds(s, skip_ws(s, i));
}

/// A consumed text entry moves the position strictly forward, within bounds.
pub proof fn lemma_parse_entry_bounds(s: Seq<char>, i: int)
    ensures
        parse_entry(s, i) matches Some(p) ==> i < p.1 <= s.len(),
{
    lemma_expect_tok_bounds(s, i, seq!['{']);
    match expect_tok(s, i, seq!['{']) {
        None => {},
        Some(i1) => {
            lemma_expect_tok_bounds(s, i1, key_message());
            match expect_tok(s, i1, key_message()) {
                None => {},
                Some(i2) => {
                    lemma_expect_tok_bounds(s, i2, seq![':']);
                    match expect_tok(s, i2, seq![':']) {
                        None => {},
                        Some(i3) => {
                            lemma_expect_tok_bounds(s, i3, seq!['"']);
                            match expect_tok(s, i3, seq!['"']) {
                                None => {},
                                Some(i4) => {
                                    lemma_parse_string_body_bounds(s, i4);
                                    match parse_string_body(s, i4) {
                                        None => {},
                                        Some((_msg, i5)) => {
                                            lemma_expect_tok_bounds(s, i5, seq![',']);
                                            match expect_tok(s, i5, seq![',']) {
                                                None => {},
                                                Some(i6) => {
                                                    lemma_expect_tok_bounds(s, i6, key_description());
                                                    match expect_tok(s, i6, key_description()) {
                                                        None => {},
                                                        Some(i7) => {
                                                            lemma_expect_tok_bounds(s, i7, seq![':']);
                                                            match expect_tok(s, i7, seq![':']) {
                                                                None => {},
                                                                Some(i8) => {
                                                                    lemma_expect_tok_bounds(s, i8, seq!['"']);
                                                                    match expect_tok(s, i8, seq!['"']) {
                                                                        None => {},
                                                                        Some(i9) => {
                                                                            lemma_parse_string_body_bounds(s, i9);
                                                                            match parse_string_body(s, i9) {
                                                                                None => {},
                                                                                Some((_desc, i10)) => {
                                                                                    lemma_expect_tok_bounds(s, i10, seq!['}']);
                                                                                },
                                                                            }
                                                                        },
                                                                    }
                                                                },
                                                            }
                                                        },
                                                    }
                                                },
                                            }
                                        },
                                    }
                                },
                            }
                        },
                    }
                },
            }
        },
    }
}

/// A consumed image entry moves the position strictly forward, within bounds.
pub proof fn lemma_parse_image_entry_bounds(s: Seq<char>, i: int)
    ensures
        parse_image_entry(s, i) matches Some(p) ==> i < p.1 <= s.len(),
{
    lemma_expect_tok_bounds(s, i, seq!['{']);
    match expect_tok(s, i, seq!['{']) {
        None => {},
        Some(i1) => {
            lemma_expect_tok_bounds(s, i1, key_width());
            match expect_tok(s, i1, key_width()) {
                None => {},
                Some(i2) => {
                    lemma_expect_tok_bounds(s, i2, seq![':']);
                    match expect_tok(s, i2, seq![':']) {
                        None => {},
                        Some(i3) => {
                            lemma_parse_u32_bounds(s, i3);
                            match parse_u32(s, i3) {
                                None => {},
                                Some((_w, i4)) => {
                                    lemma_expect_tok_bounds(s, i4, seq![',']);
                                    match expect_tok(s, i4, seq![',']) {
                                        None => {},
                                        Some(i5) => {
                                            lemma_expect_tok_bounds(s, i5, key_height());
                                            match expect_tok(s, i5, key_height()) {
                                                None => {},
                                                Some(i6) => {
                                                    lemma_expect_tok_bounds(s, i6, seq![':']);
                                                    match expect_tok(s, i6, seq![':']) {
                                                        None => {},
                                                        Some(i7) => {
                                                            lemma_parse_u32_bounds(s, i7);
                                                            match parse_u32(s, i7) {
                                                                None => {},
                                                                Some((_h, i8)) => {
                                                                    lemma_image_tail_bounds(s, i8);
                                                                },
                                                            }
                                                        },
                                                    }
                                                },
                                            }
                                        },
                                    }
                                },
                            }
                        },
                    }
                },
            }
        },
    }
}

/// Bounds for the tail of an image entry, from its first comma on.
pub proof fn lemma_image_tail_bounds(s: Seq<char>, i8: int)
    ensures
        parse_image_tail(s, i8) matches Some(p) ==> i8 < p.1 <= s.len(),
{
    lemma_expect_tok_bounds(s, i8, seq![',']);
    match expect_tok(s, i8, seq![',']) {
        None => {},
        Some(i9) => {
            lemma_expect_tok_bounds(s, i9, key_bytes());
            match expect_tok(s, i9, key_bytes()) {
                None => {},
                Some(i10) => {
                    lemma_expect_tok_bounds(s, i10, seq![':']);
                    match expect_tok(s, i10, seq![':']) {
                        None => {},
                        Some(i11) => {
                            lemma_expect_tok_bounds(s, i11, seq!['[']);
                            match expect_tok(s, i11, seq!['[']) {
                                None => {},
                                Some(i12) => {
                                    lemma_parse_byte_list_bounds(s, i12);
                                    match parse_byte_list(s, i12) {
                                        None => {},
                                        Some((_bs, i13)) => {
                                            lemma_expect_tok_bounds(s, i13, seq!['}']);
                                        },
                                    }
                                },
                            }
                        },
                    }
                },
            }
        },
    }
}

/// A consumed trailing byte group moves the position forward, within bounds.
pub proof fn lemma_parse_more_bytes_bounds(s: Seq<char>, i: int)
    ensures
        parse_more_bytes(s, i) matches Some(p) ==> i < p.1 <= s.len(),
    decreases s.len() - i,
{
    lemma_expect_tok_bounds(s, i, seq![']']);
    lemma_expect_tok_bounds(s, i, seq![',']);
    match expect_tok(s, i, seq![']']) {
        Some(_) => {},
        None => match expect_tok(s, i, seq![',']) {
            None => {},
            Some(i1) => {
                lemma_parse_byte_bounds(s, i1);
                match parse_byte(s, i1) {
                    None => {},
                    Some((_b, i2)) => {
                        lemma_parse_more_bytes_bounds(s, i2);
                    },
                }
            },
        },
    }
}

/// A consumed byte array moves the position forward, within bounds.
pub proof fn lemma_parse_byte_list_bounds(s: Seq<char>, i: int)
    ensures
        parse_byte_list(s, i) matches Some(p) ==> i < p.1 <= s.len(),
{
    lemma_expect_tok_bounds(s, i, seq![']']);
    match expect_tok(s, i, seq![']']) {
        Some(_) => {},
        None => {
            lemma_parse_byte_bounds(s, i);
            match parse_byte(s, i) {
                None => {},
                Some((_b, i1)) => {
                    lemma_parse_more_bytes_bounds(s, i1);
                },
            }
        },
    }
}

} // verus!
