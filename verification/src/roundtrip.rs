//! The reader inverts the writer: a canonical document parses back to
//! exactly the entries it was written for.

use vstd::prelude::*;

use crate::entry::{EntryModel, ImageModel};
use crate::json::{
    dec_digits, digit_char, digit_run_end, digits_value, esc_char, esc_str, expect_tok, hex_val,
    is_digit, is_ws, key_bytes, key_description, key_height, key_items, key_message,
    key_width, lemma_digit_char_val, needs_escape, parse_byte, parse_byte_list,
    parse_doc, parse_entries, parse_entry, parse_image_doc, parse_image_entries,
    parse_image_entry, parse_more_bytes, parse_more_entries, parse_more_image_entries,
    parse_number, parse_string_body, parse_u32, pow10, render_byte_list, render_doc,
    render_entries, render_entry, render_image_doc, render_image_entries, render_image_entry,
    render_more_bytes, render_more_entries, render_more_image_entries, skip_ws,
};

verus! {

/// Skipping whitespace at a non-whitespace position stays put.
proof fn lemma_skip_ws_at(s: Seq<char>, i: int)
    requires
        0 <= i <= s.len(),
        i < s.len() ==> !is_ws(s[i]),
    ensures
        skip_ws(s, i) == i,
{
}

/// A stretch of the document that reads `x + y` splits into a stretch
/// reading `x` and one reading `y`.
proof fn lemma_split_chunk(doc: Seq<char>, p: int, x: Seq<char>, y: Seq<char>)
    requires
        0 <= p,
        p + x.len() + y.len() <= doc.len(),
        doc.subrange(p, p + x.len() + y.len()) == x + y,
    ensures
        doc.subrange(p, p + x.len()) == x,
        doc.subrange(p + x.len(), p + x.len() + y.len()) == y,
{
    let w = doc.subrange(p, p + x.len() + y.len());
    assert(doc.subrange(p, p + x.len()) =~= x) by {
        assert forall|t: int| 0 <= t < x.len() implies doc[p + t] == x[t] by {
            assert(w[t] == doc[p + t]);
            assert((x + y)[t] == x[t]);
        }
    }
    assert(doc.subrange(p + x.len(), p + x.len() + y.len()) =~= y) by {
        assert forall|t: int| 0 <= t < y.len() implies doc[p + x.len() + t] == y[t] by {
            assert(w[x.len() + t] == doc[p + x.len() + t]);
            assert((x + y)[x.len() + t] == y[t]);
        }
    }
}

/// The one character of a one-character stretch.
proof fn lemma_chunk_char(doc: Seq<char>, p: int, c: char)
    requires
        0 <= p,
        p + 1 <= doc.len(),
        doc.subrange(p, p + 1) == seq![c],
    ensures
        doc[p] == c,
{
    assert(doc.subrange(p, p + 1)[0] == doc[p]);
}

/// A token lies verbatim at `i`: the parser consumes exactly it.
proof fn lemma_expect_tok_at(doc: Seq<char>, i: int, lit: Seq<char>)
    requires
        0 <= i,
        i + lit.len() <= doc.len(),
        doc.subrange(i, i + lit.len()) == lit,
        lit.len() >= 1,
        !is_ws(lit[0]),
    ensures
        expect_tok(doc, i, lit) == Some(i + lit.len()),
{
    assert(doc[i] == doc.subrange(i, i + lit.len())[0]);
    lemma_skip_ws_at(doc, i);
}

/// An escaped string lies at `i`, a closing quote after it: the parser
/// consumes it all and yields the original characters.
proof fn lemma_parse_esc_str(doc: Seq<char>, i: int, s: Seq<char>)
    requires
        0 <= i,
        i + esc_str(s).len() + 1 <= doc.len(),
        doc.subrange(i, i + esc_str(s).len()) == esc_str(s),
        doc[i + esc_str(s).len()] == '"',
    ensures
        parse_string_body(doc, i) == Some((s, i + esc_str(s).len() + 1)),
    decreases s.len(),
{
    if s.len() == 0 {
        assert(esc_str(s).len() == 0);
        assert(doc[i] == '"');
        assert(s =~= Seq::<char>::empty());
    } else {
        let c = s[0];
        let rest = s.drop_first();
        assert(esc_str(s) == esc_char(c) + esc_str(rest));
        let lc = esc_char(c).len() as int;
        let lr = esc_str(rest).len() as int;
        lemma_split_chunk(doc, i, esc_char(c), esc_str(rest));
        let i2 = i + lc;
        assert(doc[i2 + lr] == '"');
        lemma_parse_esc_str(doc, i2, rest);
        assert forall|t: int| 0 <= t < lc implies doc[i + t] == esc_char(c)[t] by {
            assert(doc.subrange(i, i + lc)[t] == doc[i + t]);
        }
        if needs_escape(c) {
            let v = (c as u32) as int;
            assert(v < 256);
            lemma_digit_char_val(v / 16);
            lemma_digit_char_val(v % 16);
            assert(doc[i + 0] == '\\');
            assert(doc[i + 1] == 'u');
            assert(doc[i + 2] == '0');
            assert(doc[i + 3] == '0');
            assert(doc[i + 4] == digit_char(v / 16));
            assert(doc[i + 5] == digit_char(v % 16));
            assert(hex_val(doc[i + 4]) * 16 + hex_val(doc[i + 5]) == v);
            vstd::utf8::char_u32_cast(c, c as u32);
            assert(((c as u32) as char) == c);
            assert(((v as u8) as int) == ((c as u32) as int));
            assert(((v as u8) as char) == ((c as u32) as char));
            assert(((v as u8) as char) == c);
            assert(seq![c] + rest =~= s);
        } else {
            assert(doc[i + 0] == esc_char(c)[0]);
            assert(esc_char(c)[0] == c);
            assert(doc[i + 0] == c);
            assert(c != '"' && c != '\\');
            assert(seq![c] + rest =~= s);
        }
    }
}

/// The canonical digits of a number are digits and decode to its value.
proof fn lemma_dec_digits_props(n: int)
    requires
        0 <= n,
    ensures
        dec_digits(n).len() >= 1,
        forall|t: int| 0 <= t < dec_digits(n).len() ==> is_digit(#[trigger] dec_digits(n)[t]),
        digits_value(dec_digits(n)) == n,
    decreases n,
{
    assert(digits_value(Seq::<char>::empty()) == 0);
    if n < 10 {
        lemma_digit_char_val(n);
        assert(dec_digits(n) == seq![digit_char(n)]);
        assert(dec_digits(n).drop_last() =~= Seq::<char>::empty());
        assert(dec_digits(n).last() == digit_char(n));
    } else {
        lemma_dec_digits_props(n / 10);
        lemma_digit_char_val(n % 10);
        assert(dec_digits(n) == dec_digits(n / 10) + seq![digit_char(n % 10)]);
        assert(dec_digits(n).drop_last() =~= dec_digits(n / 10));
        assert(dec_digits(n).last() == digit_char(n % 10));
        assert(digits_value(dec_digits(n)) == digits_value(dec_digits(n / 10)) * 10 + (n % 10));
    }
}

/// The canonical rendering of a number below a power of ten is short.
proof fn lemma_dec_digits_len(n: int, k: int)
    requires
        0 <= n,
        1 <= k,
        n < pow10(k),
    ensures
        dec_digits(n).len() <= k,
    decreases n,
{
    if n < 10 {
    } else {
        assert(pow10(k) == 10 * pow10(k - 1));
        if k == 1 {
            assert(false);
        }
        lemma_dec_digits_len(n / 10, k - 1);
    }
}

/// A run of digits bounded on both sides is exactly the maximal run.
proof fn lemma_digit_run_exact(doc: Seq<char>, i: int, len: int)
    requires
        0 <= i,
        0 <= len,
        i + len <= doc.len(),
        forall|t: int| i <= t < i + len ==> is_digit(#[trigger] doc[t]),
        i + len < doc.len() ==> !is_digit(doc[i + len]),
    ensures
        digit_run_end(doc, i) == i + len,
    decreases len,
{
    if len > 0 {
        lemma_digit_run_exact(doc, i + 1, len - 1);
    }
}

/// A canonical number lies at `i`, a non-digit after it: the parser
/// consumes it and yields its value.
proof fn lemma_parse_dec_at(doc: Seq<char>, i: int, n: int)
    requires
        0 <= n <= 0xffff_ffff,
        0 <= i,
        i + dec_digits(n).len() < doc.len(),
        doc.subrange(i, i + dec_digits(n).len()) == dec_digits(n),
        !is_digit(doc[i + dec_digits(n).len()]),
    ensures
        parse_number(doc, i) == Some((n, i + dec_digits(n).len())),
{
    let l = dec_digits(n).len() as int;
    lemma_dec_digits_props(n);
    assert(pow10(10) == 10000000000) by {
        reveal_with_fuel(pow10, 12);
    }
    lemma_dec_digits_len(n, 10);
    assert forall|t: int| i <= t < i + l implies is_digit(#[trigger] doc[t]) by {
        assert(doc.subrange(i, i + l)[t - i] == doc[t]);
        assert(is_digit(dec_digits(n)[t - i]));
    }
    lemma_digit_run_exact(doc, i, l);
    assert(digits_value(doc.subrange(i, i + l)) == n);
}

// ---------- text entries ----------

/// A rendered entry lies verbatim at `i`: the parser consumes exactly it
/// and yields the entry back.
proof fn lemma_parse_entry_at(doc: Seq<char>, i: int, e: EntryModel)
    requires
        0 <= i,
        i + render_entry(e).len() <= doc.len(),
        doc.subrange(i, i + render_entry(e).len()) == render_entry(e),
    ensures
        parse_entry(doc, i) == Some((e, i + render_entry(e).len())),
{
    let lm = esc_str(e.message).len() as int;
    let ld = esc_str(e.description).len() as int;
    // peel the rendering apart, right to left
    let x12 = seq!['{'] + key_message() + seq![':'] + seq!['"'] + esc_str(e.message) + seq!['"']
        + seq![','] + key_description() + seq![':'] + seq!['"'] + esc_str(e.description)
        + seq!['"'];
    let x11 = seq!['{'] + key_message() + seq![':'] + seq!['"'] + esc_str(e.message) + seq!['"']
        + seq![','] + key_description() + seq![':'] + seq!['"'] + esc_str(e.description);
    let x10 = seq!['{'] + key_message() + seq![':'] + seq!['"'] + esc_str(e.message) + seq!['"']
        + seq![','] + key_description() + seq![':'] + seq!['"'];
    let x9 = seq!['{'] + key_message() + seq![':'] + seq!['"'] + esc_str(e.message) + seq!['"']
        + seq![','] + key_description() + seq![':'];
    let x8 = seq!['{'] + key_message() + seq![':'] + seq!['"'] + esc_str(e.message) + seq!['"']
        + seq![','] + key_description();
    let x7 = seq!['{'] + key_message() + seq![':'] + seq!['"'] + esc_str(e.message) + seq!['"']
        + seq![','];
    let x6 = seq!['{'] + key_message() + seq![':'] + seq!['"'] + esc_str(e.message) + seq!['"'];
    let x5 = seq!['{'] + key_message() + seq![':'] + seq!['"'] + esc_str(e.message);
    let x4 = seq!['{'] + key_message() + seq![':'] + seq!['"'];
    let x3 = seq!['{'] + key_message() + seq![':'];
    let x2 = seq!['{'] + key_message();
    let x1 = seq!['{'];
    lemma_split_chunk(doc, i, x12, seq!['}']);
    lemma_split_chunk(doc, i, x11, seq!['"']);
    lemma_split_chunk(doc, i, x10, esc_str(e.description));
    lemma_split_chunk(doc, i, x9, seq!['"']);
    lemma_split_chunk(doc, i, x8, seq![':']);
    lemma_split_chunk(doc, i, x7, key_description());
    lemma_split_chunk(doc, i, x6, seq![',']);
    lemma_split_chunk(doc, i, x5, seq!['"']);
    lemma_split_chunk(doc, i, x4, esc_str(e.message));
    lemma_split_chunk(doc, i, x3, seq!['"']);
    lemma_split_chunk(doc, i, x2, seq![':']);
    lemma_split_chunk(doc, i, x1, key_message());
    lemma_expect_tok_at(doc, i, seq!['{']);
    lemma_expect_tok_at(doc, i + 1, key_message());
    lemma_expect_tok_at(doc, i + 10, seq![':']);
    lemma_expect_tok_at(doc, i + 11, seq!['"']);
    lemma_chunk_char(doc, i + 12 + lm, '"');
    lemma_parse_esc_str(doc, i + 12, e.message);
    lemma_expect_tok_at(doc, i + 13 + lm, seq![',']);
    lemma_expect_tok_at(doc, i + 14 + lm, key_description());
    lemma_expect_tok_at(doc, i + 27 + lm, seq![':']);
    lemma_expect_tok_at(doc, i + 28 + lm, seq!['"']);
    lemma_chunk_char(doc, i + 29 + lm + ld, '"');
    lemma_parse_esc_str(doc, i + 29 + lm, e.description);
    lemma_expect_tok_at(doc, i + 30 + lm + ld, seq!['}']);
    assert(EntryModel { message: e.message, description: e.description } == e);
}

/// The rendered tail of an entry array lies at `i`, then a closing
/// bracket: the parser yields the remaining entries.
proof fn lemma_parse_more_entries_at(doc: Seq<char>, i: int, items: Seq<EntryModel>)
    requires
        0 <= i,
        i + render_more_entries(items).len() + 1 <= doc.len(),
        doc.subrange(i, i + render_more_entries(items).len()) == render_more_entries(items),
        doc[i + render_more_entries(items).len()] == ']',
    ensures
        parse_more_entries(doc, i) == Some(
            (items, i + render_more_entries(items).len() + 1),
        ),
    decreases items.len(),
{
    if items.len() == 0 {
        assert(doc.subrange(i, i + 1) =~= seq![']']);
        lemma_expect_tok_at(doc, i, seq![']']);
        assert(items =~= Seq::<EntryModel>::empty());
    } else {
        let e = items[0];
        let le = render_entry(e).len() as int;
        let rest = items.drop_first();
        assert(render_more_entries(items) == seq![','] + render_entry(e)
            + render_more_entries(rest));
        lemma_split_chunk(doc, i, seq![','] + render_entry(e), render_more_entries(rest));
        lemma_split_chunk(doc, i, seq![','], render_entry(e));
        lemma_chunk_char(doc, i, ',');
        lemma_skip_ws_at(doc, i);
        assert(doc.subrange(i, i + 1)[0] == ',');
        assert(expect_tok(doc, i, seq![']']) is None);
        lemma_expect_tok_at(doc, i, seq![',']);
        lemma_parse_entry_at(doc, i + 1, e);
        let i2 = i + 1 + le;
        assert(doc[i2 + render_more_entries(rest).len()] == ']');
        lemma_parse_more_entries_at(doc, i2, rest);
        assert(seq![e] + rest =~= items);
    }
}

/// The rendered body of an entry array lies at `i`, then a closing
/// bracket: the parser yields all entries.
proof fn lemma_parse_entries_at(doc: Seq<char>, i: int, items: Seq<EntryModel>)
    requires
        0 <= i,
        i + render_entries(items).len() + 1 <= doc.len(),
        doc.subrange(i, i + render_entries(items).len()) == render_entries(items),
        doc[i + render_entries(items).len()] == ']',
    ensures
        parse_entries(doc, i) == Some((items, i + render_entries(items).len() + 1)),
{
    if items.len() == 0 {
        assert(doc.subrange(i, i + 1) =~= seq![']']);
        lemma_expect_tok_at(doc, i, seq![']']);
        assert(items =~= Seq::<EntryModel>::empty());
    } else {
        let e = items[0];
        let le = render_entry(e).len() as int;
        let rest = items.drop_first();
        assert(render_entries(items) == render_entry(e) + render_more_entries(rest));
        lemma_split_chunk(doc, i, render_entry(e), render_more_entries(rest));
        lemma_parse_entry_at(doc, i, e);
        assert(doc[i] == doc.subrange(i, i + le)[0]);
        assert(doc[i] == '{');
        lemma_skip_ws_at(doc, i);
        assert(expect_tok(doc, i, seq![']']) is None) by {
            if doc.subrange(i, i + 1) == seq![']'] {
                assert(doc.subrange(i, i + 1)[0] == ']');
            }
        }
        let i2 = i + le;
        assert(doc[i2 + render_more_entries(rest).len()] == ']');
        lemma_parse_more_entries_at(doc, i2, rest);
        assert(seq![e] + rest =~= items);
    }
}

/// The fixed frame of a history document around its array body.
proof fn lemma_doc_frame(doc: Seq<char>, body: Seq<char>)
    requires
        doc == seq!['{'] + key_items() + seq![':'] + seq!['['] + body + seq![']'] + seq!['}'],
    ensures
        doc.len() == 12 + body.len(),
        expect_tok(doc, 0, seq!['{']) == Some(1int),
        expect_tok(doc, 1, key_items()) == Some(8int),
        expect_tok(doc, 8, seq![':']) == Some(9int),
        expect_tok(doc, 9, seq!['[']) == Some(10int),
        doc.subrange(10, 10 + body.len() as int) == body,
        doc[10 + body.len() as int] == ']',
        expect_tok(doc, 11 + body.len() as int, seq!['}']) == Some(12 + body.len() as int),
        skip_ws(doc, 12 + body.len() as int) == doc.len(),
{
    let x6 = seq!['{'] + key_items() + seq![':'] + seq!['['] + body + seq![']'];
    let x5 = seq!['{'] + key_items() + seq![':'] + seq!['['] + body;
    let x4 = seq!['{'] + key_items() + seq![':'] + seq!['['];
    let x3 = seq!['{'] + key_items() + seq![':'];
    let x2 = seq!['{'] + key_items();
    let x1 = seq!['{'];
    assert(doc.subrange(0, doc.len() as int) =~= doc);
    lemma_split_chunk(doc, 0, x6, seq!['}']);
    lemma_split_chunk(doc, 0, x5, seq![']']);
    lemma_split_chunk(doc, 0, x4, body);
    lemma_split_chunk(doc, 0, x3, seq!['[']);
    lemma_split_chunk(doc, 0, x2, seq![':']);
    lemma_split_chunk(doc, 0, x1, key_items());
    lemma_expect_tok_at(doc, 0, seq!['{']);
    lemma_expect_tok_at(doc, 1, key_items());
    lemma_expect_tok_at(doc, 8, seq![':']);
    lemma_expect_tok_at(doc, 9, seq!['[']);
    lemma_chunk_char(doc, 10 + body.len() as int, ']');
    lemma_expect_tok_at(doc, 11 + body.len() as int, seq!['}']);
    assert(skip_ws(doc, 12 + body.len() as int) == doc.len());
}

/// Round trip of text persistence: the canonical document written for any
/// entries parses back to exactly those entries.
pub proof fn lemma_text_round_trip(items: Seq<EntryModel>)
    ensures
        parse_doc(render_doc(items)) == Some(items),
{
    let doc = render_doc(items);
    lemma_doc_frame(doc, render_entries(items));
    lemma_parse_entries_at(doc, 10, items);
}

// ---------- image entries ----------

/// A canonical number lies at `i` as a `u32` member value, a non-digit
/// after it: the bounded number parser yields it.
proof fn lemma_parse_u32_at(doc: Seq<char>, i: int, n: u32)
    requires
        0 <= i,
        i + dec_digits(n as int).len() < doc.len(),
        doc.subrange(i, i + dec_digits(n as int).len()) == dec_digits(n as int),
        !is_digit(doc[i + dec_digits(n as int).len()]),
        !is_ws(doc[i]),
    ensures
        parse_u32(doc, i) == Some((n, i + dec_digits(n as int).len())),
{
    lemma_skip_ws_at(doc, i);
    lemma_parse_dec_at(doc, i, n as int);
}

/// A canonical byte value lies at `i`, a non-digit after it: the byte
/// parser yields it.
proof fn lemma_parse_byte_at(doc: Seq<char>, i: int, b: u8)
    requires
        0 <= i,
        i + dec_digits(b as int).len() < doc.len(),
        doc.subrange(i, i + dec_digits(b as int).len()) == dec_digits(b as int),
        !is_digit(doc[i + dec_digits(b as int).len()]),
        !is_ws(doc[i]),
    ensures
        parse_byte(doc, i) == Some((b, i + dec_digits(b as int).len())),
{
    lemma_skip_ws_at(doc, i);
    lemma_parse_dec_at(doc, i, b as int);
}

/// The first character of a canonical number is a digit.
proof fn lemma_dec_digits_head(n: int)
    requires
        0 <= n,
    ensures
        is_digit(dec_digits(n)[0]),
        !is_ws(dec_digits(n)[0]),
        dec_digits(n)[0] != ']',
        dec_digits(n)[0] != ',',
    decreases n,
{
    lemma_dec_digits_props(n);
    if n >= 10 {
        lemma_dec_digits_head(n / 10);
        assert(dec_digits(n)[0] == dec_digits(n / 10)[0]);
    } else {
        lemma_digit_char_val(n);
    }
}

/// The rendered tail of a byte array lies at `i`, then a closing bracket:
/// the parser yields the remaining bytes.
proof fn lemma_parse_more_bytes_at(doc: Seq<char>, i: int, bs: Seq<u8>)
    requires
        0 <= i,
        i + render_more_bytes(bs).len() + 1 <= doc.len(),
        doc.subrange(i, i + render_more_bytes(bs).len()) == render_more_bytes(bs),
        doc[i + render_more_bytes(bs).len()] == ']',
    ensures
        parse_more_bytes(doc, i) == Some((bs, i + render_more_bytes(bs).len() + 1)),
    decreases bs.len(),
{
    if bs.len() == 0 {
        assert(doc.subrange(i, i + 1) =~= seq![']']);
        lemma_expect_tok_at(doc, i, seq![']']);
        assert(bs =~= Seq::<u8>::empty());
    } else {
        let b = bs[0];
        let lb = dec_digits(b as int).len() as int;
        let rest = bs.drop_first();
        assert(render_more_bytes(bs) == seq![','] + dec_digits(b as int) + render_more_bytes(
            rest,
        ));
        lemma_split_chunk(doc, i, seq![','] + dec_digits(b as int), render_more_bytes(rest));
        lemma_split_chunk(doc, i, seq![','], dec_digits(b as int));
        lemma_chunk_char(doc, i, ',');
        lemma_skip_ws_at(doc, i);
        assert(doc.subrange(i, i + 1)[0] == ',');
        assert(expect_tok(doc, i, seq![']']) is None);
        lemma_expect_tok_at(doc, i, seq![',']);
        lemma_dec_digits_head(b as int);
        assert(doc[i + 1] == dec_digits(b as int)[0]) by {
            assert(doc.subrange(i + 1, i + 1 + lb)[0] == doc[i + 1]);
        }
        let i2 = i + 1 + lb;
        assert(doc[i2 + render_more_bytes(rest).len()] == ']');
        assert(!is_digit(doc[i2])) by {
            if rest.len() == 0 {
            } else {
                assert(doc.subrange(i2, i2 + render_more_bytes(rest).len())[0] == doc[i2]);
                assert(render_more_bytes(rest)[0] == ',');
            }
        }
        lemma_parse_byte_at(doc, i + 1, b);
        lemma_parse_more_bytes_at(doc, i2, rest);
        assert(seq![b] + rest =~= bs);
    }
}

/// The rendered body of a byte array lies at `i`, then a closing bracket:
/// the parser yields all bytes.
proof fn lemma_parse_byte_list_at(doc: Seq<char>, i: int, bs: Seq<u8>)
    requires
        0 <= i,
        i + render_byte_list(bs).len() + 1 <= doc.len(),
        doc.subrange(i, i + render_byte_list(bs).len()) == render_byte_list(bs),
        doc[i + render_byte_list(bs).len()] == ']',
    ensures
        parse_byte_list(doc, i) == Some((bs, i + render_byte_list(bs).len() + 1)),
{
    if bs.len() == 0 {
        assert(doc.subrange(i, i + 1) =~= seq![']']);
        lemma_expect_tok_at(doc, i, seq![']']);
        assert(bs =~= Seq::<u8>::empty());
    } else {
        let b = bs[0];
        let lb = dec_digits(b as int).len() as int;
        let rest = bs.drop_first();
        assert(render_byte_list(bs) == dec_digits(b as int) + render_more_bytes(rest));
        lemma_split_chunk(doc, i, dec_digits(b as int), render_more_bytes(rest));
        lemma_dec_digits_head(b as int);
        assert(doc[i] == dec_digits(b as int)[0]) by {
            assert(doc.subrange(i, i + lb)[0] == doc[i]);
        }
        lemma_skip_ws_at(doc, i);
        assert(expect_tok(doc, i, seq![']']) is None) by {
            if doc.subrange(i, i + 1) == seq![']'] {
                assert(doc.subrange(i, i + 1)[0] == ']');
            }
        }
        let i2 = i + lb;
        assert(doc[i2 + render_more_bytes(rest).len()] == ']');
        assert(!is_digit(doc[i2])) by {
            if rest.len() == 0 {
            } else {
                assert(doc.subrange(i2, i2 + render_more_bytes(rest).len())[0] == doc[i2]);
                assert(render_more_bytes(rest)[0] == ',');
            }
        }
        lemma_parse_byte_at(doc, i, b);
        lemma_parse_more_bytes_at(doc, i2, rest);
        assert(seq![b] + rest =~= bs);
    }
}

/// A rendered image entry lies verbatim at `i`: the parser consumes
/// exactly it and yields the entry back.
#[verifier::rlimit(80)]
proof fn lemma_parse_image_entry_at(doc: Seq<char>, i: int, e: ImageModel)
    requires
        0 <= i,
        i + render_image_entry(e).len() <= doc.len(),
        doc.subrange(i, i + render_image_entry(e).len()) == render_image_entry(e),
    ensures
        parse_image_entry(doc, i) == Some((e, i + render_image_entry(e).len())),
{
    let lw = dec_digits(e.width as int).len() as int;
    let lh = dec_digits(e.height as int).len() as int;
    let lb = render_byte_list(e.bytes).len() as int;
    let x14 = seq!['{'] + key_width() + seq![':'] + dec_digits(e.width as int) + seq![',']
        + key_height() + seq![':'] + dec_digits(e.height as int) + seq![','] + key_bytes()
        + seq![':'] + seq!['['] + render_byte_list(e.bytes) + seq![']'];
    let x13 = seq!['{'] + key_width() + seq![':'] + dec_digits(e.width as int) + seq![',']
        + key_height() + seq![':'] + dec_digits(e.height as int) + seq![','] + key_bytes()
        + seq![':'] + seq!['['] + render_byte_list(e.bytes);
    let x12 = seq!['{'] + key_width() + seq![':'] + dec_digits(e.width as int) + seq![',']
        + key_height() + seq![':'] + dec_digits(e.height as int) + seq![','] + key_bytes()
        + seq![':'] + seq!['['];
    let x11 = seq!['{'] + key_width() + seq![':'] + dec_digits(e.width as int) + seq![',']
        + key_height() + seq![':'] + dec_digits(e.height as int) + seq![','] + key_bytes()
        + seq![':'];
    let x10 = seq!['{'] + key_width() + seq![':'] + dec_digits(e.width as int) + seq![',']
        + key_height() + seq![':'] + dec_digits(e.height as int) + seq![','] + key_bytes();
    let x9 = seq!['{'] + key_width() + seq![':'] + dec_digits(e.width as int) + seq![',']
        + key_height() + seq![':'] + dec_digits(e.height as int) + seq![','];
    let x8 = seq!['{'] + key_width() + seq![':'] + dec_digits(e.width as int) + seq![',']
        + key_height() + seq![':'] + dec_digits(e.height as int);
    let x7 = seq!['{'] + key_width() + seq![':'] + dec_digits(e.width as int) + seq![',']
        + key_height() + seq![':'];
    let x6 = seq!['{'] + key_width() + seq![':'] + dec_digits(e.width as int) + seq![',']
        + key_height();
    let x5 = seq!['{'] + key_width() + seq![':'] + dec_digits(e.width as int) + seq![','];
    let x4 = seq!['{'] + key_width() + seq![':'] + dec_digits(e.width as int);
    let x3 = seq!['{'] + key_width() + seq![':'];
    let x2 = seq!['{'] + key_width();
    let x1 = seq!['{'];
    lemma_split_chunk(doc, i, x14, seq!['}']);
    lemma_split_chunk(doc, i, x13, seq![']']);
    lemma_split_chunk(doc, i, x12, render_byte_list(e.bytes));
    lemma_split_chunk(doc, i, x11, seq!['[']);
    lemma_split_chunk(doc, i, x10, seq![':']);
    lemma_split_chunk(doc, i, x9, key_bytes());
    lemma_split_chunk(doc, i, x8, seq![',']);
    lemma_split_chunk(doc, i, x7, dec_digits(e.height as int));
    lemma_split_chunk(doc, i, x6, seq![':']);
    lemma_split_chunk(doc, i, x5, key_height());
    lemma_split_chunk(doc, i, x4, seq![',']);
    lemma_split_chunk(doc, i, x3, dec_digits(e.width as int));
    lemma_split_chunk(doc, i, x2, seq![':']);
    lemma_split_chunk(doc, i, x1, key_width());
    lemma_expect_tok_at(doc, i, seq!['{']);
    lemma_expect_tok_at(doc, i + 1, key_width());
    lemma_expect_tok_at(doc, i + 8, seq![':']);
    lemma_dec_digits_head(e.width as int);
    assert(doc[i + 9] == dec_digits(e.width as int)[0]) by {
        assert(doc.subrange(i + 9, i + 9 + lw)[0] == doc[i + 9]);
    }
    lemma_chunk_char(doc, i + 9 + lw, ',');
    lemma_parse_u32_at(doc, i + 9, e.width);
    lemma_expect_tok_at(doc, i + 9 + lw, seq![',']);
    lemma_expect_tok_at(doc, i + 10 + lw, key_height());
    lemma_expect_tok_at(doc, i + 18 + lw, seq![':']);
    lemma_dec_digits_head(e.height as int);
    assert(doc[i + 19 + lw] == dec_digits(e.height as int)[0]) by {
        assert(doc.subrange(i + 19 + lw, i + 19 + lw + lh)[0] == doc[i + 19 + lw]);
    }
    lemma_chunk_char(doc, i + 19 + lw + lh, ',');
    lemma_parse_u32_at(doc, i + 19 + lw, e.height);
    lemma_expect_tok_at(doc, i + 19 + lw + lh, seq![',']);
    lemma_expect_tok_at(doc, i + 20 + lw + lh, key_bytes());
    lemma_expect_tok_at(doc, i + 27 + lw + lh, seq![':']);
    lemma_expect_tok_at(doc, i + 28 + lw + lh, seq!['[']);
    lemma_chunk_char(doc, i + 29 + lw + lh + lb, ']');
    lemma_parse_byte_list_at(doc, i + 29 + lw + lh, e.bytes);
    lemma_expect_tok_at(doc, i + 30 + lw + lh + lb, seq!['}']);
    assert(ImageModel { width: e.width, height: e.height, bytes: e.bytes } == e);
}

/// The rendered tail of an image entry array lies at `i`, then a closing
/// bracket: the parser yields the remaining entries.
proof fn lemma_parse_more_image_entries_at(doc: Seq<char>, i: int, items: Seq<ImageModel>)
    requires
        0 <= i,
        i + render_more_image_entries(items).len() + 1 <= doc.len(),
        doc.subrange(i, i + render_more_image_entries(items).len())
            == render_more_image_entries(items),
        doc[i + render_more_image_entries(items).len()] == ']',
    ensures
        parse_more_image_entries(doc, i) == Some(
            (items, i + render_more_image_entries(items).len() + 1),
        ),
    decreases items.len(),
{
    if items.len() == 0 {
        assert(doc.subrange(i, i + 1) =~= seq![']']);
        lemma_expect_tok_at(doc, i, seq![']']);
        assert(items =~= Seq::<ImageModel>::empty());
    } else {
        let e = items[0];
        let le = render_image_entry(e).len() as int;
        let rest = items.drop_first();
        assert(render_more_image_entries(items) == seq![','] + render_image_entry(e)
            + render_more_image_entries(rest));
        lemma_split_chunk(
            doc,
            i,
            seq![','] + render_image_entry(e),
            render_more_image_entries(rest),
        );
        lemma_split_chunk(doc, i, seq![','], render_image_entry(e));
        lemma_chunk_char(doc, i, ',');
        lemma_skip_ws_at(doc, i);
        assert(doc.subrange(i, i + 1)[0] == ',');
        assert(expect_tok(doc, i, seq![']']) is None);
        lemma_expect_tok_at(doc, i, seq![',']);
        lemma_parse_image_entry_at(doc, i + 1, e);
        let i2 = i + 1 + le;
        assert(doc[i2 + render_more_image_entries(rest).len()] == ']');
        lemma_parse_more_image_entries_at(doc, i2, rest);
        assert(seq![e] + rest =~= items);
    }
}

/// The rendered body of an image entry array lies at `i`, then a closing
/// bracket: the parser yields all entries.
proof fn lemma_parse_image_entries_at(doc: Seq<char>, i: int, items: Seq<ImageModel>)
    requires
        0 <= i,
        i + render_image_entries(items).len() + 1 <= doc.len(),
        doc.subrange(i, i + render_image_entries(items).len()) == render_image_entries(items),
        doc[i + render_image_entries(items).len()] == ']',
    ensures
        parse_image_entries(doc, i) == Some(
            (items, i + render_image_entries(items).len() + 1),
        ),
{
    if items.len() == 0 {
        assert(doc.subrange(i, i + 1) =~= seq![']']);
        lemma_expect_tok_at(doc, i, seq![']']);
        assert(items =~= Seq::<ImageModel>::empty());
    } else {
        let e = items[0];
        let le = render_image_entry(e).len() as int;
        let rest = items.drop_first();
        assert(render_image_entries(items) == render_image_entry(e)
            + render_more_image_entries(rest));
        lemma_split_chunk(doc, i, render_image_entry(e), render_more_image_entries(rest));
        lemma_parse_image_entry_at(doc, i, e);
        assert(doc[i] == doc.subrange(i, i + le)[0]);
        assert(doc[i] == '{');
        lemma_skip_ws_at(doc, i);
        assert(expect_tok(doc, i, seq![']']) is None) by {
            if doc.subrange(i, i + 1) == seq![']'] {
                assert(doc.subrange(i, i + 1)[0] == ']');
            }
        }
        let i2 = i + le;
        assert(doc[i2 + render_more_image_entries(rest).len()] == ']');
        lemma_parse_more_image_entries_at(doc, i2, rest);
        assert(seq![e] + rest =~= items);
    }
}

/// Round trip of image persistence: the canonical document written for
/// any image entries parses back to exactly those entries.
pub proof fn lemma_image_round_trip(items: Seq<ImageModel>)
    ensures
        parse_image_doc(render_image_doc(items)) == Some(items),
{
    let doc = render_image_doc(items);
    lemma_doc_frame(doc, render_image_entries(items));
    lemma_parse_image_entries_at(doc, 10, items);
}

} // verus!
