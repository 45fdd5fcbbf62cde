//! The executable reader and writer of history documents.
//!
//! [`render_history`] and [`render_image_history`] produce exactly the
//! canonical document of `json::render_doc` / `json::render_image_doc`;
//! [`parse_history`] and [`parse_image_history`] return exactly what
//! `json::parse_doc` / `json::parse_image_doc` give the input document.

use vstd::prelude::*;
use vstd::string::StrSliceExecFns;

use crate::entry::{
    entries_model, images_model, Entry, EntryModel, History, ImageEntry, ImageHistory, ImageModel,
};
use crate::json::{
    dec_digits, digit_char, digit_run_end, digits_value, esc_char, esc_str, expect_tok, hex_val,
    is_digit, is_hex, is_ws, key_bytes, key_description, key_height, key_items, key_message,
    key_width, lemma_digit_run_bounds, lemma_esc_str_snoc, lemma_pow10_mono,
    lemma_render_byte_list_snoc, lemma_render_entries_snoc, lemma_render_image_entries_snoc,
    parse_byte, parse_byte_list, parse_doc, parse_entries, parse_entry, parse_image_doc,
    parse_image_entries, parse_image_entry, parse_more_bytes, parse_more_entries,
    parse_more_image_entries, parse_number, parse_string_body, parse_u32, pow10,
    render_byte_list, render_doc, render_entries, render_entry, render_image_doc,
    render_image_entries, render_image_entry, skip_ws,
};

verus! {

// ---------- characters in and out of strings ----------

/// Relies on String::push: appends exactly the one character.
#[verifier::external_body]
fn push_char(s: &mut String, c: char)
    ensures
        final(s)@ == old(s)@.push(c),
{
    s.push(c);
}

/// The characters of a string slice, in order.
pub fn chars_of(s: &str) -> (r: Vec<char>)
    ensures
        r@ == s@,
{
    let n = s.unicode_len();
    let mut r: Vec<char> = Vec::new();
    let mut i: usize = 0;
    while i < n
        invariant
            n == s@.len(),
            i <= n,
            r@ == s@.subrange(0, i as int),
        decreases n - i,
    {
        r.push(s.get_char(i));
        i = i + 1;
        proof {
            assert(r@ =~= s@.subrange(0, i as int));
        }
    }
    proof {
        assert(r@ =~= s@);
    }
    r
}

/// The string holding exactly these characters.
pub fn string_from_chars(cs: &Vec<char>) -> (s: String)
    ensures
        s@ == cs@,
{
    let mut s = String::new();
    let mut i: usize = 0;
    while i < cs.len()
        invariant
            i <= cs@.len(),
            s@ == cs@.subrange(0, i as int),
        decreases cs@.len() - i,
    {
        push_char(&mut s, cs[i]);
        i = i + 1;
        proof {
            assert(s@ =~= cs@.subrange(0, i as int));
        }
    }
    proof {
        assert(s@ =~= cs@);
    }
    s
}

/// The lower-case digit character of a value below sixteen.
fn digit_char_x(d: u32) -> (c: char)
    requires
        d < 16,
    ensures
        c == digit_char(d as int),
{
    if d == 0 {
        '0'
    } else if d == 1 {
        '1'
    } else if d == 2 {
        '2'
    } else if d == 3 {
        '3'
    } else if d == 4 {
        '4'
    } else if d == 5 {
        '5'
    } else if d == 6 {
        '6'
    } else if d == 7 {
        '7'
    } else if d == 8 {
        '8'
    } else if d == 9 {
        '9'
    } else if d == 10 {
        'a'
    } else if d == 11 {
        'b'
    } else if d == 12 {
        'c'
    } else if d == 13 {
        'd'
    } else if d == 14 {
        'e'
    } else {
        'f'
    }
}

// ---------- the writer ----------

/// Appends the decimal rendering of a number.
fn push_u32(out: &mut String, n: u32)
    ensures
        final(out)@ == old(out)@ + dec_digits(n as int),
    decreases n,
{
    if n < 10 {
        push_char(out, digit_char_x(n));
        proof {
            assert(out@ =~= old(out)@ + dec_digits(n as int));
        }
    } else {
        push_u32(out, n / 10);
        push_char(out, digit_char_x(n % 10));
        proof {
            assert(out@ =~= old(out)@ + dec_digits(n as int));
        }
    }
}

/// Appends the escaped rendering of one string character.
fn push_esc_char(out: &mut String, c: char)
    ensures
        final(out)@ == old(out)@ + esc_char(c),
{
    let code = c as u32;
    if c == '"' || c == '\\' || code < 32 {
        push_char(out, '\\');
        push_char(out, 'u');
        push_char(out, '0');
        push_char(out, '0');
        push_char(out, digit_char_x(code / 16));
        push_char(out, digit_char_x(code % 16));
        proof {
            assert(out@ =~= old(out)@ + esc_char(c));
        }
    } else {
        push_char(out, c);
        proof {
            assert(out@ =~= old(out)@ + esc_char(c));
        }
    }
}

/// Appends the escaped rendering of a whole string value.
fn push_esc_str(out: &mut String, s: &String)
    ensures
        final(out)@ == old(out)@ + esc_str(s@),
{
    let cs = chars_of(s.as_str());
    proof {
        assert(s@.subrange(0, 0) =~= Seq::<char>::empty());
        assert(old(out)@ + esc_str(s@.subrange(0, 0)) =~= old(out)@);
    }
    let mut i: usize = 0;
    while i < cs.len()
        invariant
            cs@ == s@,
            i <= cs@.len(),
            out@ == old(out)@ + esc_str(s@.subrange(0, i as int)),
        decreases cs@.len() - i,
    {
        push_esc_char(out, cs[i]);
        proof {
            lemma_esc_str_snoc(s@.subrange(0, i as int), s@[i as int]);
            assert(s@.subrange(0, i as int).push(s@[i as int]) =~= s@.subrange(
                0,
                (i as int) + 1,
            ));
            assert(out@ =~= old(out)@ + esc_str(s@.subrange(0, (i as int) + 1)));
        }
        i = i + 1;
    }
    proof {
        assert(s@.subrange(0, s@.len() as int) =~= s@);
    }
}

/// Appends the quoted member name `items`.
fn push_key_items(out: &mut String)
    ensures
        final(out)@ == old(out)@ + key_items(),
{
    push_char(out, '"');
    push_char(out, 'i');
    push_char(out, 't');
    push_char(out, 'e');
    push_char(out, 'm');
    push_char(out, 's');
    push_char(out, '"');
    proof {
        assert(out@ =~= old(out)@ + key_items());
    }
}

/// Appends the quoted member name `message`.
fn push_key_message(out: &mut String)
    ensures
        final(out)@ == old(out)@ + key_message(),
{
    push_char(out, '"');
    push_char(out, 'm');
    push_char(out, 'e');
    push_char(out, 's');
    push_char(out, 's');
    push_char(out, 'a');
    push_char(out, 'g');
    push_char(out, 'e');
    push_char(out, '"');
    proof {
        assert(out@ =~= old(out)@ + key_message());
    }
}

/// Appends the quoted member name `description`.
fn push_key_description(out: &mut String)
    ensures
        final(out)@ == old(out)@ + key_description(),
{
    push_char(out, '"');
    push_char(out, 'd');
    push_char(out, 'e');
    push_char(out, 's');
    push_char(out, 'c');
    push_char(out, 'r');
    push_char(out, 'i');
    push_char(out, 'p');
    push_char(out, 't');
    push_char(out, 'i');
    push_char(out, 'o');
    push_char(out, 'n');
    push_char(out, '"');
    proof {
        assert(out@ =~= old(out)@ + key_description());
    }
}

/// Appends the quoted member name `width`.
fn push_key_width(out: &mut String)
    ensures
        final(out)@ == old(out)@ + key_width(),
{
    push_char(out, '"');
    push_char(out, 'w');
    push_char(out, 'i');
    push_char(out, 'd');
    push_char(out, 't');
    push_char(out, 'h');
    push_char(out, '"');
    proof {
        assert(out@ =~= old(out)@ + key_width());
    }
}

/// Appends the quoted member name `height`.
fn push_key_height(out: &mut String)
    ensures
        final(out)@ == old(out)@ + key_height(),
{
    push_char(out, '"');
    push_char(out, 'h');
    push_char(out, 'e');
    push_char(out, 'i');
    push_char(out, 'g');
    push_char(out, 'h');
    push_char(out, 't');
    push_char(out, '"');
    proof {
        assert(out@ =~= old(out)@ + key_height());
    }
}

/// Appends the quoted member name `bytes`.
fn push_key_bytes(out: &mut String)
    ensures
        final(out)@ == old(out)@ + key_bytes(),
{
    push_char(out, '"');
    push_char(out, 'b');
    push_char(out, 'y');
    push_char(out, 't');
    push_char(out, 'e');
    push_char(out, 's');
    push_char(out, '"');
    proof {
        assert(out@ =~= old(out)@ + key_bytes());
    }
}

/// Appends the rendering of one text entry object.
fn push_entry(out: &mut String, e: &Entry)
    ensures
        final(out)@ == old(out)@ + render_entry(e@),
{
    push_char(out, '{');
    push_key_message(out);
    push_char(out, ':');
    push_char(out, '"');
    push_esc_str(out, &e.message);
    push_char(out, '"');
    push_char(out, ',');
    push_key_description(out);
    push_char(out, ':');
    push_char(out, '"');
    push_esc_str(out, &e.description);
    push_char(out, '"');
    push_char(out, '}');
    proof {
        assert(out@ =~= old(out)@ + render_entry(e@));
    }
}

/// Appends the rendering of one image entry object.
fn push_image_entry(out: &mut String, e: &ImageEntry)
    ensures
        final(out)@ == old(out)@ + render_image_entry(e@),
{
    push_char(out, '{');
    push_key_width(out);
    push_char(out, ':');
    push_u32(out, e.width);
    push_char(out, ',');
    push_key_height(out);
    push_char(out, ':');
    push_u32(out, e.height);
    push_char(out, ',');
    push_key_bytes(out);
    push_char(out, ':');
    push_char(out, '[');
    let ghost mid = out@;
    let mut k: usize = 0;
    proof {
        assert(e.bytes@.subrange(0, 0) =~= Seq::<u8>::empty());
        assert(mid + render_byte_list(e.bytes@.subrange(0, 0)) =~= mid);
    }
    while k < e.bytes.len()
        invariant
            k <= e.bytes@.len(),
            out@ == mid + render_byte_list(e.bytes@.subrange(0, k as int)),
        decreases e.bytes@.len() - k,
    {
        if k > 0 {
            push_char(out, ',');
        }
        push_u32(out, e.bytes[k] as u32);
        proof {
            lemma_render_byte_list_snoc(e.bytes@.subrange(0, k as int), e.bytes@[k as int]);
            assert(e.bytes@.subrange(0, k as int).push(e.bytes@[k as int]) =~= e.bytes@.subrange(
                0,
                (k as int) + 1,
            ));
            assert(out@ =~= mid + render_byte_list(e.bytes@.subrange(0, (k as int) + 1)));
        }
        k = k + 1;
    }
    push_char(out, ']');
    push_char(out, '}');
    proof {
        assert(e.bytes@.subrange(0, e.bytes@.len() as int) =~= e.bytes@);
        assert(out@ =~= old(out)@ + render_image_entry(e@));
    }
}

/// Writes the canonical document of a text history.
pub fn render_history(h: &History) -> (out: String)
    ensures
        out@ == render_doc(h@),
{
    let mut out = String::new();
    push_char(&mut out, '{');
    push_key_items(&mut out);
    push_char(&mut out, ':');
    push_char(&mut out, '[');
    let ghost open_part = out@;
    let mut k: usize = 0;
    proof {
        assert(h@.subrange(0, 0) =~= Seq::<crate::entry::EntryModel>::empty());
        assert(open_part + render_entries(h@.subrange(0, 0)) =~= open_part);
    }
    while k < h.items.len()
        invariant
            h@.len() == h.items@.len(),
            k <= h.items@.len(),
            out@ == open_part + render_entries(h@.subrange(0, k as int)),
        decreases h.items@.len() - k,
    {
        if k > 0 {
            push_char(&mut out, ',');
        }
        push_entry(&mut out, &h.items[k]);
        proof {
            assert(h@[k as int] == h.items@[k as int]@);
            lemma_render_entries_snoc(h@.subrange(0, k as int), h@[k as int]);
            assert(h@.subrange(0, k as int).push(h@[k as int]) =~= h@.subrange(
                0,
                (k as int) + 1,
            ));
            assert(out@ =~= open_part + render_entries(h@.subrange(0, (k as int) + 1)));
        }
        k = k + 1;
    }
    push_char(&mut out, ']');
    push_char(&mut out, '}');
    proof {
        assert(h@.subrange(0, h@.len() as int) =~= h@);
        assert(out@ =~= render_doc(h@));
    }
    out
}

/// Writes the canonical document of an image history.
pub fn render_image_history(h: &ImageHistory) -> (out: String)
    ensures
        out@ == render_image_doc(h@),
{
    let mut out = String::new();
    push_char(&mut out, '{');
    push_key_items(&mut out);
    push_char(&mut out, ':');
    push_char(&mut out, '[');
    let ghost open_part = out@;
    let mut k: usize = 0;
    proof {
        assert(h@.subrange(0, 0) =~= Seq::<crate::entry::ImageModel>::empty());
        assert(open_part + render_image_entries(h@.subrange(0, 0)) =~= open_part);
    }
    while k < h.items.len()
        invariant
            h@.len() == h.items@.len(),
            k <= h.items@.len(),
            out@ == open_part + render_image_entries(h@.subrange(0, k as int)),
        decreases h.items@.len() - k,
    {
        if k > 0 {
            push_char(&mut out, ',');
        }
        push_image_entry(&mut out, &h.items[k]);
        proof {
            assert(h@[k as int] == h.items@[k as int]@);
            lemma_render_image_entries_snoc(h@.subrange(0, k as int), h@[k as int]);
            assert(h@.subrange(0, k as int).push(h@[k as int]) =~= h@.subrange(
                0,
                (k as int) + 1,
            ));
            assert(out@ =~= open_part + render_image_entries(h@.subrange(0, (k as int) + 1)));
        }
        k = k + 1;
    }
    push_char(&mut out, ']');
    push_char(&mut out, '}');
    proof {
        assert(h@.subrange(0, h@.len() as int) =~= h@);
        assert(out@ =~= render_image_doc(h@));
    }
    out
}

// ---------- the reader: low-level ----------

/// The first position at or after `i` without whitespace.
fn skip_ws_x(cs: &Vec<char>, i: usize) -> (j: usize)
    requires
        i <= cs@.len(),
    ensures
        j as int == skip_ws(cs@, i as int),
        i <= j <= cs@.len(),
{
    let mut j = i;
    while j < cs.len() && (cs[j] == ' ' || cs[j] == '\n' || cs[j] == '\r' || cs[j] == '\t')
        invariant
            i <= j <= cs@.len(),
            skip_ws(cs@, i as int) == skip_ws(cs@, j as int),
        decreases cs@.len() - j,
    {
        j = j + 1;
    }
    j
}

/// Skips whitespace, then consumes the one character `c`.
fn expect_ch_x(cs: &Vec<char>, i: usize, c: char) -> (r: Option<usize>)
    requires
        i <= cs@.len(),
    ensures
        r matches Some(j) ==> expect_tok(cs@, i as int, seq![c]) == Some(j as int) && i < j
            <= cs@.len(),
        r is None ==> expect_tok(cs@, i as int, seq![c]) is None,
{
    let j = skip_ws_x(cs, i);
    if j < cs.len() && cs[j] == c {
        proof {
            assert(cs@.subrange(j as int, (j as int) + 1) =~= seq![c]);
        }
        Some(j + 1)
    } else {
        proof {
            if j < cs@.len() {
                assert(cs@.subrange(j as int, (j as int) + 1)[0] == cs@[j as int]);
            }
        }
        None
    }
}

/// Skips whitespace, then consumes the exact characters of `lit`.
fn expect_key_x(cs: &Vec<char>, i: usize, lit: &Vec<char>) -> (r: Option<usize>)
    requires
        i <= cs@.len(),
        lit@.len() >= 1,
    ensures
        r matches Some(j) ==> expect_tok(cs@, i as int, lit@) == Some(j as int) && i < j
            <= cs@.len(),
        r is None ==> expect_tok(cs@, i as int, lit@) is None,
{
    let j = skip_ws_x(cs, i);
    if cs.len() - j < lit.len() {
        return None;
    }
    let n = cs.len();
    let mut k: usize = 0;
    while k < lit.len()
        invariant
            n == cs@.len(),
            j + lit@.len() <= cs@.len(),
            k <= lit@.len(),
            j as int == skip_ws(cs@, i as int),
            i <= j,
            forall|t: int| 0 <= t < k ==> cs@[j + t] == lit@[t],
        decreases lit@.len() - k,
    {
        proof {
            assert(j + k < cs@.len());
        }
        if cs[j + k] != lit[k] {
            proof {
                assert(cs@.subrange(j as int, j + lit@.len())[k as int] == cs@[j + k]);
            }
            return None;
        }
        k = k + 1;
    }
    proof {
        assert(cs@.subrange(j as int, j + lit@.len()) =~= lit@);
    }
    Some(j + lit.len())
}

/// The quoted member name `items` as characters.
fn key_items_x() -> (v: Vec<char>)
    ensures
        v@ == key_items(),
{
    let v = vec!['"', 'i', 't', 'e', 'm', 's', '"'];
    proof {
        assert(v@ =~= key_items());
    }
    v
}

/// The quoted member name `message` as characters.
fn key_message_x() -> (v: Vec<char>)
    ensures
        v@ == key_message(),
{
    let v = vec!['"', 'm', 'e', 's', 's', 'a', 'g', 'e', '"'];
    proof {
        assert(v@ =~= key_message());
    }
    v
}

/// The quoted member name `description` as characters.
fn key_description_x() -> (v: Vec<char>)
    ensures
        v@ == key_description(),
{
    let v = vec!['"', 'd', 'e', 's', 'c', 'r', 'i', 'p', 't', 'i', 'o', 'n', '"'];
    proof {
        assert(v@ =~= key_description());
    }
    v
}

/// The quoted member name `width` as characters.
fn key_width_x() -> (v: Vec<char>)
    ensures
        v@ == key_width(),
{
    let v = vec!['"', 'w', 'i', 'd', 't', 'h', '"'];
    proof {
        assert(v@ =~= key_width());
    }
    v
}

/// The quoted member name `height` as characters.
fn key_height_x() -> (v: Vec<char>)
    ensures
        v@ == key_height(),
{
    let v = vec!['"', 'h', 'e', 'i', 'g', 'h', 't', '"'];
    proof {
        assert(v@ =~= key_height());
    }
    v
}

/// The quoted member name `bytes` as characters.
fn key_bytes_x() -> (v: Vec<char>)
    ensures
        v@ == key_bytes(),
{
    let v = vec!['"', 'b', 'y', 't', 'e', 's', '"'];
    proof {
        assert(v@ =~= key_bytes());
    }
    v
}

/// The value of a lower-case hexadecimal digit character.
fn hex_val_x(c: char) -> (v: u32)
    requires
        is_hex(c),
    ensures
        v as int == hex_val(c),
        v < 16,
{
    let u = c as u32;
    if u <= 57 {
        u - 48
    } else {
        u - 87
    }
}

/// Consumes the body of a string value up to and over its closing quote.
fn parse_string_body_x(cs: &Vec<char>, i: usize) -> (r: Option<(Vec<char>, usize)>)
    ensures
        r matches Some(p) ==> parse_string_body(cs@, i as int) == Some((p.0@, p.1 as int)) && i
            < p.1 <= cs@.len(),
        r is None ==> parse_string_body(cs@, i as int) is None,
    decreases cs@.len() - i,
{
    if i >= cs.len() {
        return None;
    }
    let c = cs[i];
    if c == '"' {
        let v: Vec<char> = Vec::new();
        proof {
            assert(v@ =~= Seq::<char>::empty());
        }
        Some((v, i + 1))
    } else if c == '\\' {
        if i + 1 >= cs.len() {
            return None;
        }
        let e = cs[i + 1];
        if e == 'u' {
            if cs.len() - i <= 5 {
                return None;
            }
            if !(cs[i + 2] == '0' && cs[i + 3] == '0') {
                return None;
            }
            let h1 = cs[i + 4];
            let h2 = cs[i + 5];
            let h1_hex = (h1 as u32 >= 48 && h1 as u32 <= 57) || (h1 as u32 >= 97 && h1 as u32
                <= 102);
            let h2_hex = (h2 as u32 >= 48 && h2 as u32 <= 57) || (h2 as u32 >= 97 && h2 as u32
                <= 102);
            if !h1_hex || !h2_hex {
                return None;
            }
            let v32 = hex_val_x(h1) * 16 + hex_val_x(h2);
            let d = (v32 as u8) as char;
            match parse_string_body_x(cs, i + 6) {
                None => None,
                Some((tail, j)) => {
                    let ghost tail0 = tail@;
                    let mut out = tail;
                    out.insert(0, d);
                    proof {
                        assert(out@ =~= seq![d] + tail0);
                    }
                    Some((out, j))
                },
            }
        } else {
            let dec = if e == '"' {
                Some('"')
            } else if e == '\\' {
                Some('\\')
            } else if e == '/' {
                Some('/')
            } else if e == 'n' {
                Some('\n')
            } else if e == 'r' {
                Some('\r')
            } else if e == 't' {
                Some('\t')
            } else if e == 'b' {
                Some('\u{8}')
            } else if e == 'f' {
                Some('\u{c}')
            } else {
                None
            };
            match dec {
                None => None,
                Some(d) => match parse_string_body_x(cs, i + 2) {
                    None => None,
                    Some((tail, j)) => {
                        let ghost tail0 = tail@;
                        let mut out = tail;
                        out.insert(0, d);
                        proof {
                            assert(out@ =~= seq![d] + tail0);
                        }
                        Some((out, j))
                    },
                },
            }
        }
    } else {
        match parse_string_body_x(cs, i + 1) {
            None => None,
            Some((tail, j)) => {
                let ghost tail0 = tail@;
                let mut out = tail;
                out.insert(0, c);
                proof {
                    assert(out@ =~= seq![c] + tail0);
                }
                Some((out, j))
            },
        }
    }
}

/// Consumes a run of at most ten decimal digits and yields its value.
fn parse_number_x(cs: &Vec<char>, i: usize) -> (r: Option<(u64, usize)>)
    requires
        i <= cs@.len(),
    ensures
        r matches Some(p) ==> parse_number(cs@, i as int) == Some((p.0 as int, p.1 as int)) && i
            < p.1 <= cs@.len(),
        r is None ==> parse_number(cs@, i as int) is None,
{
    proof {
        lemma_digit_run_bounds(cs@, i as int);
    }
    let mut e = i;
    while e < cs.len() && (cs[e] as u32) >= 48 && (cs[e] as u32) <= 57
        invariant
            i <= e <= cs@.len(),
            digit_run_end(cs@, i as int) == digit_run_end(cs@, e as int),
        decreases cs@.len() - e,
    {
        e = e + 1;
    }
    proof {
        assert(digit_run_end(cs@, e as int) == e as int);
        lemma_digit_run_bounds(cs@, i as int);
    }
    if e == i || e - i > 10 {
        return None;
    }
    proof {
        reveal_with_fuel(pow10, 12);
        assert(pow10(10) == 10000000000);
        assert(cs@.subrange(i as int, i as int) =~= Seq::<char>::empty());
    }
    let mut val: u64 = 0;
    let mut k = i;
    while k < e
        invariant
            i <= k <= e <= cs@.len(),
            e - i <= 10,
            e as int == digit_run_end(cs@, i as int),
            forall|t: int| i <= t < e ==> is_digit(cs@[t]),
            val as int == digits_value(cs@.subrange(i as int, k as int)),
            (val as int) < pow10((k as int) - (i as int)),
            pow10(10) == 10000000000,
        decreases e - k,
    {
        let c = cs[k];
        let d = (c as u32 - 48) as u64;
        proof {
            lemma_pow10_mono((k as int) - (i as int), 9);
            assert(pow10(9) <= pow10(10));
            assert(pow10(((k as int) - (i as int)) + 1) == 10 * pow10(
                (k as int) - (i as int),
            ));
        }
        val = val * 10 + d;
        k = k + 1;
        proof {
            assert(cs@.subrange(i as int, k as int).drop_last() =~= cs@.subrange(
                i as int,
                (k as int) - 1,
            ));
            assert(cs@.subrange(i as int, k as int).last() == cs@[(k as int) - 1]);
        }
    }
    proof {
        assert(cs@.subrange(i as int, e as int) =~= cs@.subrange(i as int, k as int));
    }
    Some((val, e))
}

/// Consumes one number within `u32` range, after optional whitespace.
fn parse_u32_x(cs: &Vec<char>, i: usize) -> (r: Option<(u32, usize)>)
    requires
        i <= cs@.len(),
    ensures
        r matches Some(p) ==> parse_u32(cs@, i as int) == Some((p.0, p.1 as int)) && i < p.1
            <= cs@.len(),
        r is None ==> parse_u32(cs@, i as int) is None,
{
    let j = skip_ws_x(cs, i);
    match parse_number_x(cs, j) {
        None => None,
        Some((v, e)) => {
            if v <= 0xffff_ffff {
                Some((v as u32, e))
            } else {
                None
            }
        },
    }
}

/// Consumes one number within byte range, after optional whitespace.
fn parse_byte_x(cs: &Vec<char>, i: usize) -> (r: Option<(u8, usize)>)
    requires
        i <= cs@.len(),
    ensures
        r matches Some(p) ==> parse_byte(cs@, i as int) == Some((p.0, p.1 as int)) && i < p.1
            <= cs@.len(),
        r is None ==> parse_byte(cs@, i as int) is None,
{
    let j = skip_ws_x(cs, i);
    match parse_number_x(cs, j) {
        None => None,
        Some((v, e)) => {
            if v <= 255 {
                Some((v as u8, e))
            } else {
                None
            }
        },
    }
}

// ---------- the reader: documents ----------

/// Consumes one text entry object.
fn parse_entry_x(cs: &Vec<char>, i: usize) -> (r: Option<(Entry, usize)>)
    requires
        i <= cs@.len(),
    ensures
        r matches Some(p) ==> parse_entry(cs@, i as int) == Some((p.0@, p.1 as int)) && i < p.1
            <= cs@.len(),
        r is None ==> parse_entry(cs@, i as int) is None,
{
    let i1 = match expect_ch_x(cs, i, '{') {
        Some(j) => j,
        None => {
            return None;
        },
    };
    let key_m = key_message_x();
    let i2 = match expect_key_x(cs, i1, &key_m) {
        Some(j) => j,
        None => {
            return None;
        },
    };
    let i3 = match expect_ch_x(cs, i2, ':') {
        Some(j) => j,
        None => {
            return None;
        },
    };
    let i4 = match expect_ch_x(cs, i3, '"') {
        Some(j) => j,
        None => {
            return None;
        },
    };
    let (msg, i5) = match parse_string_body_x(cs, i4) {
        Some(p) => p,
        None => {
            return None;
        },
    };
    let i6 = match expect_ch_x(cs, i5, ',') {
        Some(j) => j,
        None => {
            return None;
        },
    };
    let key_d = key_description_x();
    let i7 = match expect_key_x(cs, i6, &key_d) {
        Some(j) => j,
        None => {
            return None;
        },
    };
    let i8 = match expect_ch_x(cs, i7, ':') {
        Some(j) => j,
        None => {
            return None;
        },
    };
    let i9 = match expect_ch_x(cs, i8, '"') {
        Some(j) => j,
        None => {
            return None;
        },
    };
    let (desc, i10) = match parse_string_body_x(cs, i9) {
        Some(p) => p,
        None => {
            return None;
        },
    };
    let i11 = match expect_ch_x(cs, i10, '}') {
        Some(j) => j,
        None => {
            return None;
        },
    };
    let e = Entry { message: string_from_chars(&msg), description: string_from_chars(&desc) };
    Some((e, i11))
}

/// Consumes the contents of the `items` array of a text history.
fn parse_entries_x(cs: &Vec<char>, i: usize) -> (r: Option<(Vec<Entry>, usize)>)
    requires
        i <= cs@.len(),
    ensures
        r matches Some(p) ==> parse_entries(cs@, i as int) == Some(
            (entries_model(p.0@), p.1 as int),
        ) && i < p.1 <= cs@.len(),
        r is None ==> parse_entries(cs@, i as int) is None,
{
    match expect_ch_x(cs, i, ']') {
        Some(j) => {
            let v: Vec<Entry> = Vec::new();
            proof {
                assert(entries_model(v@) =~= Seq::<EntryModel>::empty());
            }
            return Some((v, j));
        },
        None => {},
    }
    let (first, i1) = match parse_entry_x(cs, i) {
        Some(p) => p,
        None => {
            return None;
        },
    };
    let mut acc: Vec<Entry> = Vec::new();
    acc.push(first);
    let mut cur = i1;
    proof {
        assert(entries_model(acc@) =~= seq![acc@[0]@]);
    }
    loop
        invariant
            i < cur <= cs@.len(),
            parse_entries(cs@, i as int) == (match parse_more_entries(cs@, cur as int) {
                Some((rest, j)) => Some((entries_model(acc@) + rest, j)),
                None => None::<(Seq<EntryModel>, int)>,
            }),
        decreases cs@.len() - cur,
    {
        match expect_ch_x(cs, cur, ']') {
            Some(j) => {
                proof {
                    assert(entries_model(acc@) + Seq::<EntryModel>::empty() =~= entries_model(
                        acc@,
                    ));
                }
                return Some((acc, j));
            },
            None => {},
        }
        let c1 = match expect_ch_x(cs, cur, ',') {
            Some(j) => j,
            None => {
                return None;
            },
        };
        let (e, i2) = match parse_entry_x(cs, c1) {
            Some(p) => p,
            None => {
                return None;
            },
        };
        let ghost acc0 = acc@;
        acc.push(e);
        proof {
            assert(entries_model(acc@) =~= entries_model(acc0) + seq![e@]);
            match parse_more_entries(cs@, i2 as int) {
                Some((rest, j)) => {
                    assert(entries_model(acc0) + (seq![e@] + rest) =~= entries_model(acc@)
                        + rest);
                },
                None => {},
            }
        }
        cur = i2;
    }
}

/// Reads a text history document: the entries it holds, or nothing when
/// the document is malformed.
pub fn parse_history(doc: &str) -> (r: Option<History>)
    ensures
        r matches Some(h) ==> parse_doc(doc@) == Some(h@),
        r is None ==> parse_doc(doc@) is None,
{
    let cs = chars_of(doc);
    let i1 = match expect_ch_x(&cs, 0, '{') {
        Some(j) => j,
        None => {
            return None;
        },
    };
    let key = key_items_x();
    let i2 = match expect_key_x(&cs, i1, &key) {
        Some(j) => j,
        None => {
            return None;
        },
    };
    let i3 = match expect_ch_x(&cs, i2, ':') {
        Some(j) => j,
        None => {
            return None;
        },
    };
    let i4 = match expect_ch_x(&cs, i3, '[') {
        Some(j) => j,
        None => {
            return None;
        },
    };
    let (items, i5) = match parse_entries_x(&cs, i4) {
        Some(p) => p,
        None => {
            return None;
        },
    };
    let i6 = match expect_ch_x(&cs, i5, '}') {
        Some(j) => j,
        None => {
            return None;
        },
    };
    let j = skip_ws_x(&cs, i6);
    if j != cs.len() {
        return None;
    }
    Some(History { items })
}

/// Consumes the contents of a byte array.
fn parse_byte_list_x(cs: &Vec<char>, i: usize) -> (r: Option<(Vec<u8>, usize)>)
    requires
        i <= cs@.len(),
    ensures
        r matches Some(p) ==> parse_byte_list(cs@, i as int) == Some((p.0@, p.1 as int)) && i
            < p.1 <= cs@.len(),
        r is None ==> parse_byte_list(cs@, i as int) is None,
{
    match expect_ch_x(cs, i, ']') {
        Some(j) => {
            let v: Vec<u8> = Vec::new();
            proof {
                assert(v@ =~= Seq::<u8>::empty());
            }
            return Some((v, j));
        },
        None => {},
    }
    let (first, i1) = match parse_byte_x(cs, i) {
        Some(p) => p,
        None => {
            return None;
        },
    };
    let mut acc: Vec<u8> = Vec::new();
    acc.push(first);
    let mut cur = i1;
    proof {
        assert(acc@ =~= seq![first]);
    }
    loop
        invariant
            i < cur <= cs@.len(),
            parse_byte_list(cs@, i as int) == (match parse_more_bytes(cs@, cur as int) {
                Some((rest, j)) => Some((acc@ + rest, j)),
                None => None::<(Seq<u8>, int)>,
            }),
        decreases cs@.len() - cur,
    {
        match expect_ch_x(cs, cur, ']') {
            Some(j) => {
                proof {
                    assert(acc@ + Seq::<u8>::empty() =~= acc@);
                }
                return Some((acc, j));
            },
            None => {},
        }
        let c1 = match expect_ch_x(cs, cur, ',') {
            Some(j) => j,
            None => {
                return None;
            },
        };
        let (b, i2) = match parse_byte_x(cs, c1) {
            Some(p) => p,
            None => {
                return None;
            },
        };
        let ghost acc0 = acc@;
        acc.push(b);
        proof {
            match parse_more_bytes(cs@, i2 as int) {
                Some((rest, j)) => {
                    assert(acc0 + (seq![b] + rest) =~= acc@ + rest);
                },
                None => {},
            }
        }
        cur = i2;
    }
}

/// Consumes one image entry object.
fn parse_image_entry_x(cs: &Vec<char>, i: usize) -> (r: Option<(ImageEntry, usize)>)
    requires
        i <= cs@.len(),
    ensures
        r matches Some(p) ==> parse_image_entry(cs@, i as int) == Some((p.0@, p.1 as int)) && i
            < p.1 <= cs@.len(),
        r is None ==> parse_image_entry(cs@, i as int) is None,
{
    let i1 = match expect_ch_x(cs, i, '{') {
        Some(j) => j,
        None => {
            return None;
        },
    };
    let key_w = key_width_x();
    let i2 = match expect_key_x(cs, i1, &key_w) {
        Some(j) => j,
        None => {
            return None;
        },
    };
    let i3 = match expect_ch_x(cs, i2, ':') {
        Some(j) => j,
        None => {
            return None;
        },
    };
    let (w, i4) = match parse_u32_x(cs, i3) {
        Some(p) => p,
        None => {
            return None;
        },
    };
    let i5 = match expect_ch_x(cs, i4, ',') {
        Some(j) => j,
        None => {
            return None;
        },
    };
    let key_h = key_height_x();
    let i6 = match expect_key_x(cs, i5, &key_h) {
        Some(j) => j,
        None => {
            return None;
        },
    };
    let i7 = match expect_ch_x(cs, i6, ':') {
        Some(j) => j,
        None => {
            return None;
        },
    };
    let (h, i8) = match parse_u32_x(cs, i7) {
        Some(p) => p,
        None => {
            return None;
        },
    };
    let i9 = match expect_ch_x(cs, i8, ',') {
        Some(j) => j,
        None => {
            return None;
        },
    };
    let key_b = key_bytes_x();
    let i10 = match expect_key_x(cs, i9, &key_b) {
        Some(j) => j,
        None => {
            return None;
        },
    };
    let i11 = match expect_ch_x(cs, i10, ':') {
        Some(j) => j,
        None => {
            return None;
        },
    };
    let i12 = match expect_ch_x(cs, i11, '[') {
        Some(j) => j,
        None => {
            return None;
        },
    };
    let (bytes, i13) = match parse_byte_list_x(cs, i12) {
        Some(p) => p,
        None => {
            return None;
        },
    };
    let i14 = match expect_ch_x(cs, i13, '}') {
        Some(j) => j,
        None => {
            return None;
        },
    };
    Some((ImageEntry { width: w, height: h, bytes }, i14))
}

/// Consumes the contents of the `items` array of an image history.
fn parse_image_entries_x(cs: &Vec<char>, i: usize) -> (r: Option<(Vec<ImageEntry>, usize)>)
    requires
        i <= cs@.len(),
    ensures
        r matches Some(p) ==> parse_image_entries(cs@, i as int) == Some(
            (images_model(p.0@), p.1 as int),
        ) && i < p.1 <= cs@.len(),
        r is None ==> parse_image_entries(cs@, i as int) is None,
{
    match expect_ch_x(cs, i, ']') {
        Some(j) => {
            let v: Vec<ImageEntry> = Vec::new();
            proof {
                assert(images_model(v@) =~= Seq::<ImageModel>::empty());
            }
            return Some((v, j));
        },
        None => {},
    }
    let (first, i1) = match parse_image_entry_x(cs, i) {
        Some(p) => p,
        None => {
            return None;
        },
    };
    let mut acc: Vec<ImageEntry> = Vec::new();
    acc.push(first);
    let mut cur = i1;
    proof {
        assert(images_model(acc@) =~= seq![acc@[0]@]);
    }
    loop
        invariant
            i < cur <= cs@.len(),
            parse_image_entries(cs@, i as int) == (match parse_more_image_entries(
                cs@,
                cur as int,
            ) {
                Some((rest, j)) => Some((images_model(acc@) + rest, j)),
                None => None::<(Seq<ImageModel>, int)>,
            }),
        decreases cs@.len() - cur,
    {
        match expect_ch_x(cs, cur, ']') {
            Some(j) => {
                proof {
                    assert(images_model(acc@) + Seq::<ImageModel>::empty() =~= images_model(
                        acc@,
                    ));
                }
                return Some((acc, j));
            },
            None => {},
        }
        let c1 = match expect_ch_x(cs, cur, ',') {
            Some(j) => j,
            None => {
                return None;
            },
        };
        let (e, i2) = match parse_image_entry_x(cs, c1) {
            Some(p) => p,
            None => {
                return None;
            },
        };
        let ghost acc0 = acc@;
        acc.push(e);
        proof {
            assert(images_model(acc@) =~= images_model(acc0) + seq![e@]);
            match parse_more_image_entries(cs@, i2 as int) {
                Some((rest, j)) => {
                    assert(images_model(acc0) + (seq![e@] + rest) =~= images_model(acc@) + rest);
                },
                None => {},
            }
        }
        cur = i2;
    }
}

/// Reads an image history document: the entries it holds, or nothing when
/// the document is malformed.
pub fn parse_image_history(doc: &str) -> (r: Option<ImageHistory>)
    ensures
        r matches Some(h) ==> parse_image_doc(doc@) == Some(h@),
        r is None ==> parse_image_doc(doc@) is None,
{
    let cs = chars_of(doc);
    let i1 = match expect_ch_x(&cs, 0, '{') {
        Some(j) => j,
        None => {
            return None;
        },
    };
    let key = key_items_x();
    let i2 = match expect_key_x(&cs, i1, &key) {
        Some(j) => j,
        None => {
            return None;
        },
    };
    let i3 = match expect_ch_x(&cs, i2, ':') {
        Some(j) => j,
        None => {
            return None;
        },
    };
    let i4 = match expect_ch_x(&cs, i3, '[') {
        Some(j) => j,
        None => {
            return None;
        },
    };
    let (items, i5) = match parse_image_entries_x(&cs, i4) {
        Some(p) => p,
        None => {
            return None;
        },
    };
    let i6 = match expect_ch_x(&cs, i5, '}') {
        Some(j) => j,
        None => {
            return None;
        },
    };
    let j = skip_ws_x(&cs, i6);
    if j != cs.len() {
        return None;
    }
    Some(ImageHistory { items })
}

} // verus!
