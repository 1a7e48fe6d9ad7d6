//! The decisions of the local HTTP server that shows HTML presentations:
//! content types, URL path decoding, which file a request names, and the
//! search for a free port.

use vstd::prelude::*;
use vstd::string::StringExecFns;
use vstd::utf8::{
    decode_utf8, encode_scalar, encode_utf8, has_width_1_encoding, is_ascii_chars, valid_utf8,
};
use crate::cli::{ascii_lowercase, lowercase, to_lowercase};
use crate::paths::{extension_of, path_extension, path_starts_with, path_within};
use crate::text::{chars_of, chars_equal, copy_range, push_decimal, decimal, string_from_chars};

verus! {

// ---------------------------------------------------------------------------
// Content types
// ---------------------------------------------------------------------------

/// The content type for an already lowercased extension.
pub open spec fn mime_for(ext: Option<Seq<char>>) -> Seq<char> {
    match ext {
        Some(e) => if e == seq!['h', 't', 'm', 'l'] || e == seq!['h', 't', 'm'] {
            "text/html; charset=utf-8"@
        } else if e == seq!['c', 's', 's'] {
            "text/css; charset=utf-8"@
        } else if e == seq!['j', 's'] || e == seq!['m', 'j', 's'] {
            "application/javascript; charset=utf-8"@
        } else if e == seq!['j', 's', 'o', 'n'] {
            "application/json; charset=utf-8"@
        } else if e == seq!['p', 'n', 'g'] {
            "image/png"@
        } else if e == seq!['j', 'p', 'g'] || e == seq!['j', 'p', 'e', 'g'] {
            "image/jpeg"@
        } else if e == seq!['g', 'i', 'f'] {
            "image/gif"@
        } else if e == seq!['s', 'v', 'g'] {
            "image/svg+xml"@
        } else if e == seq!['i', 'c', 'o'] {
            "image/x-icon"@
        } else if e == seq!['w', 'e', 'b', 'p'] {
            "image/webp"@
        } else if e == seq!['w', 'o', 'f', 'f'] {
            "font/woff"@
        } else if e == seq!['w', 'o', 'f', 'f', '2'] {
            "font/woff2"@
        } else if e == seq!['t', 't', 'f'] {
            "font/ttf"@
        } else if e == seq!['o', 't', 'f'] {
            "font/otf"@
        } else if e == seq!['m', 'p', '4'] {
            "video/mp4"@
        } else if e == seq!['w', 'e', 'b', 'm'] {
            "video/webm"@
        } else if e == seq!['x', 'm', 'l'] {
            "application/xml"@
        } else if e == seq!['t', 'x', 't'] {
            "text/plain; charset=utf-8"@
        } else {
            "application/octet-stream"@
        },
        None => "application/octet-stream"@,
    }
}

/// The content types by extension: `html`/`htm` HTML, `css` CSS, `js`/`mjs`
/// JavaScript, `json`, `png`, `jpg`/`jpeg`, `gif`, `svg`, `ico`, `webp`,
/// `woff`, `woff2`, `ttf`, `otf`, `mp4`, `webm`, `xml`, `txt` their types, and
/// any other extension, or none, `application/octet-stream`.
pub proof fn law_mime_types(ext: Option<Seq<char>>)
    ensures
        (ext == Some(seq!['h', 't', 'm', 'l']) || ext == Some(seq!['h', 't', 'm'])) ==> mime_for(ext) == "text/html; charset=utf-8"@,
        (ext == Some(seq!['c', 's', 's'])) ==> mime_for(ext) == "text/css; charset=utf-8"@,
        (ext == Some(seq!['j', 's']) || ext == Some(seq!['m', 'j', 's'])) ==> mime_for(ext) == "application/javascript; charset=utf-8"@,
        (ext == Some(seq!['j', 's', 'o', 'n'])) ==> mime_for(ext) == "application/json; charset=utf-8"@,
        (ext == Some(seq!['p', 'n', 'g'])) ==> mime_for(ext) == "image/png"@,
        (ext == Some(seq!['j', 'p', 'g']) || ext == Some(seq!['j', 'p', 'e', 'g'])) ==> mime_for(ext) == "image/jpeg"@,
        (ext == Some(seq!['g', 'i', 'f'])) ==> mime_for(ext) == "image/gif"@,
        (ext == Some(seq!['s', 'v', 'g'])) ==> mime_for(ext) == "image/svg+xml"@,
        (ext == Some(seq!['i', 'c', 'o'])) ==> mime_for(ext) == "image/x-icon"@,
        (ext == Some(seq!['w', 'e', 'b', 'p'])) ==> mime_for(ext) == "image/webp"@,
        (ext == Some(seq!['w', 'o', 'f', 'f'])) ==> mime_for(ext) == "font/woff"@,
        (ext == Some(seq!['w', 'o', 'f', 'f', '2'])) ==> mime_for(ext) == "font/woff2"@,
        (ext == Some(seq!['t', 't', 'f'])) ==> mime_for(ext) == "font/ttf"@,
        (ext == Some(seq!['o', 't', 'f'])) ==> mime_for(ext) == "font/otf"@,
        (ext == Some(seq!['m', 'p', '4'])) ==> mime_for(ext) == "video/mp4"@,
        (ext == Some(seq!['w', 'e', 'b', 'm'])) ==> mime_for(ext) == "video/webm"@,
        (ext == Some(seq!['x', 'm', 'l'])) ==> mime_for(ext) == "application/xml"@,
        (ext == Some(seq!['t', 'x', 't'])) ==> mime_for(ext) == "text/plain; charset=utf-8"@,
        (ext != Some(seq!['h', 't', 'm', 'l']) && ext != Some(seq!['h', 't', 'm']) && ext != Some(seq!['c', 's', 's']) && ext != Some(seq!['j', 's']) && ext != Some(seq!['m', 'j', 's']) && ext != Some(seq!['j', 's', 'o', 'n']) && ext != Some(seq!['p', 'n', 'g']) && ext != Some(seq!['j', 'p', 'g']) && ext != Some(seq!['j', 'p', 'e', 'g']) && ext != Some(seq!['g', 'i', 'f']) && ext != Some(seq!['s', 'v', 'g']) && ext != Some(seq!['i', 'c', 'o']) && ext != Some(seq!['w', 'e', 'b', 'p']) && ext != Some(seq!['w', 'o', 'f', 'f']) && ext != Some(seq!['w', 'o', 'f', 'f', '2']) && ext != Some(seq!['t', 't', 'f']) && ext != Some(seq!['o', 't', 'f']) && ext != Some(seq!['m', 'p', '4']) && ext != Some(seq!['w', 'e', 'b', 'm']) && ext != Some(seq!['x', 'm', 'l']) && ext != Some(seq!['t', 'x', 't'])) ==> mime_for(ext) == "application/octet-stream"@,
{
    if ext == Some(seq!['j', 's', 'o', 'n']) {
        assert(seq!['j', 's', 'o', 'n'].len() == 4);
        assert(seq!['j', 's', 'o', 'n'] != seq!['j', 's']);
        assert(seq!['j', 's', 'o', 'n'] != seq!['m', 'j', 's']);
    }
    if ext == Some(seq!['w', 'o', 'f', 'f', '2']) {
        assert(seq!['w', 'o', 'f', 'f', '2'].len() == 5);
        assert(seq!['w', 'o', 'f', 'f', '2'] != seq!['w', 'o', 'f', 'f']);
    }
        reveal_strlit("text/html; charset=utf-8");
        reveal_strlit("text/css; charset=utf-8");
        reveal_strlit("application/javascript; charset=utf-8");
        reveal_strlit("application/json; charset=utf-8");
        reveal_strlit("image/png");
        reveal_strlit("image/jpeg");
        reveal_strlit("image/gif");
        reveal_strlit("image/svg+xml");
        reveal_strlit("image/x-icon");
        reveal_strlit("image/webp");
        reveal_strlit("font/woff");
        reveal_strlit("font/woff2");
        reveal_strlit("font/ttf");
        reveal_strlit("font/otf");
        reveal_strlit("video/mp4");
        reveal_strlit("video/webm");
        reveal_strlit("application/xml");
        reveal_strlit("text/plain; charset=utf-8");
        reveal_strlit("application/octet-stream");
}

/// The content type for an already lowercased extension (`None` when the
/// file name has none).
pub fn mime_for_extension(ext: Option<&Vec<char>>) -> (m: &'static str)
    ensures
        m@ == mime_for(
            match ext {
                Some(e) => Some(e@),
                None => None,
            },
        ),
{
    let e = match ext {
        Some(e) => e,
        None => {
            return "application/octet-stream";
        },
    };
    if chars_equal(e, &vec!['h', 't', 'm', 'l']) || chars_equal(e, &vec!['h', 't', 'm']) {
        "text/html; charset=utf-8"
    } else if chars_equal(e, &vec!['c', 's', 's']) {
        "text/css; charset=utf-8"
    } else if chars_equal(e, &vec!['j', 's']) || chars_equal(e, &vec!['m', 'j', 's']) {
        "application/javascript; charset=utf-8"
    } else if chars_equal(e, &vec!['j', 's', 'o', 'n']) {
        "application/json; charset=utf-8"
    } else if chars_equal(e, &vec!['p', 'n', 'g']) {
        "image/png"
    } else if chars_equal(e, &vec!['j', 'p', 'g']) || chars_equal(e, &vec!['j', 'p', 'e', 'g']) {
        "image/jpeg"
    } else if chars_equal(e, &vec!['g', 'i', 'f']) {
        "image/gif"
    } else if chars_equal(e, &vec!['s', 'v', 'g']) {
        "image/svg+xml"
    } else if chars_equal(e, &vec!['i', 'c', 'o']) {
        "image/x-icon"
    } else if chars_equal(e, &vec!['w', 'e', 'b', 'p']) {
        "image/webp"
    } else if chars_equal(e, &vec!['w', 'o', 'f', 'f']) {
        "font/woff"
    } else if chars_equal(e, &vec!['w', 'o', 'f', 'f', '2']) {
        "font/woff2"
    } else if chars_equal(e, &vec!['t', 't', 'f']) {
        "font/ttf"
    } else if chars_equal(e, &vec!['o', 't', 'f']) {
        "font/otf"
    } else if chars_equal(e, &vec!['m', 'p', '4']) {
        "video/mp4"
    } else if chars_equal(e, &vec!['w', 'e', 'b', 'm']) {
        "video/webm"
    } else if chars_equal(e, &vec!['x', 'm', 'l']) {
        "application/xml"
    } else if chars_equal(e, &vec!['t', 'x', 't']) {
        "text/plain; charset=utf-8"
    } else {
        "application/octet-stream"
    }
}

/// The content type of a file, by its lowercased extension.
pub open spec fn guess_mime_type_spec(path: Seq<char>) -> Seq<char> {
    mime_for(
        match path_extension(path) {
            Some(e) => Some(lowercase(e)),
            None => None,
        },
    )
}

/// Guesses the MIME type of a file based on its extension.
pub fn guess_mime_type(path: &str) -> (m: &'static str)
    ensures
        m@ == guess_mime_type_spec(path@),
        path_extension(path@) matches Some(e) ==> (is_ascii_chars(e) ==> m@ == mime_for(
            Some(ascii_lowercase(e)),
        )),
{
    let chars = chars_of(path);
    match extension_of(&chars) {
        Some(ext) => {
            assert(ext.deep_view() =~= ext@);
            let lowered = to_lowercase(string_from_chars(&ext).as_str());
            let lowered_chars = chars_of(lowered.as_str());
            mime_for_extension(Some(&lowered_chars))
        },
        None => mime_for_extension(None),
    }
}

// ---------------------------------------------------------------------------
// Percent decoding
// ---------------------------------------------------------------------------

/// The value of an ASCII hexadecimal digit.
pub open spec fn hex_digit(b: u8) -> Option<u8> {
    if 0x30 <= b <= 0x39 {
        Some((b - 0x30) as u8)
    } else if 0x61 <= b <= 0x66 {
        Some((b - 0x61 + 10) as u8)
    } else if 0x41 <= b <= 0x46 {
        Some((b - 0x41 + 10) as u8)
    } else {
        None
    }
}

/// The byte that the two characters after a `%` stand for: two hexadecimal
/// digits; anything else is no escape, and is left as it is.
pub open spec fn hex_pair(b1: u8, b2: u8) -> Option<u8> {
    match (hex_digit(b1), hex_digit(b2)) {
        (Some(h), Some(l)) => Some((16 * h + l) as u8),
        _ => None,
    }
}

/// The bytes `b[i..]` with every `%XX` escape that has two more bytes after
/// the `%` (and is a valid hexadecimal pair) replaced by the byte it stands for.
pub open spec fn unescape_from(b: Seq<u8>, i: int) -> Seq<u8>
    decreases b.len() - i,
{
    if i < 0 || i >= b.len() {
        Seq::empty()
    } else if b[i] == 0x25 && i + 2 < b.len() && hex_pair(b[i + 1], b[i + 2]) is Some {
        seq![hex_pair(b[i + 1], b[i + 2])->0] + unescape_from(b, i + 3)
    } else {
        seq![b[i]] + unescape_from(b, i + 1)
    }
}

/// The text that a byte sequence decodes to with `String::from_utf8_lossy`
/// (invalid sequences become U+FFFD).
pub uninterp spec fn utf8_lossy(bytes: Seq<u8>) -> Seq<char>;

/// `String::from_utf8_lossy`, owned. Valid UTF-8 decodes to its characters.
#[verifier::external_body]
fn from_utf8_lossy(bytes: &[u8]) -> (s: String)
    ensures
        s@ == utf8_lossy(bytes@),
        valid_utf8(bytes@) ==> s@ == decode_utf8(bytes@),
{
    String::from_utf8_lossy(bytes).into_owned()
}

/// The percent-decoded form of a URL path.
pub open spec fn percent_decode_spec(input: Seq<char>) -> Seq<char> {
    utf8_lossy(unescape_from(encode_utf8(input), 0))
}

fn hex_digit_of(b: u8) -> (r: Option<u8>)
    ensures
        r == hex_digit(b),
{
    if 0x30 <= b && b <= 0x39 {
        Some(b - 0x30)
    } else if 0x61 <= b && b <= 0x66 {
        Some(b - 0x61 + 10)
    } else if 0x41 <= b && b <= 0x46 {
        Some(b - 0x41 + 10)
    } else {
        None
    }
}

fn hex_pair_of(b1: u8, b2: u8) -> (r: Option<u8>)
    ensures
        r == hex_pair(b1, b2),
{
    match (hex_digit_of(b1), hex_digit_of(b2)) {
        (Some(h), Some(l)) => Some(16 * h + l),
        _ => None,
    }
}

/// Decodes percent-encoded characters in a URL path.
pub fn percent_decode(input: &str) -> (s: String)
    ensures
        s@ == percent_decode_spec(input@),
        (forall|k: int| 0 <= k < input@.len() ==> input@[k] != '%') ==> s@ == input@,
        valid_utf8(unescape_from(encode_utf8(input@), 0)) ==> s@ == decode_utf8(
            unescape_from(encode_utf8(input@), 0),
        ),
        forall|t: Seq<char>, upper: bool| input@ == #[trigger] percent_encoding(t, upper) ==> s@ == t,
{
    let bytes = input.as_bytes();
    let mut result: Vec<u8> = Vec::new();
    let mut i: usize = 0;
    while i < bytes.len()
        invariant
            bytes@ == encode_utf8(input@),
            i <= bytes@.len(),
            unescape_from(bytes@, 0) == result@ + unescape_from(bytes@, i as int),
        decreases bytes.len() - i,
    {
        if bytes[i] == 0x25 && bytes.len() - i > 2 {
            if let Some(decoded) = hex_pair_of(bytes[i + 1], bytes[i + 2]) {
                let ghost before = result@;
                result.push(decoded);
                assert(before + unescape_from(bytes@, i as int) =~= result@ + unescape_from(
                    bytes@,
                    i + 3,
                ));
                i = i + 3;
                continue;
            }
        }
        let ghost before = result@;
        result.push(bytes[i]);
        assert(before + unescape_from(bytes@, i as int) =~= result@ + unescape_from(
            bytes@,
            i + 1,
        ));
        i = i + 1;
    }
    assert(result@ + unescape_from(bytes@, i as int) =~= result@);
    proof {
        if forall|k: int| 0 <= k < input@.len() ==> input@[k] != '%' {
            law_percent_decode_plain_text(input@);
            vstd::utf8::encode_utf8_valid_utf8(input@);
            vstd::utf8::encode_utf8_decode_utf8(input@);
        }
    }
    let s = from_utf8_lossy(result.as_slice());
    proof {
        assert forall|t: Seq<char>, upper: bool| input@ == #[trigger] percent_encoding(t, upper) implies s@ == t by {
            law_percent_decoding_undoes_encoding(t, upper);
            vstd::utf8::encode_utf8_valid_utf8(t);
            vstd::utf8::encode_utf8_decode_utf8(t);
        }
    }
    s
}

/// The hexadecimal digit for a value below 16, in upper or lower case.
pub open spec fn hex_char(n: u8, upper: bool) -> char {
    if n == 0 { '0' } else if n == 1 { '1' } else if n == 2 { '2' } else if n == 3 { '3' }
    else if n == 4 { '4' } else if n == 5 { '5' } else if n == 6 { '6' } else if n == 7 { '7' }
    else if n == 8 { '8' } else if n == 9 { '9' }
    else if n == 10 { if upper { 'A' } else { 'a' } }
    else if n == 11 { if upper { 'B' } else { 'b' } }
    else if n == 12 { if upper { 'C' } else { 'c' } }
    else if n == 13 { if upper { 'D' } else { 'd' } }
    else if n == 14 { if upper { 'E' } else { 'e' } }
    else { if upper { 'F' } else { 'f' } }
}

/// Every byte written as `%XX` (`format!("%{:02X}", b)`, or with lowercase
/// digits).
pub open spec fn percent_encode_bytes(b: Seq<u8>, upper: bool) -> Seq<char>
    decreases b.len(),
{
    if b.len() == 0 {
        Seq::empty()
    } else {
        seq!['%', hex_char(b[0] / 16, upper), hex_char(b[0] % 16, upper)] + percent_encode_bytes(
            b.drop_first(),
            upper,
        )
    }
}

/// The full percent-encoding of a text: every byte of its UTF-8 encoding as `%XX`.
pub open spec fn percent_encoding(t: Seq<char>, upper: bool) -> Seq<char> {
    percent_encode_bytes(encode_utf8(t), upper)
}

proof fn lemma_hex_char(n: u8, upper: bool)
    requires
        n < 16,
    ensures
        '\0' <= hex_char(n, upper) <= '\u{7f}',
        hex_digit(hex_char(n, upper) as u8) == Some(n),
{
}

/// The escape of byte `k` of `b` stands at index `3 * k` of `e`.
pub open spec fn escape_at(e: Seq<char>, b: Seq<u8>, upper: bool, k: int) -> bool {
    &&& e[3 * k] == '%'
    &&& e[3 * k + 1] == hex_char(b[k] / 16, upper)
    &&& e[3 * k + 2] == hex_char(b[k] % 16, upper)
}

proof fn lemma_percent_encode_shape(b: Seq<u8>, upper: bool)
    ensures
        percent_encode_bytes(b, upper).len() == 3 * b.len(),
        forall|k: int| 0 <= k < b.len() ==> #[trigger] escape_at(percent_encode_bytes(b, upper), b, upper, k),
        forall|i: int|
            0 <= i < percent_encode_bytes(b, upper).len() ==> '\0' <= #[trigger] percent_encode_bytes(b, upper)[i] <= '\u{7f}',
    decreases b.len(),
{
    if b.len() > 0 {
        let rest = b.drop_first();
        lemma_percent_encode_shape(rest, upper);
        lemma_hex_char(b[0] / 16, upper);
        lemma_hex_char(b[0] % 16, upper);
        let e = percent_encode_bytes(b, upper);
        let er = percent_encode_bytes(rest, upper);
        assert(e == seq!['%', hex_char(b[0] / 16, upper), hex_char(b[0] % 16, upper)] + er);
        assert forall|k: int| 0 <= k < b.len() implies #[trigger] escape_at(e, b, upper, k) by {
            if k > 0 {
                assert(escape_at(er, rest, upper, k - 1));
                assert(rest[k - 1] == b[k]);
                assert(e[3 * k] == er[3 * (k - 1)]);
                assert(e[3 * k + 1] == er[3 * (k - 1) + 1]);
                assert(e[3 * k + 2] == er[3 * (k - 1) + 2]);
            }
        }
        assert forall|i: int| 0 <= i < e.len() implies '\0' <= #[trigger] e[i] <= '\u{7f}' by {
            if i >= 3 {
                assert(e[i] == er[i - 3]);
            } else if i == 0 {
                assert(e[0] == '%');
            }
        }
    }
}

proof fn lemma_unescape_encoded(e: Seq<u8>, b: Seq<u8>, upper: bool, k: int)
    requires
        0 <= k <= b.len(),
        e.len() == 3 * b.len(),
        forall|j: int|
            0 <= j < b.len() ==> {
                &&& #[trigger] e[3 * j] == 0x25
                &&& e[3 * j + 1] == hex_char(b[j] / 16, upper) as u8
                &&& e[3 * j + 2] == hex_char(b[j] % 16, upper) as u8
            },
    ensures
        unescape_from(e, 3 * k) == b.skip(k),
    decreases b.len() - k,
{
    if k < b.len() {
        lemma_unescape_encoded(e, b, upper, k + 1);
        lemma_hex_char(b[k] / 16, upper);
        lemma_hex_char(b[k] % 16, upper);
        assert(e[3 * k] == 0x25);
        assert(hex_pair(e[3 * k + 1], e[3 * k + 2]) == Some(b[k]));
        assert(3 * k + 3 == 3 * (k + 1));
        assert(seq![b[k]] + b.skip(k + 1) =~= b.skip(k));
    } else {
        assert(b.skip(k) =~= Seq::<u8>::empty());
    }
}

/// Decoding undoes full percent-encoding: the bytes of the encoded text,
/// unescaped, are the UTF-8 encoding of the text.
pub proof fn law_percent_decoding_undoes_encoding(t: Seq<char>, upper: bool)
    ensures
        unescape_from(encode_utf8(percent_encoding(t, upper)), 0) == encode_utf8(t),
{
    let b = encode_utf8(t);
    let c = percent_encoding(t, upper);
    lemma_percent_encode_shape(b, upper);
    assert(vstd::utf8::is_ascii_chars(c));
    vstd::utf8::is_ascii_chars_encode_utf8(c);
    let e = encode_utf8(c);
    assert forall|j: int| 0 <= j < b.len() implies {
        &&& #[trigger] e[3 * j] == 0x25
        &&& e[3 * j + 1] == hex_char(b[j] / 16, upper) as u8
        &&& e[3 * j + 2] == hex_char(b[j] % 16, upper) as u8
    } by {
        assert(escape_at(c, b, upper, j));
        assert(c[3 * j] == '%');
        assert(e[3 * j] == c[3 * j] as u8);
        assert(e[3 * j + 1] == c[3 * j + 1] as u8);
        assert(e[3 * j + 2] == c[3 * j + 2] as u8);
    }
    lemma_unescape_encoded(e, b, upper, 0);
    assert(b.skip(0) =~= b);
}

/// Text without any `%` decodes to itself.
pub proof fn law_percent_decode_plain_text(input: Seq<char>)
    requires
        forall|k: int| 0 <= k < input.len() ==> input[k] != '%',
    ensures
        unescape_from(encode_utf8(input), 0) == encode_utf8(input),
{
    lemma_encode_no_percent(input);
    lemma_unescape_no_percent(encode_utf8(input), 0);
    assert(encode_utf8(input).subrange(0, encode_utf8(input).len() as int) =~= encode_utf8(
        input,
    ));
}

proof fn lemma_scalar_no_percent(c: char)
    requires
        c != '%',
    ensures
        forall|k: int|
            0 <= k < encode_scalar(c as u32).len() ==> #[trigger] encode_scalar(c as u32)[k]
                != 0x25,
{
    let v = c as u32;
    assert(v != 0x25) by {
        if v == 0x25 {
            vstd::utf8::char_u32_cast(c, v);
            vstd::utf8::char_u32_cast('%', v);
        }
    }
    if has_width_1_encoding(v) {
        assert((v & 0x7F) as u8 != 0x25) by (bit_vector)
            requires
                v <= 0x7F,
                v != 0x25,
        ;
    } else {
        assert((0xC0 | ((v >> 6) & 0x1F) as u8) != 0x25u8) by (bit_vector);
        assert((0xE0 | ((v >> 12) & 0x0F) as u8) != 0x25u8) by (bit_vector);
        assert((0xF0 | ((v >> 18) & 0x7) as u8) != 0x25u8) by (bit_vector);
        assert((0x80 | (v & 0x3F) as u8) != 0x25u8) by (bit_vector);
        assert((0x80 | ((v >> 6) & 0x3F) as u8) != 0x25u8) by (bit_vector);
        assert((0x80 | ((v >> 12) & 0x3F) as u8) != 0x25u8) by (bit_vector);
    }
}

proof fn lemma_encode_no_percent(s: Seq<char>)
    requires
        forall|k: int| 0 <= k < s.len() ==> s[k] != '%',
    ensures
        forall|k: int|
            0 <= k < encode_utf8(s).len() ==> #[trigger] encode_utf8(s)[k] != 0x25,
    decreases s.len(),
{
    if s.len() > 0 {
        lemma_scalar_no_percent(s[0]);
        lemma_encode_no_percent(s.drop_first());
        let a = encode_scalar(s[0] as u32);
        let b = encode_utf8(s.drop_first());
        assert forall|k: int| 0 <= k < encode_utf8(s).len() implies #[trigger] encode_utf8(s)[k]
            != 0x25 by {
            if k < a.len() {
                assert(encode_utf8(s)[k] == a[k]);
            } else {
                assert(encode_utf8(s)[k] == b[k - a.len()]);
            }
        }
    }
}

proof fn lemma_unescape_no_percent(b: Seq<u8>, i: int)
    requires
        0 <= i <= b.len(),
        forall|k: int| 0 <= k < b.len() ==> #[trigger] b[k] != 0x25,
    ensures
        unescape_from(b, i) == b.subrange(i, b.len() as int),
    decreases b.len() - i,
{
    if i < b.len() {
        lemma_unescape_no_percent(b, i + 1);
        assert(seq![b[i]] + b.subrange(i + 1, b.len() as int) =~= b.subrange(i, b.len() as int));
    } else {
        assert(b.subrange(i, b.len() as int) =~= Seq::<u8>::empty());
    }
}

// ---------------------------------------------------------------------------
// Port search
// ---------------------------------------------------------------------------

/// The search for a free port: the requested port, then up to ten after it.
#[derive(Debug, Clone, Copy)]
pub struct PortSearch {
    /// The port that was asked for.
    pub base: u16,
    /// How far past `base` the search has gone (0 to 10).
    pub offset: u16,
}

impl PortSearch {
    pub open spec fn well_formed(&self) -> bool {
        self.offset <= 10
    }

    /// Starts the search at `base`.
    pub fn new(base: u16) -> (s: Self)
        ensures
            s.base == base,
            s.offset == 0,
            s.well_formed(),
    {
        PortSearch { base, offset: 0 }
    }

    /// The port to try now, or `None` when it would lie beyond `u16::MAX`.
    pub fn candidate(&self) -> (p: Option<u16>)
        ensures
            p matches Some(port) ==> port == self.base + self.offset,
            p is None <==> self.base + self.offset > u16::MAX,
    {
        self.base.checked_add(self.offset)
    }

    /// After a failed attempt: moves on to the next port and returns `true`,
    /// or returns `false` when the tenth port after the requested one has
    /// been tried.
    pub fn advance(&mut self) -> (more: bool)
        requires
            old(self).well_formed(),
        ensures
            more == (old(self).offset < 10),
            final(self).base == old(self).base,
            final(self).offset == (if more {
                old(self).offset + 1
            } else {
                old(self).offset as int
            }),
            final(self).well_formed(),
    {
        if self.offset < 10 {
            self.offset = self.offset + 1;
            true
        } else {
            false
        }
    }
}

/// The port search tries exactly the requested port and the ten after it,
/// stopping early only where a port would lie beyond `u16::MAX`.
pub proof fn law_port_search_bounds(s: PortSearch)
    requires
        s.well_formed(),
    ensures
        s.base <= s.base + s.offset <= s.base + 10,
{
}

/// `"Could not bind to any port in range {first}-{last}"`.
pub open spec fn port_range_message(first: u16, last: u16) -> Seq<char> {
    "Could not bind to any port in range "@ + decimal(first as nat) + seq!['-'] + decimal(
        last as nat,
    )
}

/// The message when no port in the range `first..=last` could be bound.
pub fn port_range_error(first: u16, last: u16) -> (s: String)
    ensures
        s@ == port_range_message(first, last),
{
    let mut s = String::from_str("Could not bind to any port in range ");
    push_decimal(&mut s, first as usize);
    crate::text::push_char(&mut s, '-');
    push_decimal(&mut s, last as usize);
    s
}

/// The message when the search ran past `u16::MAX` before finding a port.
pub fn port_search_exhausted(base: u16) -> (s: String)
    ensures
        s@ == port_range_message(base, if base + 10 > u16::MAX {
            u16::MAX
        } else {
            (base + 10) as u16
        }),
{
    port_range_error(base, base.saturating_add(10))
}

// ---------------------------------------------------------------------------
// Request paths
// ---------------------------------------------------------------------------

/// The index of the first `c` in `s`, or `s.len()`.
pub open spec fn first_index_of(s: Seq<char>, c: char, i: int) -> int
    decreases s.len() - i,
{
    if i < 0 || i >= s.len() {
        s.len() as int
    } else if s[i] == c {
        i
    } else {
        first_index_of(s, c, i + 1)
    }
}

/// `s` without its leading `c` characters (`trim_start_matches(c)`).
pub open spec fn strip_leading(s: Seq<char>, c: char) -> Seq<char>
    decreases s.len(),
{
    if s.len() > 0 && s[0] == c {
        strip_leading(s.drop_first(), c)
    } else {
        s
    }
}

/// What `strip_leading` leaves does not start with the stripped character.
proof fn lemma_strip_leading(s: Seq<char>, c: char)
    ensures
        strip_leading(s, c).len() == 0 || strip_leading(s, c)[0] != c,
    decreases s.len(),
{
    if s.len() > 0 && s[0] == c {
        lemma_strip_leading(s.drop_first(), c);
    }
}

/// The file, relative to the served directory, that a decoded request path
/// names: the path without leading `/`; the path `/` names the presentation
/// itself.
pub open spec fn file_for_path_spec(path: Seq<char>, index_file: Seq<char>) -> Seq<char> {
    if path == seq!['/'] {
        index_file
    } else {
        strip_leading(path, '/')
    }
}

/// The file, relative to the served directory, that a request URL names:
/// the URL's path (before any `?`), percent-decoded, as [`file_for_path`]
/// reads it.
pub open spec fn requested_file_spec(url: Seq<char>, index_file: Seq<char>) -> Seq<char> {
    file_for_path_spec(
        percent_decode_spec(url.subrange(0, first_index_of(url, '?', 0))),
        index_file,
    )
}

/// The file, relative to the served directory, that a decoded request path names.
pub fn file_for_path(path: &str, index_file: &str) -> (f: String)
    ensures
        f@ == file_for_path_spec(path@, index_file@),
        path@ != seq!['/'] ==> f@.len() == 0 || f@[0] != '/',
{
    proof {
        lemma_strip_leading(path@, '/');
    }
    let path_chars = chars_of(path);
    let slash = vec!['/'];
    assert(slash@ == seq!['/']);
    if chars_equal(&path_chars, &slash) {
        return index_file.to_owned();
    }
    let mut a: usize = 0;
    assert(path_chars@.subrange(0, path_chars@.len() as int) =~= path_chars@);
    while a < path_chars.len() && path_chars[a] == '/'
        invariant
            a <= path_chars@.len(),
            strip_leading(path_chars@, '/') == strip_leading(path_chars@.subrange(a as int, path_chars@.len() as int), '/'),
        decreases path_chars.len() - a,
    {
        assert(path_chars@.subrange(a as int, path_chars@.len() as int).drop_first() =~= path_chars@.subrange(a + 1, path_chars@.len() as int));
        a = a + 1;
    }
    assert(path_chars@.subrange(0, path_chars@.len() as int) =~= path_chars@);
    string_from_chars(&copy_range(&path_chars, a, path_chars.len()))
}

/// The file, relative to the served directory, that a request URL names.
pub fn requested_file(url: &str, index_file: &str) -> (f: String)
    ensures
        f@ == requested_file_spec(url@, index_file@),
{
    let chars = chars_of(url);
    let mut q: usize = 0;
    while q < chars.len() && chars[q] != '?'
        invariant
            q <= chars@.len(),
            chars@ == url@,
            first_index_of(url@, '?', 0) == first_index_of(url@, '?', q as int),
        decreases chars.len() - q,
    {
        q = q + 1;
    }
    assert(first_index_of(url@, '?', q as int) == q);
    let path_portion = string_from_chars(&copy_range(&chars, 0, q));
    let url_path = percent_decode(path_portion.as_str());
    file_for_path(url_path.as_str(), index_file)
}

/// The file to serve for a request: the resolved path of the file it names
/// (`None` when it could not be resolved), when that path lies within the
/// served directory; nothing otherwise, and the request is answered 404.
pub open spec fn served_path_spec(canonical: Option<Seq<char>>, base: Seq<char>) -> Option<Seq<char>> {
    match canonical {
        Some(p) => if path_starts_with(p, base) {
            Some(p)
        } else {
            None
        },
        None => None,
    }
}

/// Decides which file a request is served from: the resolved path of the
/// file it names, only when that lies within the served directory.
pub fn served_path(canonical: Option<&str>, base: &str) -> (r: Option<String>)
    ensures
        r.deep_view() == served_path_spec(
            match canonical {
                Some(p) => Some(p@),
                None => None,
            },
            base@,
        ),
        r matches Some(f) ==> path_starts_with(f@, base@),
{
    match canonical {
        Some(p) => if path_within(p, base) {
            Some(p.to_owned())
        } else {
            None
        },
        None => None,
    }
}

/// No file outside the served directory is ever served.
pub proof fn law_nothing_served_outside(canonical: Option<Seq<char>>, base: Seq<char>)
    ensures
        served_path_spec(canonical, base) matches Some(f) ==> path_starts_with(f, base),
{
}

} // verus!
