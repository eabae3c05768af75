//! Percent-encoding of texts in URLs, and back.
use vstd::prelude::*;
use vstd::string::*;
use vstd::utf8::*;

verus! {

/// Where in a URL a text goes.
#[derive(Clone, Copy, Debug, PartialEq, Eq, Structural)]
pub enum UrlPart {
    /// A path, whose slashes stay.
    Path,
    /// The value of a query parameter.
    QueryParam,
    /// Anywhere: only unreserved characters stay.
    Anywhere,
}

/// A letter, a digit or one of `-._~`.
pub open spec fn unreserved(b: u8) -> bool {
    ||| 48 <= b <= 57
    ||| 65 <= b <= 90
    ||| 97 <= b <= 122
    ||| b == '-' as u8
    ||| b == '.' as u8
    ||| b == '_' as u8
    ||| b == '~' as u8
}

/// What may stand as it is in a path segment as well as in a query parameter: unreserved characters
/// and one of `!$'()*+,;:@`.
pub open spec fn common(b: u8) -> bool {
    ||| unreserved(b)
    ||| b == '!' as u8
    ||| b == '$' as u8
    ||| b == '\'' as u8
    ||| b == '(' as u8
    ||| b == ')' as u8
    ||| b == '*' as u8
    ||| b == '+' as u8
    ||| b == ',' as u8
    ||| b == ';' as u8
    ||| b == ':' as u8
    ||| b == '@' as u8
}

/// The bytes that stay as they are.
pub open spec fn kept(part: UrlPart, b: u8) -> bool {
    match part {
        UrlPart::Path => common(b) || b == '&' as u8 || b == '=' as u8 || b == '/' as u8,
        UrlPart::QueryParam => common(b) || b == '?' as u8 || b == '/' as u8,
        UrlPart::Anywhere => unreserved(b),
    }
}

/// A hexadecimal digit, with capital letters.
pub open spec fn hex_char(n: nat) -> char {
    if n < 10 {
        (48 + n) as char
    } else {
        (55 + n) as char
    }
}

/// How one byte is written.
pub open spec fn encoded_byte(part: UrlPart, b: u8) -> Seq<char> {
    if kept(part, b) {
        seq![b as char]
    } else {
        seq!['%', hex_char((b / 16) as nat), hex_char((b % 16) as nat)]
    }
}

/// How bytes are written, one after the other.
pub open spec fn percent_encoded(part: UrlPart, bytes: Seq<u8>) -> Seq<char>
    decreases bytes.len(),
{
    if bytes.len() == 0 {
        Seq::empty()
    } else {
        encoded_byte(part, bytes[0]) + percent_encoded(part, bytes.drop_first())
    }
}

/// Letters, digits and the marks `-._~` are written as they are, wherever they stand. Of the characters
/// with a meaning in an address, a path keeps its slashes, a parameter keeps its slashes and question
/// marks, and no other text keeps any.
pub proof fn plain_text_is_written_as_it_is(part: UrlPart, c: char)
    ensures
        'a' <= c <= 'z' || 'A' <= c <= 'Z' || '0' <= c <= '9' || c == '-' || c == '.' || c == '_' || c
            == '~' ==> encoded_byte(part, c as u8) == seq![c],
        encoded_byte(part, '%' as u8).len() == 3,
        encoded_byte(part, '#' as u8).len() == 3,
        encoded_byte(part, ' ' as u8).len() == 3,
        encoded_byte(part, '"' as u8).len() == 3,
        encoded_byte(UrlPart::Path, '/' as u8) == seq!['/'],
        encoded_byte(UrlPart::Path, '?' as u8).len() == 3,
        encoded_byte(UrlPart::Path, '&' as u8) == seq!['&'],
        encoded_byte(UrlPart::Path, '=' as u8) == seq!['='],
        encoded_byte(UrlPart::QueryParam, '/' as u8) == seq!['/'],
        encoded_byte(UrlPart::QueryParam, '?' as u8) == seq!['?'],
        encoded_byte(UrlPart::QueryParam, '&' as u8).len() == 3,
        encoded_byte(UrlPart::QueryParam, '=' as u8).len() == 3,
        encoded_byte(UrlPart::Anywhere, '/' as u8).len() == 3,
        encoded_byte(UrlPart::Anywhere, '?' as u8).len() == 3,
        encoded_byte(UrlPart::Anywhere, '&' as u8).len() == 3,
        encoded_byte(UrlPart::Anywhere, '=' as u8).len() == 3,
        encoded_byte(UrlPart::Anywhere, '+' as u8).len() == 3,
{
}

/// The marks `!$'()*+,;:@` stand as they are in a path and in a parameter, and in no other text.
pub proof fn marks_are_written_as_they_are(c: char)
    requires
        c == '!' || c == '$' || c == '\'' || c == '(' || c == ')' || c == '*' || c == '+' || c == ','
            || c == ';' || c == ':' || c == '@',
    ensures
        encoded_byte(UrlPart::Path, c as u8) == seq![c],
        encoded_byte(UrlPart::QueryParam, c as u8) == seq![c],
        encoded_byte(UrlPart::Anywhere, c as u8).len() == 3,
{
}

proof fn lemma_encoded_push(part: UrlPart, bytes: Seq<u8>, b: u8)
    ensures
        percent_encoded(part, bytes.push(b)) == percent_encoded(part, bytes) + encoded_byte(part, b),
    decreases bytes.len(),
{
    let whole = bytes.push(b);
    if bytes.len() == 0 {
        assert(whole.drop_first() =~= Seq::<u8>::empty());
        assert(percent_encoded(part, whole.drop_first()) =~= Seq::<char>::empty());
        assert(percent_encoded(part, whole) =~= encoded_byte(part, b));
        assert(percent_encoded(part, bytes) + encoded_byte(part, b) =~= encoded_byte(part, b));
    } else {
        assert(whole.drop_first() =~= bytes.drop_first().push(b));
        lemma_encoded_push(part, bytes.drop_first(), b);
        assert(percent_encoded(part, whole) =~= percent_encoded(part, bytes) + encoded_byte(part, b));
    }
}

fn byte_is_unreserved(b: u8) -> (r: bool)
    ensures
        r == unreserved(b),
{
    (48 <= b && b <= 57) || (65 <= b && b <= 90) || (97 <= b && b <= 122) || b == 45 || b == 46 || b
        == 95 || b == 126
}

fn byte_is_kept(part: UrlPart, b: u8) -> (r: bool)
    ensures
        r == kept(part, b),
{
    let common: bool = byte_is_unreserved(b) || b == 33 || b == 36 || b == 39 || b == 40 || b == 41
        || b == 42 || b == 43 || b == 44 || b == 59 || b == 58 || b == 64;
    match part {
        UrlPart::Path => common || b == 38 || b == 61 || b == 47,
        UrlPart::QueryParam => common || b == 63 || b == 47,
        UrlPart::Anywhere => byte_is_unreserved(b),
    }
}

fn hex_digit(n: u8) -> (r: char)
    requires
        n < 16,
    ensures
        r == hex_char(n as nat),
{
    if n < 10 {
        (48 + n) as char
    } else {
        (55 + n) as char
    }
}

/// Percent-encodes a text for its place in a URL.
pub fn percent_encode(part: UrlPart, s: &str) -> (r: String)
    ensures
        r@ == percent_encoded(part, encode_utf8(s@)),
{
    let bytes: &[u8] = s.as_bytes();
    let mut out: String = String::new();
    let mut i: usize = 0;
    while i < bytes.len()
        invariant
            i <= bytes.len(),
            out@ == percent_encoded(part, bytes@.take(i as int)),
        decreases bytes.len() - i,
    {
        let b: u8 = bytes[i];
        let ghost before = out@;
        if byte_is_kept(part, b) {
            out.push(b as char);
        } else {
            out.push('%');
            out.push(hex_digit(b / 16));
            out.push(hex_digit(b % 16));
        }
        proof {
            lemma_encoded_push(part, bytes@.take(i as int), b);
            assert(bytes@.take(i as int).push(b) =~= bytes@.take(i as int + 1));
            assert(out@ =~= before + encoded_byte(part, b));
        }
        i += 1;
    }
    assert(bytes@.take(bytes@.len() as int) =~= bytes@);
    out
}

/// Percent-encodes a text so that it can stand anywhere in a URL.
pub fn urlencoding(value: &str) -> (r: String)
    ensures
        r@ == percent_encoded(UrlPart::Anywhere, encode_utf8(value@)),
{
    percent_encode(UrlPart::Anywhere, value)
}

/// Percent-encodes a path, whose slashes stay.
pub fn encode_path(path: &str) -> (r: String)
    ensures
        r@ == percent_encoded(UrlPart::Path, encode_utf8(path@)),
{
    percent_encode(UrlPart::Path, path)
}

/// Percent-encodes the value of a query parameter.
pub fn encode_query_param(value: &str) -> (r: String)
    ensures
        r@ == percent_encoded(UrlPart::QueryParam, encode_utf8(value@)),
{
    percent_encode(UrlPart::QueryParam, value)
}

// ---- decoding ----

/// The value of a hexadecimal digit, of either case.
pub open spec fn hex_value(b: u8) -> Option<u8> {
    if 48 <= b <= 57 {
        Some((b - 48) as u8)
    } else if 65 <= b <= 70 {
        Some((b - 55) as u8)
    } else if 97 <= b <= 102 {
        Some((b - 87) as u8)
    } else {
        None
    }
}

/// The sixteen digits are read in either case, and nothing else is a digit.
pub proof fn hex_digits_are_read_in_either_case(n: nat, b: u8)
    requires
        n < 16,
    ensures
        hex_value(hex_char(n) as u8) == Some(n as u8),
        n >= 10 ==> hex_value((hex_char(n) as u8 + 32) as u8) == Some(n as u8),
        hex_value(b) is Some <==> '0' as u8 <= b <= '9' as u8 || 'A' as u8 <= b <= 'F' as u8
            || 'a' as u8 <= b <= 'f' as u8,
{
}

/// A percent sign and two hexadecimal digits.
pub open spec fn starts_with_escape(bytes: Seq<u8>) -> bool {
    bytes.len() > 2 && bytes[0] == '%' as u8 && hex_value(bytes[1]) is Some && hex_value(bytes[2])
        is Some
}

/// The bytes that encoded bytes stand for: an escape for one byte, a plus sign for a space, and
/// anything else for itself.
pub open spec fn percent_decoded(bytes: Seq<u8>) -> Seq<u8>
    decreases bytes.len(),
{
    if bytes.len() == 0 {
        Seq::empty()
    } else if starts_with_escape(bytes) {
        seq![(hex_value(bytes[1])->0 * 16 + hex_value(bytes[2])->0) as u8] + percent_decoded(
            bytes.skip(3),
        )
    } else if bytes[0] == '+' as u8 {
        seq![' ' as u8] + percent_decoded(bytes.drop_first())
    } else {
        seq![bytes[0]] + percent_decoded(bytes.drop_first())
    }
}

/// The text that `String::from_utf8_lossy` makes of bytes.
pub uninterp spec fn utf8_lossy(bytes: Seq<u8>) -> Seq<char>;

/// `String::from_utf8_lossy`: the text that the bytes encode in UTF-8. Where they are no UTF-8, which
/// characters take the place of what cannot be read is left to its name.
#[verifier::external_body]
fn from_utf8_lossy(bytes: &Vec<u8>) -> (r: String)
    ensures
        r@ == utf8_lossy(bytes@),
        valid_utf8(bytes@) ==> r@ == decode_utf8(bytes@),
{
    String::from_utf8_lossy(bytes).into_owned()
}

fn hex_digit_value(b: u8) -> (r: Option<u8>)
    ensures
        r == hex_value(b),
        r is Some ==> r->0 < 16,
{
    if 48 <= b && b <= 57 {
        Some(b - 48)
    } else if 65 <= b && b <= 70 {
        Some(b - 55)
    } else if 97 <= b && b <= 102 {
        Some(b - 87)
    } else {
        None
    }
}

/// Decodes percent-encoded bytes.
pub fn percent_decode(bytes: &[u8]) -> (r: Vec<u8>)
    ensures
        r@ == percent_decoded(bytes@),
{
    let mut out: Vec<u8> = Vec::new();
    let mut i: usize = 0;
    let n: usize = bytes.len();
    assert(bytes@.skip(0) =~= bytes@);
    assert(out@ + percent_decoded(bytes@) =~= percent_decoded(bytes@));
    while i < n
        invariant
            i <= n == bytes@.len(),
            percent_decoded(bytes@) == out@ + percent_decoded(bytes@.skip(i as int)),
        decreases n - i,
    {
        let b: u8 = bytes[i];
        let ghost rest = bytes@.skip(i as int);
        let ghost before = out@;
        assert(rest[0] == b);
        assert(rest.drop_first() =~= bytes@.skip(i as int + 1));
        if b == 37 && n - i > 2 {
            assert(rest[1] == bytes@[i as int + 1]);
            assert(rest[2] == bytes@[i as int + 2]);
            assert(rest.skip(3) =~= bytes@.skip(i as int + 3));
            match (hex_digit_value(bytes[i + 1]), hex_digit_value(bytes[i + 2])) {
                (Some(h), Some(l)) => {
                    out.push(h * 16 + l);
                    assert(out@ + percent_decoded(bytes@.skip(i as int + 3)) =~= before
                        + percent_decoded(rest));
                    i += 3;
                },
                _ => {
                    out.push(b);
                    assert(out@ + percent_decoded(bytes@.skip(i as int + 1)) =~= before
                        + percent_decoded(rest));
                    i += 1;
                },
            }
        } else if b == 43 {
            out.push(32);
            assert(out@ + percent_decoded(bytes@.skip(i as int + 1)) =~= before + percent_decoded(
                rest,
            ));
            i += 1;
        } else {
            out.push(b);
            assert(out@ + percent_decoded(bytes@.skip(i as int + 1)) =~= before + percent_decoded(
                rest,
            ));
            i += 1;
        }
    }
    assert(out@ + Seq::<u8>::empty() =~= out@);
    out
}

/// Decodes a percent-encoded text: the bytes it stands for, read as UTF-8.
pub fn url_decode(s: &str) -> (r: String)
    ensures
        r@ == utf8_lossy(percent_decoded(encode_utf8(s@))),
        valid_utf8(percent_decoded(encode_utf8(s@))) ==> r@ == decode_utf8(
            percent_decoded(encode_utf8(s@)),
        ),
{
    let out: Vec<u8> = percent_decode(s.as_bytes());
    from_utf8_lossy(&out)
}

// ---- there and back ----

/// An encoded text is ASCII.
pub proof fn encoded_text_is_ascii(part: UrlPart, bytes: Seq<u8>)
    ensures
        is_ascii_chars(percent_encoded(part, bytes)),
    decreases bytes.len(),
{
    if bytes.len() > 0 {
        encoded_text_is_ascii(part, bytes.drop_first());
    }
}

/// An encoded path has no question mark, so that the parameters of an address begin behind it.
pub proof fn encoded_path_has_no_parameters(bytes: Seq<u8>)
    ensures
        !percent_encoded(UrlPart::Path, bytes).contains('?'),
    decreases bytes.len(),
{
    if bytes.len() > 0 {
        encoded_path_has_no_parameters(bytes.drop_first());
        let first = encoded_byte(UrlPart::Path, bytes[0]);
        let rest = percent_encoded(UrlPart::Path, bytes.drop_first());
        assert forall|i: int| 0 <= i < (first + rest).len() implies #[trigger] (first + rest)[i]
            != '?' by {
            if i < first.len() {
                assert((first + rest)[i] == first[i]);
            } else {
                assert((first + rest)[i] == rest[i - first.len()]);
                assert(rest.contains(rest[i - first.len()]));
            }
        }
    }
}

/// Decoding an encoded text gives back what was encoded, wherever the encoding leaves no plus sign
/// to be read as a space.
pub proof fn decoding_undoes_encoding(part: UrlPart, bytes: Seq<u8>)
    requires
        part == UrlPart::Anywhere || !bytes.contains('+' as u8),
    ensures
        percent_decoded(encode_utf8(percent_encoded(part, bytes))) == bytes,
    decreases bytes.len(),
{
    encoded_text_is_ascii(part, bytes);
    let text = percent_encoded(part, bytes);
    let raw = encode_utf8(text);
    is_ascii_chars_encode_utf8(text);
    if bytes.len() > 0 {
        let b = bytes[0];
        let rest = bytes.drop_first();
        assert(part == UrlPart::Anywhere || !rest.contains('+' as u8)) by {
            if rest.contains('+' as u8) {
                let k = choose|k: int| 0 <= k < rest.len() && rest[k] == '+' as u8;
                assert(bytes[k + 1] == '+' as u8);
            }
        }
        decoding_undoes_encoding(part, rest);
        encoded_text_is_ascii(part, rest);
        let tail = percent_encoded(part, rest);
        is_ascii_chars_encode_utf8(tail);
        let n = encoded_byte(part, b).len() as int;
        assert(raw.skip(n) =~= encode_utf8(tail)) by {
            assert forall|i: int| 0 <= i < tail.len() implies raw.skip(n)[i] == encode_utf8(
                tail,
            )[i] by {
                assert(text[n + i] == tail[i]);
                assert(raw[n + i] == text[n + i] as u8);
                assert(encode_utf8(tail)[i] == tail[i] as u8);
            }
        }
        if kept(part, b) {
            assert(text[0] == b as char);
            assert(raw[0] == text[0] as u8);
            assert(raw[0] == b);
            assert(part != UrlPart::Anywhere ==> b != '+' as u8) by {
                assert(bytes[0] == b);
            }
            assert(raw.drop_first() =~= raw.skip(1));
            assert(percent_decoded(raw) =~= bytes);
        } else {
            assert(text[0] == '%' && text[1] == hex_char((b / 16) as nat) && text[2] == hex_char(
                (b % 16) as nat,
            ));
            assert(raw[0] == text[0] as u8 && raw[1] == text[1] as u8 && raw[2] == text[2] as u8);
            assert(hex_value(raw[1]) == Some((b / 16) as u8));
            assert(hex_value(raw[2]) == Some((b % 16) as u8));
            assert(percent_decoded(raw) =~= bytes);
        }
    }
}

/// A text that is encoded to stand anywhere in a URL is what decoding gives back.
pub proof fn url_decode_undoes_urlencoding(s: Seq<char>)
    ensures
        valid_utf8(
            percent_decoded(encode_utf8(percent_encoded(UrlPart::Anywhere, encode_utf8(s)))),
        ),
        decode_utf8(
            percent_decoded(encode_utf8(percent_encoded(UrlPart::Anywhere, encode_utf8(s)))),
        ) == s,
{
    decoding_undoes_encoding(UrlPart::Anywhere, encode_utf8(s));
    encode_utf8_valid_utf8(s);
    encode_utf8_decode_utf8(s);
}

} // verus!
