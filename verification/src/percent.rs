//! Percent-encoding, as query strings and form bodies use it.

use vstd::prelude::*;
use vstd::slice::*;
use vstd::string::*;
use vstd::utf8::*;

verus! {

// -- UTF-8 from outside -----------------------------------------------------

/// What `String::from_utf8_lossy` makes of bytes that are not UTF-8.
pub uninterp spec fn lossy_text(bytes: Seq<u8>) -> Seq<char>;

/// The text that `bytes` hold: exactly the one that they encode where they are UTF-8.
pub open spec fn utf8_text(bytes: Seq<u8>) -> Seq<char> {
    if valid_utf8(bytes) {
        decode_utf8(bytes)
    } else {
        lossy_text(bytes)
    }
}

/// `String::from_utf8_lossy`, which gives back the encoded text where `bytes` are UTF-8. Of other
/// bytes it is claimed only that the result depends on nothing else.
#[verifier::external_body]
pub(crate) fn text_from_utf8_lossy(bytes: &[u8]) -> (r: String)
    ensures
        r@ == utf8_text(bytes@),
        !valid_utf8(bytes@) ==> r@ == lossy_text(bytes@),
{
    String::from_utf8_lossy(bytes).into_owned()
}

// -- encoding ---------------------------------------------------------------

/// The bytes that stand for themselves.
pub open spec fn unreserved(b: u8) -> bool {
    ||| 0x41 <= b <= 0x5a
    ||| 0x61 <= b <= 0x7a
    ||| 0x30 <= b <= 0x39
    ||| b == 0x2d
    ||| b == 0x5f
    ||| b == 0x2e
    ||| b == 0x7e
}

/// The upper-case hexadecimal digit for `d`, which is below sixteen.
pub open spec fn upper_hex(d: int) -> char {
    if d < 10 {
        (('0' as int) + d) as char
    } else {
        (('A' as int) + d - 10) as char
    }
}

/// One byte, encoded.
pub open spec fn encoded_byte(b: u8) -> Seq<char> {
    if unreserved(b) {
        seq![b as char]
    } else {
        seq!['%', upper_hex((b / 16) as int), upper_hex((b % 16) as int)]
    }
}

/// `bytes`, each encoded.
pub open spec fn encoded(bytes: Seq<u8>) -> Seq<char>
    decreases bytes.len(),
{
    if bytes.len() == 0 {
        Seq::empty()
    } else {
        encoded_byte(bytes[0]) + encoded(bytes.drop_first())
    }
}

/// The UTF-8 bytes of `s`, each encoded.
pub open spec fn percent_encoded(s: Seq<char>) -> Seq<char> {
    encoded(encode_utf8(s))
}

fn upper_hex_char(d: u8) -> (r: char)
    requires
        d < 16,
    ensures
        r == upper_hex(d as int),
{
    if d < 10 {
        (48 + d) as char
    } else {
        (65 + d - 10) as char
    }
}

/// Encodes every byte of `value` but letters, digits and `-`, `_`, `.`, `~` as `%XX`.
pub fn percent_encode(value: &str) -> (r: String)
    ensures
        r@ == percent_encoded(value@),
{
    let bytes = value.as_bytes();
    let mut out = String::new();
    let mut i: usize = 0;
    assert(bytes@.skip(0) =~= bytes@);
    assert(out@ + encoded(bytes@) =~= encoded(bytes@));
    while i < bytes.len()
        invariant
            i <= bytes@.len(),
            out@ + encoded(bytes@.skip(i as int)) == encoded(bytes@),
        decreases bytes@.len() - i,
    {
        let b: u8 = bytes[i];
        let ghost before = out@;
        let ghost rest = bytes@.skip(i as int);
        assert(rest.drop_first() =~= bytes@.skip(i + 1));
        if (0x41 <= b && b <= 0x5a) || (0x61 <= b && b <= 0x7a) || (0x30 <= b && b <= 0x39) || b
            == 0x2d || b == 0x5f || b == 0x2e || b == 0x7e {
            out.push(b as char);
        } else {
            out.push('%');
            out.push(upper_hex_char(b / 16));
            out.push(upper_hex_char(b % 16));
        }
        assert(out@ =~= before + encoded_byte(b));
        assert(out@ + encoded(bytes@.skip(i + 1)) =~= before + (encoded_byte(b) + encoded(
            bytes@.skip(i + 1),
        )));
        i = i + 1;
    }
    assert(out@ + encoded(bytes@.skip(i as int)) =~= out@);
    out
}

// -- decoding ---------------------------------------------------------------

/// The value of a hexadecimal digit, in either case.
pub open spec fn hex_value(b: u8) -> Option<u8> {
    if 0x30 <= b <= 0x39 {
        Some((b - 0x30) as u8)
    } else if 0x61 <= b <= 0x66 {
        Some((b - 0x61 + 10) as u8)
    } else if 0x41 <= b <= 0x46 {
        Some((b - 0x41 + 10) as u8)
    } else {
        None
    }
}

/// The byte that the two characters behind a `%` write down: two hexadecimal digits, or one
/// behind a plus sign.
pub open spec fn pair_value(a: u8, b: u8) -> Option<u8> {
    match (hex_value(a), hex_value(b)) {
        (Some(high), Some(low)) => Some((high * 16 + low) as u8),
        (None, Some(low)) if a == 0x2b => Some(low),
        _ => None,
    }
}

/// `bytes` with `+` read as a space and `%XX` as the byte that it writes down; a `%` that writes
/// none stands for itself.
pub open spec fn decoded(bytes: Seq<u8>) -> Seq<u8>
    decreases bytes.len(),
{
    if bytes.len() == 0 {
        Seq::empty()
    } else if bytes[0] == 0x2b {
        seq![0x20u8] + decoded(bytes.skip(1))
    } else if bytes[0] == 0x25 && bytes.len() > 2 && pair_value(bytes[1], bytes[2]) is Some {
        seq![pair_value(bytes[1], bytes[2])->0] + decoded(bytes.skip(3))
    } else {
        seq![bytes[0]] + decoded(bytes.skip(1))
    }
}

/// The text that `s` stands for.
pub open spec fn percent_decoded(s: Seq<char>) -> Seq<char> {
    utf8_text(decoded(encode_utf8(s)))
}

/// Whether the two bytes behind every `%` of `s` are whole characters.
pub open spec fn decodable(s: Seq<char>) -> bool {
    let bytes = encode_utf8(s);
    forall|i: int|
        0 <= i && i + 3 < bytes.len() && #[trigger] bytes[i] == 0x25 ==> !is_continuation_byte(
            bytes[i + 3],
        )
}

fn hex_byte(b: u8) -> (r: Option<u8>)
    ensures
        r == hex_value(b),
        r matches Some(v) ==> v < 16,
{
    if 0x30 <= b && b <= 0x39 {
        Some(b - 0x30)
    } else if 0x61 <= b && b <= 0x66 {
        Some(b - 0x61 + 10)
    } else if 0x41 <= b && b <= 0x46 {
        Some(b - 0x41 + 10)
    } else {
        None
    }
}

fn pair_byte(a: u8, b: u8) -> (r: Option<u8>)
    ensures
        r == pair_value(a, b),
{
    match (hex_byte(a), hex_byte(b)) {
        (Some(high), Some(low)) => Some(high * 16 + low),
        (None, Some(low)) if a == 0x2b => Some(low),
        _ => None,
    }
}

/// Whether `percent_decode` takes `value`: the two bytes behind each `%` must not end inside a
/// character.
pub fn percent_decodable(value: &str) -> (r: bool)
    ensures
        r == decodable(value@),
{
    let bytes = value.as_bytes();
    let mut i: usize = 0;
    while i < bytes.len()
        invariant
            i <= bytes@.len(),
            bytes@ == encode_utf8(value@),
            forall|j: int|
                0 <= j < i && j + 3 < bytes@.len() && #[trigger] bytes@[j] == 0x25
                    ==> !is_continuation_byte(bytes@[j + 3]),
        decreases bytes@.len() - i,
    {
        if bytes[i] == 0x25 && bytes.len() - i > 3 {
            let b: u8 = bytes[i + 3];
            if 0x80 <= b && b <= 0xbf {
                assert(bytes@[i as int] == 0x25);
                return false;
            }
        }
        i = i + 1;
    }
    true
}

/// Reads `+` as a space and `%XX` as a byte, and the outcome as UTF-8.
pub fn percent_decode(value: &str) -> (r: String)
    requires
        decodable(value@),
    ensures
        r@ == percent_decoded(value@),
{
    let bytes = value.as_bytes();
    let mut out: Vec<u8> = Vec::new();
    let mut i: usize = 0;
    assert(bytes@.skip(0) =~= bytes@);
    assert(out@ + decoded(bytes@) =~= decoded(bytes@));
    while i < bytes.len()
        invariant
            i <= bytes@.len(),
            out@ + decoded(bytes@.skip(i as int)) == decoded(bytes@),
        decreases bytes@.len() - i,
    {
        let b: u8 = bytes[i];
        let ghost before = out@;
        let ghost rest = bytes@.skip(i as int);
        assert(rest.skip(1) =~= bytes@.skip(i + 1));
        let mut step: usize = 1;
        let mut byte: u8 = b;
        if b == 0x2b {
            byte = 0x20;
        } else if b == 0x25 && bytes.len() - i > 2 {
            assert(rest.skip(3) =~= bytes@.skip(i + 3));
            if let Some(v) = pair_byte(bytes[i + 1], bytes[i + 2]) {
                byte = v;
                step = 3;
            }
        }
        out.push(byte);
        assert(decoded(rest) == seq![byte] + decoded(bytes@.skip(i + step)));
        assert(out@ + decoded(bytes@.skip(i + step)) =~= before + (seq![byte] + decoded(
            bytes@.skip(i + step),
        )));
        i = i + step;
    }
    assert(out@ + decoded(bytes@.skip(i as int)) =~= out@);
    text_from_utf8_lossy(out.as_slice())
}

// -- round trip -------------------------------------------------------------

/// The characters that encoded text is made of.
pub open spec fn url_safe(c: char) -> bool {
    ||| 'A' <= c <= 'Z'
    ||| 'a' <= c <= 'z'
    ||| '0' <= c <= '9'
    ||| c == '-'
    ||| c == '_'
    ||| c == '.'
    ||| c == '~'
    ||| c == '%'
}

/// The characters of `s` as bytes, one each.
pub open spec fn ascii_bytes(s: Seq<char>) -> Seq<u8> {
    Seq::new(s.len(), |i: int| s[i] as u8)
}

proof fn lemma_encoded_safe(bytes: Seq<u8>)
    ensures
        forall|i: int| 0 <= i < encoded(bytes).len() ==> url_safe(#[trigger] encoded(bytes)[i]),
    decreases bytes.len(),
{
    if bytes.len() > 0 {
        let head = encoded_byte(bytes[0]);
        let tail = encoded(bytes.drop_first());
        lemma_encoded_safe(bytes.drop_first());
        assert forall|i: int| 0 <= i < encoded(bytes).len() implies url_safe(
            #[trigger] encoded(bytes)[i],
        ) by {
            if i < head.len() {
                assert(url_safe(head[i]));
            } else {
                assert(encoded(bytes)[i] == tail[i - head.len()]);
            }
        }
    }
}

proof fn lemma_decoded_encoded(bytes: Seq<u8>)
    ensures
        decoded(ascii_bytes(encoded(bytes))) == bytes,
    decreases bytes.len(),
{
    let all = ascii_bytes(encoded(bytes));
    if bytes.len() == 0 {
        assert(all =~= Seq::<u8>::empty());
    } else {
        let b = bytes[0];
        let rest = bytes.drop_first();
        lemma_decoded_encoded(rest);
        if unreserved(b) {
            assert(all[0] == b);
            assert(all.skip(1) =~= ascii_bytes(encoded(rest)));
        } else {
            assert(encoded(bytes)[0] == '%');
            assert(encoded(bytes)[1] == upper_hex((b / 16) as int));
            assert(encoded(bytes)[2] == upper_hex((b % 16) as int));
            assert(hex_value(all[1]) == Some((b / 16) as u8));
            assert(hex_value(all[2]) == Some((b % 16) as u8));
            assert(pair_value(all[1], all[2]) == Some(b));
            assert(all.skip(3) =~= ascii_bytes(encoded(rest)));
        }
        assert(decoded(all) =~= seq![b] + rest);
        assert(seq![b] + rest =~= bytes);
    }
}

/// Encoded text holds nothing but letters, digits and `-`, `_`, `.`, `~`, `%`.
pub proof fn percent_encoded_is_url_safe(s: Seq<char>)
    ensures
        forall|i: int|
            0 <= i < percent_encoded(s).len() ==> url_safe(#[trigger] percent_encoded(s)[i]),
{
    lemma_encoded_safe(encode_utf8(s));
}

/// Decoding gives back every text that was encoded.
pub proof fn percent_encode_round_trips(s: Seq<char>)
    ensures
        decodable(percent_encoded(s)),
        percent_decoded(percent_encoded(s)) == s,
{
    let e = percent_encoded(s);
    percent_encoded_is_url_safe(s);
    assert(is_ascii_chars(e)) by {
        assert forall|i: int| 0 <= i < e.len() implies '\0' <= #[trigger] e[i] <= '\u{7f}' by {
            assert(url_safe(e[i]));
        }
    }
    is_ascii_chars_encode_utf8(e);
    assert(encode_utf8(e) =~= ascii_bytes(e));
    lemma_decoded_encoded(encode_utf8(s));
    encode_utf8_valid_utf8(s);
    encode_utf8_decode_utf8(s);
    assert forall|i: int|
        0 <= i && i + 3 < encode_utf8(e).len() && #[trigger] encode_utf8(e)[i]
            == 0x25 implies !is_continuation_byte(encode_utf8(e)[i + 3]) by {
        assert(url_safe(e[i + 3]));
        assert(encode_utf8(e)[i + 3] == e[i + 3] as u8);
    }
}

/// What is encoded is read back as it was, and an encoded text holds nothing but letters, digits,
/// `-`, `_`, `.`, `~` and the escapes of bytes. A text of these characters alone stays as it is.
pub proof fn encoding_is_undone_by_decoding(s: &str, coded: String, t: &str, r: String)
    requires
        call_ensures(percent_encode, (s,), coded),
        t@ == coded@,
        call_ensures(percent_decode, (t,), r),
    ensures
        r@ == s@,
        forall|i: int| 0 <= i < coded@.len() ==> url_safe(#[trigger] coded@[i]),
        (forall|i: int| 0 <= i < s@.len() ==> url_safe(#[trigger] s@[i]) && s@[i] != '%') ==> coded@
            == s@,
{
    percent_encode_round_trips(s@);
    percent_encoded_is_url_safe(s@);
    if forall|i: int| 0 <= i < s@.len() ==> url_safe(#[trigger] s@[i]) && s@[i] != '%' {
        assert(is_ascii_chars(s@)) by {
            assert forall|i: int| 0 <= i < s@.len() implies '\0' <= #[trigger] s@[i] <= '\u{7f}' by {
                assert(url_safe(s@[i]));
            }
        }
        is_ascii_chars_encode_utf8(s@);
        assert(encode_utf8(s@) =~= ascii_bytes(s@));
        lemma_safe_is_kept(s@);
    }
}

proof fn lemma_safe_is_kept(s: Seq<char>)
    requires
        forall|i: int| 0 <= i < s.len() ==> url_safe(#[trigger] s[i]) && s[i] != '%',
    ensures
        encoded(ascii_bytes(s)) == s,
    decreases s.len(),
{
    if s.len() > 0 {
        let rest = s.drop_first();
        assert forall|i: int| 0 <= i < rest.len() implies url_safe(#[trigger] rest[i]) && rest[i]
            != '%' by {
            assert(rest[i] == s[i + 1]);
        }
        lemma_safe_is_kept(rest);
        assert(ascii_bytes(s).drop_first() =~= ascii_bytes(rest));
        assert(url_safe(s[0]));
        assert(encoded_byte(s[0] as u8) =~= seq![s[0]]);
        assert(seq![s[0]] + rest =~= s);
    }
}

/// A plus sign is read as a space, and every other character of a text without escapes as it is.
pub proof fn a_plus_is_read_as_a_space(s: &str, r: String)
    requires
        call_ensures(percent_decode, (s,), r),
        is_ascii_chars(s@),
        forall|i: int| 0 <= i < s@.len() ==> #[trigger] s@[i] != '%',
    ensures
        r@ == s@.map_values(
            |c: char|
                if c == '+' {
                    ' '
                } else {
                    c
                },
        ),
{
    let t = s@.map_values(
        |c: char|
            if c == '+' {
                ' '
            } else {
                c
            },
    );
    is_ascii_chars_encode_utf8(s@);
    assert(encode_utf8(s@) =~= ascii_bytes(s@));
    assert(is_ascii_chars(t)) by {
        assert forall|i: int| 0 <= i < t.len() implies '\0' <= #[trigger] t[i] <= '\u{7f}' by {
            assert('\0' <= s@[i] <= '\u{7f}');
        }
    }
    is_ascii_chars_encode_utf8(t);
    assert(encode_utf8(t) =~= ascii_bytes(t));
    lemma_plus(s@, t);
    encode_utf8_valid_utf8(t);
    encode_utf8_decode_utf8(t);
}

proof fn lemma_plus(s: Seq<char>, t: Seq<char>)
    requires
        s.len() == t.len(),
        forall|i: int| 0 <= i < s.len() ==> '\0' <= #[trigger] s[i] <= '\u{7f}' && s[i] != '%',
        forall|i: int|
            0 <= i < s.len() ==> #[trigger] t[i] == if s[i] == '+' {
                ' '
            } else {
                s[i]
            },
    ensures
        decoded(ascii_bytes(s)) == ascii_bytes(t),
    decreases s.len(),
{
    let b = ascii_bytes(s);
    if s.len() > 0 {
        let rest = s.drop_first();
        let more = t.drop_first();
        assert forall|i: int| 0 <= i < rest.len() implies '\0' <= #[trigger] rest[i] <= '\u{7f}'
            && rest[i] != '%' by {
            assert(rest[i] == s[i + 1]);
        }
        assert forall|i: int| 0 <= i < rest.len() implies #[trigger] more[i] == if rest[i] == '+' {
            ' '
        } else {
            rest[i]
        } by {
            assert(more[i] == t[i + 1] && rest[i] == s[i + 1]);
        }
        lemma_plus(rest, more);
        assert(b.skip(1) =~= ascii_bytes(rest));
        assert(b.drop_first() =~= ascii_bytes(rest));
        assert('\0' <= s[0] <= '\u{7f}' && s[0] != '%');
        assert(b[0] == s[0] as u8);
        assert(b[0] != 0x25);
        assert(t[0] == if s[0] == '+' {
            ' '
        } else {
            s[0]
        });
        assert(seq![t[0] as u8] + ascii_bytes(more) =~= ascii_bytes(t));
    } else {
        assert(decoded(b) =~= ascii_bytes(t));
    }
}

} // verus!
