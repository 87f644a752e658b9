//! Turning received bytes into text: UTF-8 recognition, GBK detection, the
//! greedy mixed-encoding decoder, and the per-encoding decoding of the receive view.
use vstd::prelude::*;
use vstd::utf8::*;

verus! {

/// How received bytes are shown.
#[derive(Clone, Copy, Debug, PartialEq, Eq, Structural)]
pub enum DisplayMode {
    UTF8,
    Hex,
    Binary,
}

/// The legacy and UTF-16 encodings that `encoding_rs` decodes and encodes here.
#[derive(Clone, Copy, Debug, PartialEq, Eq, Structural)]
pub enum Charset {
    Gbk,
    Big5,
    EucJp,
    ShiftJis,
    Koi8R,
    Windows1251,
    Windows1252,
    Utf16Le,
    Utf16Be,
}

impl Charset {
    /// Every encoding here but UTF-16 writes ASCII as ASCII.
    pub open spec fn is_ascii_compatible(self) -> bool {
        !(self is Utf16Le || self is Utf16Be)
    }
}

/// Every byte is below 0x80.
pub open spec fn all_ascii(bytes: Seq<u8>) -> bool {
    forall|i: int| 0 <= i < bytes.len() ==> #[trigger] bytes[i] <= 0x7f
}

/// Every character is below U+0080.
pub open spec fn all_ascii_chars(text: Seq<char>) -> bool {
    forall|i: int| 0 <= i < text.len() ==> (#[trigger] text[i] as u32) <= 0x7f
}

/// Each byte read as the character of the same number.
pub open spec fn latin1_chars(bytes: Seq<u8>) -> Seq<char> {
    bytes.map_values(|b: u8| b as char)
}

/// Each character's number, truncated to a byte.
pub open spec fn low_bytes(text: Seq<char>) -> Seq<u8> {
    text.map_values(|c: char| (c as u32) as u8)
}

/// What `Encoding::decode` of `encoding_rs` gives for `bytes`: the text, and
/// whether malformed sequences were replaced.
pub uninterp spec fn decoded(charset: Charset, bytes: Seq<u8>) -> (Seq<char>, bool);

/// What `Encoding::encode` of `encoding_rs` gives for `text`.
pub uninterp spec fn encoded(charset: Charset, text: Seq<char>) -> Seq<u8>;

/// Decodes `bytes` with `Encoding::decode` of `encoding_rs` (BOM sniffing, malformed
/// sequences replaced). The text and the error flag are named by `decoded`; beyond the
/// name, the contract states what the crate's source shows for ASCII-only input to an
/// ASCII-compatible encoding: the text is the bytes themselves and there is no error.
/// The length bound keeps the crate's buffer-size computation from overflowing.
#[verifier::external_body]
fn decode_with(charset: Charset, bytes: &[u8]) -> (res: (String, bool))
    requires
        bytes@.len() <= usize::MAX / 8,
    ensures
        (res.0@, res.1) == decoded(charset, bytes@),
        charset.is_ascii_compatible() && all_ascii(bytes@) ==> res.0@ == latin1_chars(bytes@)
            && !res.1,
{
    let encoding = match charset {
        Charset::Gbk => encoding_rs::GBK,
        Charset::Big5 => encoding_rs::BIG5,
        Charset::EucJp => encoding_rs::EUC_JP,
        Charset::ShiftJis => encoding_rs::SHIFT_JIS,
        Charset::Koi8R => encoding_rs::KOI8_R,
        Charset::Windows1251 => encoding_rs::WINDOWS_1251,
        Charset::Windows1252 => encoding_rs::WINDOWS_1252,
        Charset::Utf16Le => encoding_rs::UTF_16LE,
        Charset::Utf16Be => encoding_rs::UTF_16BE,
    };
    let (text, _, had_errors) = encoding.decode(bytes);
    (text.into_owned(), had_errors)
}

/// Encodes `text` with `Encoding::encode` of `encoding_rs`. The bytes are named by
/// `encoded`; the contract also states what the crate's source shows: the UTF-16
/// encodings write UTF-8 (their output encoding), and ASCII-only text to an
/// ASCII-compatible encoding comes out as its own bytes. The length bound keeps the
/// crate's buffer-size computation from overflowing.
#[verifier::external_body]
fn encode_with(charset: Charset, text: &str) -> (res: Vec<u8>)
    requires
        text@.len() <= usize::MAX / 64,
    ensures
        res@ == encoded(charset, text@),
        !charset.is_ascii_compatible() ==> res@ == encode_utf8(text@),
        charset.is_ascii_compatible() && all_ascii_chars(text@) ==> res@ == low_bytes(text@),
{
    let encoding = match charset {
        Charset::Gbk => encoding_rs::GBK,
        Charset::Big5 => encoding_rs::BIG5,
        Charset::EucJp => encoding_rs::EUC_JP,
        Charset::ShiftJis => encoding_rs::SHIFT_JIS,
        Charset::Koi8R => encoding_rs::KOI8_R,
        Charset::Windows1251 => encoding_rs::WINDOWS_1251,
        Charset::Windows1252 => encoding_rs::WINDOWS_1252,
        Charset::Utf16Le => encoding_rs::UTF_16LE,
        Charset::Utf16Be => encoding_rs::UTF_16BE,
    };
    let (bytes, _, _) = encoding.encode(text);
    bytes.into_owned()
}

/// `std::str::from_utf8`: the text that `bytes` encode where they are well-formed UTF-8.
#[verifier::external_body]
fn utf8_text(bytes: &[u8]) -> (res: Option<String>)
    ensures
        res is Some <==> valid_utf8(bytes@),
        res matches Some(s) ==> s@ == decode_utf8(bytes@),
{
    match std::str::from_utf8(bytes) {
        Ok(text) => Some(text.to_string()),
        Err(_) => None,
    }
}

/// The length that the bit patterns of a leading byte and its continuation bytes
/// give to the character that `bytes` start with; 0 where they fit no pattern.
pub open spec fn utf8_pattern_len(bytes: Seq<u8>) -> int {
    if valid_leading_and_continuation_bytes_first_codepoint(bytes) {
        length_of_first_codepoint(bytes)
    } else {
        0
    }
}

/// The length of the UTF-8 character that `bytes` start with: the length its byte
/// pattern gives, where those bytes are well-formed UTF-8 (not overlong, not a
/// surrogate, not beyond U+10FFFF); 0 where `bytes` start with no UTF-8 character.
pub open spec fn utf8_prefix_len(bytes: Seq<u8>) -> int {
    let n = utf8_pattern_len(bytes);
    if n > 0 && valid_utf8(bytes.take(n)) {
        n
    } else {
        0
    }
}

proof fn lemma_continuation_mask(b: u8)
    ensures
        ((b & 0xC0) == 0x80) == is_continuation_byte(b),
{
    assert(((b & 0xC0) == 0x80) == (0x80 <= b && b <= 0xbf)) by (bit_vector);
}

proof fn lemma_prefix_len_bounds(bytes: Seq<u8>)
    ensures
        0 <= utf8_pattern_len(bytes) <= 4,
        utf8_pattern_len(bytes) <= bytes.len(),
        0 <= utf8_prefix_len(bytes) <= utf8_pattern_len(bytes),
        bytes.len() > 0 && bytes[0] <= 0x7f ==> utf8_pattern_len(bytes) == 1,
{
}

/// An ASCII byte is a UTF-8 character of one byte.
proof fn lemma_ascii_first(bytes: Seq<u8>)
    requires
        bytes.len() > 0,
        bytes[0] <= 0x7f,
    ensures
        utf8_prefix_len(bytes) == 1,
{
    let t = bytes.take(1);
    let b = bytes[0];
    assert(t[0] == b);
    assert((b & 0x7f) <= 0x7f) by (bit_vector);
    assert(valid_first_scalar(t));
    assert(pop_first_scalar(t).len() == 0);
    assert(valid_utf8(pop_first_scalar(t)));
    assert(valid_utf8(t));
}

/// Well-formed bytes of one byte pattern encode exactly one character.
proof fn lemma_one_character(bytes: Seq<u8>)
    requires
        utf8_prefix_len(bytes) > 0,
    ensures
        decode_utf8(bytes.take(utf8_prefix_len(bytes))).len() == 1,
{
    let n = utf8_prefix_len(bytes);
    let t = bytes.take(n);
    lemma_prefix_len_bounds(bytes);
    assert(t[0] == bytes[0]);
    assert(n >= 2 ==> t[1] == bytes[1]);
    assert(n >= 3 ==> t[2] == bytes[2]);
    assert(n >= 4 ==> t[3] == bytes[3]);
    assert(length_of_first_codepoint(t) == n);
    assert(pop_first_scalar(t).len() == 0);
    assert(decode_utf8(pop_first_scalar(t)) =~= Seq::<char>::empty());
}

fn utf8_pattern_length(bytes: &[u8]) -> (res: usize)
    ensures
        res == utf8_pattern_len(bytes@),
{
    if bytes.len() == 0 {
        return 0;
    }
    let first_byte = bytes[0];
    if first_byte <= 0x7F {
        return 1;
    } else if first_byte >= 0xC0 && first_byte <= 0xDF && bytes.len() >= 2 {
        proof {
            lemma_continuation_mask(bytes@[1]);
        }
        if (bytes[1] & 0xC0) == 0x80 {
            return 2;
        }
    } else if first_byte >= 0xE0 && first_byte <= 0xEF && bytes.len() >= 3 {
        proof {
            lemma_continuation_mask(bytes@[1]);
            lemma_continuation_mask(bytes@[2]);
        }
        if (bytes[1] & 0xC0) == 0x80 && (bytes[2] & 0xC0) == 0x80 {
            return 3;
        }
    } else if first_byte >= 0xF0 && first_byte <= 0xF7 && bytes.len() >= 4 {
        proof {
            lemma_continuation_mask(bytes@[1]);
            lemma_continuation_mask(bytes@[2]);
            lemma_continuation_mask(bytes@[3]);
        }
        if (bytes[1] & 0xC0) == 0x80 && (bytes[2] & 0xC0) == 0x80 && (bytes[3] & 0xC0) == 0x80 {
            return 4;
        }
    }
    0
}

/// Recognises a UTF-8 character at the start of `bytes` and returns its length in
/// bytes; 0 when `bytes` do not start with a UTF-8 character.
pub fn try_utf8(bytes: &[u8]) -> (res: usize)
    ensures
        res == utf8_prefix_len(bytes@),
        res <= 4,
        res <= bytes@.len(),
        res > 0 ==> valid_utf8(bytes@.take(res as int)) && decode_utf8(bytes@.take(res as int)).len()
            == 1,
{
    proof {
        lemma_prefix_len_bounds(bytes@);
    }
    let n = utf8_pattern_length(bytes);
    if n == 0 {
        return 0;
    }
    let piece = &bytes[0..n];
    assert(piece@ =~= bytes@.take(n as int));
    if utf8_text(piece).is_some() {
        proof {
            lemma_one_character(bytes@);
        }
        n
    } else {
        0
    }
}

/// A lead byte and a trail byte of a two-byte GBK character.
pub open spec fn is_gbk_pair(first: u8, second: u8) -> bool {
    &&& 0x81 <= first <= 0xFE
    &&& (0x40 <= second <= 0x7E || 0x80 <= second <= 0xFE)
}

/// Some two adjacent bytes of `bytes` form a GBK lead/trail pair.
pub open spec fn potential_gbk(bytes: Seq<u8>) -> bool {
    exists|i: int| 0 <= i && i + 1 < bytes.len() && #[trigger] is_gbk_pair(bytes[i], bytes[i + 1])
}

fn gbk_pair(first: u8, second: u8) -> (res: bool)
    ensures
        res == is_gbk_pair(first, second),
{
    (first >= 0x81 && first <= 0xFE) && ((second >= 0x40 && second <= 0x7E) || (second >= 0x80
        && second <= 0xFE))
}

/// Whether some two adjacent bytes could be a GBK character.
pub fn has_potential_gbk(bytes: &[u8]) -> (res: bool)
    ensures
        res == potential_gbk(bytes@),
{
    let mut i: usize = 0;
    let len = bytes.len();
    while i < len
        invariant
            len == bytes@.len(),
            forall|k: int| 0 <= k < i && k + 1 < len ==> !#[trigger] is_gbk_pair(bytes@[k], bytes@[k + 1]),
        decreases len - i,
    {
        if i + 1 < len {
            if gbk_pair(bytes[i], bytes[i + 1]) {
                return true;
            }
        }
        i += 1;
    }
    false
}

/// A CJK Unified Ideograph (U+4E00 to U+9FFF).
pub open spec fn is_cjk_ideograph(c: char) -> bool {
    0x4E00 <= (c as u32) && (c as u32) <= 0x9FFF
}

/// Some character of `text` is a CJK Unified Ideograph.
pub open spec fn has_chinese(text: Seq<char>) -> bool {
    exists|i: int| 0 <= i < text.len() && #[trigger] is_cjk_ideograph(text[i])
}

fn chinese_in(text: &[char]) -> (res: bool)
    ensures
        res == has_chinese(text@),
{
    for i in 0..text.len()
        invariant
            forall|k: int| 0 <= k < i ==> !#[trigger] is_cjk_ideograph(text@[k]),
    {
        let c = text[i] as u32;
        if c >= 0x4E00 && c <= 0x9FFF {
            assert(is_cjk_ideograph(text@[i as int]));
            return true;
        }
    }
    false
}

/// Whether `text` holds a Chinese character.
pub fn has_valid_chinese(text: &str) -> (res: bool)
    ensures
        res == has_chinese(text@),
{
    let chars = crate::text::chars_of(text);
    chinese_in(&chars)
}

/// What `get_gbk_char` gives for `bytes`: the GBK text of `bytes` with `true` when they
/// start with a GBK lead/trail pair and decode without error, else nothing and `false`.
pub open spec fn gbk_char(bytes: Seq<u8>) -> (Seq<char>, bool) {
    if bytes.len() >= 2 && is_gbk_pair(bytes[0], bytes[1]) && !decoded(Charset::Gbk, bytes).1 {
        (decoded(Charset::Gbk, bytes).0, true)
    } else {
        (Seq::<char>::empty(), false)
    }
}

/// Decodes `bytes` as GBK when they start with a GBK lead/trail pair and decode
/// without error; otherwise an empty string and `false`.
pub fn get_gbk_char(bytes: &[u8]) -> (res: (String, bool))
    requires
        bytes@.len() <= usize::MAX / 8,
    ensures
        (res.0@, res.1) == gbk_char(bytes@),
{
    if bytes.len() < 2 {
        return (String::new(), false);
    }
    let first = bytes[0];
    let second = bytes[1];
    if gbk_pair(first, second) {
        let (gbk_text, gbk_errors) = decode_with(Charset::Gbk, bytes);
        if !gbk_errors {
            return (gbk_text, true);
        }
    }
    (String::new(), false)
}

/// Two bytes at a time decoded as GBK, and a last odd byte read as the character of
/// its number.
pub open spec fn gbk_pairs_text(bytes: Seq<u8>) -> Seq<char>
    decreases bytes.len(),
{
    if bytes.len() == 0 {
        Seq::<char>::empty()
    } else if bytes.len() == 1 {
        seq![bytes[0] as char]
    } else {
        decoded(Charset::Gbk, bytes.take(2)).0 + gbk_pairs_text(bytes.skip(2))
    }
}

/// Decodes `bytes` as GBK two bytes at a time, so that one bad pair spoils only itself.
pub fn smart_gbk_decode(bytes: &[u8]) -> (res: String)
    ensures
        res@ == gbk_pairs_text(bytes@),
{
    let mut result = String::new();
    let mut i: usize = 0;
    let len = bytes.len();
    assert(bytes@.skip(0) =~= bytes@);
    while i < len
        invariant
            len == bytes@.len(),
            i <= len,
            gbk_pairs_text(bytes@) == result@ + gbk_pairs_text(bytes@.skip(i as int)),
        decreases len - i,
    {
        let ghost rest = bytes@.skip(i as int);
        if i + 1 < len {
            let pair = &bytes[i..i + 2];
            assert(pair@ =~= rest.take(2));
            let (gbk_text, _) = decode_with(Charset::Gbk, pair);
            result.append(gbk_text.as_str());
            assert(rest.skip(2) =~= bytes@.skip(i + 2));
            i += 2;
        } else {
            crate::text::push_char(&mut result, bytes[i] as char);
            assert(bytes@.skip(i + 1).len() == 0);
            assert(gbk_pairs_text(bytes@.skip(i + 1)) =~= Seq::<char>::empty());
            i += 1;
        }
    }
    assert(bytes@.skip(len as int).len() == 0);
    result
}

/// The greedy mixed-encoding reading of `bytes`: at each position a UTF-8
/// character where one starts there, else a GBK character, else one byte as
/// Windows-1252.
pub open spec fn chunk_text(bytes: Seq<u8>) -> Seq<char>
    decreases bytes.len(),
{
    if bytes.len() == 0 {
        Seq::<char>::empty()
    } else {
        let n = utf8_prefix_len(bytes);
        if n > 0 {
            decode_utf8(bytes.take(n)) + chunk_text(bytes.skip(n))
        } else if bytes.len() >= 2 && gbk_char(bytes.take(2)).1 {
            gbk_char(bytes.take(2)).0 + chunk_text(bytes.skip(2))
        } else {
            decoded(Charset::Windows1252, bytes.take(1)).0 + chunk_text(bytes.skip(1))
        }
    }
}

/// The greedy mixed-encoding decoder: each position read as a UTF-8 character where
/// one starts there, else as a GBK character, else as one Windows-1252 byte.
pub fn smart_chunk_decode(bytes: &[u8]) -> (res: String)
    requires
        bytes@.len() <= usize::MAX / 8,
    ensures
        res@ == chunk_text(bytes@),
{
    let mut result = String::new();
    let mut i: usize = 0;
    let len = bytes.len();
    assert(bytes@.skip(0) =~= bytes@);
    while i < len
        invariant
            len == bytes@.len() <= usize::MAX / 8,
            i <= len,
            chunk_text(bytes@) == result@ + chunk_text(bytes@.skip(i as int)),
        decreases len - i,
    {
        let ghost rest = bytes@.skip(i as int);
        let ghost before = result@;
        let tail = &bytes[i..len];
        assert(tail@ =~= rest);
        let utf8_len = try_utf8(tail);
        proof {
            lemma_prefix_len_bounds(rest);
            if rest[0] <= 0x7f {
                lemma_ascii_first(rest);
            }
        }
        if utf8_len > 0 {
            let piece = &bytes[i..i + utf8_len];
            assert(piece@ =~= rest.take(utf8_len as int));
            if let Some(text) = utf8_text(piece) {
                result.append(text.as_str());
            }
            assert(rest.skip(utf8_len as int) =~= bytes@.skip(i + utf8_len));
            assert(before + (decode_utf8(rest.take(utf8_len as int)) + chunk_text(
                rest.skip(utf8_len as int),
            )) =~= result@ + chunk_text(bytes@.skip(i + utf8_len)));
            i += utf8_len;
        } else if i + 1 < len {
            let pair = &bytes[i..i + 2];
            assert(pair@ =~= rest.take(2));
            let (gbk_text, is_gbk) = get_gbk_char(pair);
            if is_gbk {
                result.append(gbk_text.as_str());
                assert(rest.skip(2) =~= bytes@.skip(i + 2));
                assert(before + (gbk_char(rest.take(2)).0 + chunk_text(rest.skip(2))) =~= result@
                    + chunk_text(bytes@.skip(i + 2)));
                i += 2;
            } else if bytes[i] <= 0x7F {
                crate::text::push_char(&mut result, bytes[i] as char);
                assert(rest.skip(1) =~= bytes@.skip(i + 1));
                i += 1;
            } else {
                let one = &bytes[i..i + 1];
                assert(one@ =~= rest.take(1));
                let (win1252_text, _) = decode_with(Charset::Windows1252, one);
                result.append(win1252_text.as_str());
                assert(rest.skip(1) =~= bytes@.skip(i + 1));
                assert(before + (decoded(Charset::Windows1252, rest.take(1)).0 + chunk_text(
                    rest.skip(1),
                )) =~= result@ + chunk_text(bytes@.skip(i + 1)));
                i += 1;
            }
        } else {
            if bytes[i] <= 0x7F {
                crate::text::push_char(&mut result, bytes[i] as char);
            } else {
                let one = &bytes[i..i + 1];
                assert(one@ =~= rest.take(1));
                let (win1252_text, _) = decode_with(Charset::Windows1252, one);
                result.append(win1252_text.as_str());
            }
            assert(rest.skip(1) =~= bytes@.skip(i + 1));
            assert(before + (decoded(Charset::Windows1252, rest.take(1)).0 + chunk_text(
                rest.skip(1),
            )) =~= result@ + chunk_text(bytes@.skip(i + 1)));
            i += 1;
        }
    }
    assert(bytes@.skip(len as int).len() == 0);
    assert(result@ + Seq::<char>::empty() =~= result@);
    result
}

/// The upper-case hexadecimal digit for `v` (below 16).
pub open spec fn hex_digit(v: int) -> char {
    if v < 10 {
        ('0' as int + v) as char
    } else {
        ('A' as int + v - 10) as char
    }
}

/// Each byte as two upper-case hex digits and a space (`format!("{:02X} ", b)`).
pub open spec fn hex_dump(bytes: Seq<u8>) -> Seq<char>
    decreases bytes.len(),
{
    if bytes.len() == 0 {
        Seq::<char>::empty()
    } else {
        hex_dump(bytes.drop_last()) + seq![
            hex_digit(bytes.last() as int / 16),
            hex_digit(bytes.last() as int % 16),
            ' ',
        ]
    }
}

/// `'1'` for an odd `v`, `'0'` for an even one.
pub open spec fn bit_char(v: int) -> char {
    if v % 2 == 1 {
        '1'
    } else {
        '0'
    }
}

/// The eight binary digits of `b`, most significant first.
pub open spec fn binary_digits(b: u8) -> Seq<char> {
    seq![
        bit_char(b as int / 128),
        bit_char(b as int / 64),
        bit_char(b as int / 32),
        bit_char(b as int / 16),
        bit_char(b as int / 8),
        bit_char(b as int / 4),
        bit_char(b as int / 2),
        bit_char(b as int),
    ]
}

/// Each byte as eight binary digits and a space (`format!("{:08b} ", b)`).
pub open spec fn binary_dump(bytes: Seq<u8>) -> Seq<char>
    decreases bytes.len(),
{
    if bytes.len() == 0 {
        Seq::<char>::empty()
    } else {
        binary_dump(bytes.drop_last()) + binary_digits(bytes.last()) + seq![' ']
    }
}

fn hex_digit_char(v: u8) -> (c: char)
    requires
        v < 16,
    ensures
        c == hex_digit(v as int),
{
    if v < 10 {
        (48u8 + v) as char
    } else {
        (55u8 + v) as char
    }
}

fn bit_of(v: u8) -> (c: char)
    ensures
        c == bit_char(v as int),
{
    if v % 2 == 1 {
        '1'
    } else {
        '0'
    }
}

/// The bytes as upper-case hex pairs, each followed by a space.
pub fn format_hex(bytes: &[u8]) -> (res: String)
    ensures
        res@ == hex_dump(bytes@),
{
    let mut res = String::new();
    for i in 0..bytes.len()
        invariant
            res@ == hex_dump(bytes@.take(i as int)),
    {
        let b = bytes[i];
        assert(bytes@.take(i + 1).drop_last() =~= bytes@.take(i as int));
        crate::text::push_char(&mut res, hex_digit_char(b / 16));
        crate::text::push_char(&mut res, hex_digit_char(b % 16));
        crate::text::push_char(&mut res, ' ');
    }
    assert(bytes@.take(bytes@.len() as int) =~= bytes@);
    res
}

fn binary_digit_chars(b: u8) -> (res: Vec<char>)
    ensures
        res@ == binary_digits(b),
{
    let v = vec![
        bit_of(b / 128),
        bit_of(b / 64),
        bit_of(b / 32),
        bit_of(b / 16),
        bit_of(b / 8),
        bit_of(b / 4),
        bit_of(b / 2),
        bit_of(b),
    ];
    assert(v@ =~= binary_digits(b));
    v
}

/// The bytes as eight binary digits each, each group followed by a space.
pub fn format_binary(bytes: &[u8]) -> (res: String)
    ensures
        res@ == binary_dump(bytes@),
{
    let mut res = String::new();
    for i in 0..bytes.len()
        invariant
            res@ == binary_dump(bytes@.take(i as int)),
    {
        let b = bytes[i];
        assert(bytes@.take(i + 1).drop_last() =~= bytes@.take(i as int));
        let digits = binary_digit_chars(b);
        crate::text::push_chars(&mut res, digits.as_slice());
        crate::text::push_char(&mut res, ' ');
    }
    assert(bytes@.take(bytes@.len() as int) =~= bytes@);
    res
}

/// The receive encodings that the receive view offers, by their names.
#[derive(Clone, Copy, Debug, PartialEq, Eq, Structural)]
pub enum ReceiveEncoding {
    /// "自动识别": guess among UTF-8, GBK and Windows-1252.
    Auto,
    /// "UTF-8", and any name not listed.
    Utf8,
    /// A legacy or UTF-16 encoding by its name.
    Legacy(Charset),
    /// "Latin1" and "ASCII": each byte is the character of its number.
    Latin1,
}

/// The receive encoding that `name` selects.
pub open spec fn receive_encoding_named(name: Seq<char>) -> ReceiveEncoding {
    if name == "自动识别"@ {
        ReceiveEncoding::Auto
    } else if name == "GB2312"@ {
        ReceiveEncoding::Legacy(Charset::Gbk)
    } else if name == "Big5"@ {
        ReceiveEncoding::Legacy(Charset::Big5)
    } else if name == "EUC-JP"@ {
        ReceiveEncoding::Legacy(Charset::EucJp)
    } else if name == "Shift_JIS"@ {
        ReceiveEncoding::Legacy(Charset::ShiftJis)
    } else if name == "KOI8-R"@ {
        ReceiveEncoding::Legacy(Charset::Koi8R)
    } else if name == "Windows-1251"@ {
        ReceiveEncoding::Legacy(Charset::Windows1251)
    } else if name == "Windows-1252"@ {
        ReceiveEncoding::Legacy(Charset::Windows1252)
    } else if name == "UTF-16 LE"@ {
        ReceiveEncoding::Legacy(Charset::Utf16Le)
    } else if name == "UTF-16 BE"@ {
        ReceiveEncoding::Legacy(Charset::Utf16Be)
    } else if name == "Latin1"@ || name == "ASCII"@ {
        ReceiveEncoding::Latin1
    } else {
        ReceiveEncoding::Utf8
    }
}

fn named(name: &[char], candidate: &str) -> (res: bool)
    ensures
        res == (name@ == candidate@),
{
    let c = crate::text::chars_of(candidate);
    crate::text::chars_equal(name, &c)
}

/// The receive encoding that `name` selects.
pub fn receive_encoding_of(name: &str) -> (res: ReceiveEncoding)
    ensures
        res == receive_encoding_named(name@),
{
    let n = crate::text::chars_of(name);
    if named(&n, "自动识别") {
        ReceiveEncoding::Auto
    } else if named(&n, "GB2312") {
        ReceiveEncoding::Legacy(Charset::Gbk)
    } else if named(&n, "Big5") {
        ReceiveEncoding::Legacy(Charset::Big5)
    } else if named(&n, "EUC-JP") {
        ReceiveEncoding::Legacy(Charset::EucJp)
    } else if named(&n, "Shift_JIS") {
        ReceiveEncoding::Legacy(Charset::ShiftJis)
    } else if named(&n, "KOI8-R") {
        ReceiveEncoding::Legacy(Charset::Koi8R)
    } else if named(&n, "Windows-1251") {
        ReceiveEncoding::Legacy(Charset::Windows1251)
    } else if named(&n, "Windows-1252") {
        ReceiveEncoding::Legacy(Charset::Windows1252)
    } else if named(&n, "UTF-16 LE") {
        ReceiveEncoding::Legacy(Charset::Utf16Le)
    } else if named(&n, "UTF-16 BE") {
        ReceiveEncoding::Legacy(Charset::Utf16Be)
    } else if named(&n, "Latin1") || named(&n, "ASCII") {
        ReceiveEncoding::Latin1
    } else {
        ReceiveEncoding::Utf8
    }
}

/// The automatic reading: whole-input UTF-8, else whole-input GBK without errors,
/// else pairwise GBK where GBK pairs occur and the result holds Chinese, else
/// whole-input Windows-1252 without errors, else the greedy mixed decoder.
pub open spec fn auto_text(bytes: Seq<u8>) -> Seq<char> {
    if valid_utf8(bytes) {
        decode_utf8(bytes)
    } else if !decoded(Charset::Gbk, bytes).1 {
        decoded(Charset::Gbk, bytes).0
    } else if potential_gbk(bytes) && has_chinese(gbk_pairs_text(bytes)) {
        gbk_pairs_text(bytes)
    } else if !decoded(Charset::Windows1252, bytes).1 {
        decoded(Charset::Windows1252, bytes).0
    } else {
        chunk_text(bytes)
    }
}

/// The text that the receive view shows for `bytes` under the receive encoding
/// named `name`.
pub open spec fn received_text(bytes: Seq<u8>, name: Seq<char>) -> Seq<char> {
    match receive_encoding_named(name) {
        ReceiveEncoding::Auto => auto_text(bytes),
        ReceiveEncoding::Utf8 => if valid_utf8(bytes) {
            decode_utf8(bytes)
        } else {
            hex_dump(bytes)
        },
        ReceiveEncoding::Legacy(charset) => if !charset.is_ascii_compatible() && bytes.len() < 2 {
            hex_dump(bytes)
        } else {
            decoded(charset, bytes).0
        },
        ReceiveEncoding::Latin1 => latin1_chars(bytes),
    }
}

fn latin1_text(bytes: &[u8]) -> (res: String)
    ensures
        res@ == latin1_chars(bytes@),
{
    let mut res = String::new();
    for i in 0..bytes.len()
        invariant
            res@ == latin1_chars(bytes@.take(i as int)),
    {
        crate::text::push_char(&mut res, bytes[i] as char);
        assert(latin1_chars(bytes@.take(i + 1)) =~= latin1_chars(bytes@.take(i as int)).push(
            bytes@[i as int] as char,
        ));
    }
    assert(bytes@.take(bytes@.len() as int) =~= bytes@);
    res
}

/// Decodes received bytes under the receive encoding named `receive_encoding`.
pub fn try_decode(bytes: &[u8], receive_encoding: &str) -> (res: String)
    requires
        bytes@.len() <= usize::MAX / 8,
    ensures
        res@ == received_text(bytes@, receive_encoding@),
{
    match receive_encoding_of(receive_encoding) {
        ReceiveEncoding::Auto => {
            let has_potential = has_potential_gbk(bytes);
            if let Some(text) = utf8_text(bytes) {
                return text;
            }
            let (gbk_text, gbk_errors) = decode_with(Charset::Gbk, bytes);
            if !gbk_errors {
                return gbk_text;
            }
            if has_potential {
                let gbk_result = smart_gbk_decode(bytes);
                if has_valid_chinese(gbk_result.as_str()) {
                    return gbk_result;
                }
            }
            let (win1252_text, win1252_errors) = decode_with(Charset::Windows1252, bytes);
            if !win1252_errors {
                return win1252_text;
            }
            smart_chunk_decode(bytes)
        },
        ReceiveEncoding::Utf8 => {
            if let Some(text) = utf8_text(bytes) {
                text
            } else {
                format_hex(bytes)
            }
        },
        ReceiveEncoding::Legacy(charset) => {
            let utf16 = match charset {
                Charset::Utf16Le | Charset::Utf16Be => true,
                _ => false,
            };
            if utf16 && bytes.len() < 2 {
                format_hex(bytes)
            } else {
                decode_with(charset, bytes).0
            }
        },
        ReceiveEncoding::Latin1 => latin1_text(bytes),
    }
}

/// Why hex input cannot be sent.
#[derive(Clone, Copy, Debug, PartialEq, Eq, Structural)]
pub enum HexInputError {
    /// The input without spaces has an odd number of bytes.
    OddLength,
    /// A pair of bytes is not a hexadecimal number.
    InvalidHex,
}

impl HexInputError {
    /// The line shown when hex input is refused.
    pub open spec fn spec_message(self) -> Seq<char> {
        match self {
            HexInputError::OddLength => "发送错误: 十六进制字符串长度必须为偶数\n"@,
            HexInputError::InvalidHex => "发送错误: 无效的十六进制格式\n"@,
        }
    }

    /// The line shown when hex input is refused.
    pub fn message(&self) -> (res: String)
        ensures
            res@ == self.spec_message(),
    {
        match self {
            HexInputError::OddLength => String::from_str("发送错误: 十六进制字符串长度必须为偶数\n"),
            HexInputError::InvalidHex => String::from_str("发送错误: 无效的十六进制格式\n"),
        }
    }
}

/// `s` without its spaces (`str::replace(" ", "")`).
pub open spec fn without_spaces(s: Seq<char>) -> Seq<char>
    decreases s.len(),
{
    if s.len() == 0 {
        Seq::<char>::empty()
    } else if s.last() == ' ' {
        without_spaces(s.drop_last())
    } else {
        without_spaces(s.drop_last()).push(s.last())
    }
}

/// The value of a hexadecimal digit.
pub open spec fn hex_value(b: u8) -> Option<int> {
    if 0x30 <= b <= 0x39 {
        Some(b - 0x30)
    } else if 0x41 <= b <= 0x46 {
        Some(b - 0x41 + 10)
    } else if 0x61 <= b <= 0x66 {
        Some(b - 0x61 + 10)
    } else {
        None
    }
}

/// `u8::from_str_radix(_, 16)` on a two-byte string: an optional `+` and one digit,
/// or two digits.
pub open spec fn hex_pair_value(b0: u8, b1: u8) -> Option<int> {
    if b0 == 0x2B {
        hex_value(b1)
    } else {
        match (hex_value(b0), hex_value(b1)) {
            (Some(h), Some(l)) => Some(h * 16 + l),
            _ => None,
        }
    }
}

/// The bytes that consecutive hex pairs of `b` write, up to the first pair that is
/// not one (`Err`); `None` where that pair ends inside a multi-byte character, as
/// slicing the string there fails.
pub open spec fn hex_pairs(b: Seq<u8>) -> Option<Result<Seq<u8>, ()>>
    decreases b.len(),
{
    if b.len() < 2 {
        Some(Ok(Seq::<u8>::empty()))
    } else {
        match hex_pair_value(b[0], b[1]) {
            Some(v) => match hex_pairs(b.skip(2)) {
                Some(Ok(rest)) => Some(Ok(seq![v as u8] + rest)),
                other => other,
            },
            None => if b.len() > 2 && is_continuation_byte(b[2]) {
                None
            } else {
                Some(Err(()))
            },
        }
    }
}

/// What hex input `text` sends: spaces are dropped, an odd number of bytes is
/// refused, and each byte pair must be hexadecimal. `None` where taking the
/// pairs by byte slicing would cut a character.
pub open spec fn hex_input(text: Seq<char>) -> Option<Result<Seq<u8>, HexInputError>> {
    let b = encode_utf8(without_spaces(text));
    if b.len() % 2 != 0 {
        Some(Err(HexInputError::OddLength))
    } else {
        match hex_pairs(b) {
            Some(Ok(v)) => Some(Ok(v)),
            Some(Err(_)) => Some(Err(HexInputError::InvalidHex)),
            None => None,
        }
    }
}

fn without_spaces_string(text: &str) -> (res: String)
    ensures
        res@ == without_spaces(text@),
{
    let chars = crate::text::chars_of(text);
    let mut res = String::new();
    for i in 0..chars.len()
        invariant
            chars@ == text@,
            res@ == without_spaces(chars@.take(i as int)),
    {
        assert(chars@.take(i + 1).drop_last() =~= chars@.take(i as int));
        if chars[i] != ' ' {
            crate::text::push_char(&mut res, chars[i]);
        }
    }
    assert(chars@.take(chars@.len() as int) =~= chars@);
    res
}

fn hex_value_of(b: u8) -> (res: Option<u8>)
    ensures
        match hex_value(b) {
            Some(v) => res matches Some(r) && r as int == v,
            None => res is None,
        },
{
    if b >= 0x30 && b <= 0x39 {
        Some(b - 0x30)
    } else if b >= 0x41 && b <= 0x46 {
        Some(b - 0x41 + 10)
    } else if b >= 0x61 && b <= 0x66 {
        Some(b - 0x61 + 10)
    } else {
        None
    }
}

fn hex_pair_of(b0: u8, b1: u8) -> (res: Option<u8>)
    ensures
        match hex_pair_value(b0, b1) {
            Some(v) => res matches Some(r) && r as int == v,
            None => res is None,
        },
{
    if b0 == 0x2B {
        hex_value_of(b1)
    } else {
        match (hex_value_of(b0), hex_value_of(b1)) {
            (Some(h), Some(l)) => Some(h * 16 + l),
            _ => None,
        }
    }
}

/// Parses hex input for sending: spaces are dropped, then every two bytes are one
/// hexadecimal byte. `None` where a pair that is not hexadecimal ends inside a
/// multi-byte character, where byte slicing would cut that character.
pub fn hex_input_checked(text: &str) -> (res: Option<Result<Vec<u8>, HexInputError>>)
    ensures
        match hex_input(text@) {
            Some(Ok(v)) => res matches Some(Ok(r)) && r@ == v,
            Some(Err(e)) => res == Some(Err::<Vec<u8>, HexInputError>(e)),
            None => res is None,
        },
{
    let hex_str = without_spaces_string(text);
    let b = hex_str.as_str().as_bytes();
    let len = b.len();
    if len % 2 != 0 {
        return Some(Err(HexInputError::OddLength));
    }
    let mut data: Vec<u8> = Vec::new();
    let mut i: usize = 0;
    assert(b@.skip(0) =~= b@);
    while i < len
        invariant
            len == b@.len(),
            b@ == encode_utf8(without_spaces(text@)),
            len % 2 == 0,
            i <= len,
            i % 2 == 0,
            hex_pairs(b@) == match hex_pairs(b@.skip(i as int)) {
                Some(Ok(rest)) => Some(Ok(data@ + rest)),
                other => other,
            },
        decreases len - i,
    {
        let ghost rest = b@.skip(i as int);
        assert(rest.len() >= 2);
        assert(rest[0] == b@[i as int] && rest[1] == b@[i + 1]);
        match hex_pair_of(b[i], b[i + 1]) {
            Some(v) => {
                let ghost before = data@;
                data.push(v);
                assert(rest.skip(2) =~= b@.skip(i + 2));
                proof {
                    match hex_pairs(rest.skip(2)) {
                        Some(Ok(r)) => {
                            assert(before + (seq![v] + r) =~= data@ + r);
                        },
                        _ => {},
                    }
                }
                i += 2;
            },
            None => {
                if i + 2 < len && b[i + 2] >= 0x80 && b[i + 2] <= 0xBF {
                    assert(rest[2] == b@[i + 2]);
                    return None;
                }
                proof {
                    if rest.len() > 2 {
                        assert(rest[2] == b@[i + 2]);
                    }
                }
                return Some(Err(HexInputError::InvalidHex));
            },
        }
    }
    assert(b@.skip(len as int).len() == 0);
    assert(data@ + Seq::<u8>::empty() =~= data@);
    Some(Ok(data))
}

/// Parses hex input for sending: spaces are dropped, then every two bytes are one
/// hexadecimal byte.
pub fn parse_hex_input(text: &str) -> (res: Result<Vec<u8>, HexInputError>)
    requires
        hex_input(text@) is Some,
    ensures
        match hex_input(text@).unwrap() {
            Ok(v) => res matches Ok(r) && r@ == v,
            Err(e) => res == Err::<Vec<u8>, HexInputError>(e),
        },
{
    match hex_input_checked(text) {
        Some(r) => r,
        None => Err(HexInputError::InvalidHex),
    }
}

/// `s` in pairs of characters with a space between pairs.
pub open spec fn spaced_pairs(s: Seq<char>) -> Seq<char>
    decreases s.len(),
{
    if s.len() <= 2 {
        s
    } else {
        s.take(2) + seq![' '] + spaced_pairs(s.skip(2))
    }
}

/// Hex input as echoed after sending: without its spaces, in pairs separated by one space.
pub fn hex_input_echo(text: &str) -> (res: String)
    ensures
        res@ == spaced_pairs(without_spaces(text@)),
{
    let hex_str = without_spaces_string(text);
    let chars = crate::text::chars_of(hex_str.as_str());
    let mut res = String::new();
    let mut i: usize = 0;
    let len = chars.len();
    assert(chars@.skip(0) =~= chars@);
    while i < len
        invariant
            len == chars@.len(),
            i <= len,
            spaced_pairs(chars@) == res@ + spaced_pairs(chars@.skip(i as int)),
        decreases len - i,
    {
        let ghost rest = chars@.skip(i as int);
        if len - i <= 2 {
            let tail = crate::text::copy_range(chars.as_slice(), i, len);
            assert(tail@ =~= rest);
            crate::text::push_chars(&mut res, tail.as_slice());
            i = len;
        } else {
            crate::text::push_char(&mut res, chars[i]);
            crate::text::push_char(&mut res, chars[i + 1]);
            crate::text::push_char(&mut res, ' ');
            assert(rest.take(2) + seq![' '] =~= seq![chars@[i as int], chars@[i + 1], ' ']);
            assert(rest.skip(2) =~= chars@.skip(i + 2));
            i += 2;
        }
    }
    assert(chars@.skip(len as int).len() == 0);
    assert(res@ + Seq::<char>::empty() =~= res@);
    res
}

/// The bytes that `text` is sent as under the send encoding named `name`: a legacy
/// encoding through `encoding_rs`, Latin1/ASCII as each character's low byte, and
/// UTF-8 otherwise.
pub open spec fn encoded_for_send(text: Seq<char>, name: Seq<char>) -> Seq<u8> {
    match receive_encoding_named(name) {
        ReceiveEncoding::Legacy(charset) => encoded(charset, text),
        ReceiveEncoding::Latin1 => low_bytes(text),
        _ => encode_utf8(text),
    }
}

/// The bytes that typed text is sent as: encoded under the send encoding named
/// `send_encoding`, then CR LF when `newline`.
pub fn encode_for_send(text: &str, send_encoding: &str, newline: bool) -> (res: Vec<u8>)
    requires
        text@.len() <= usize::MAX / 64,
    ensures
        res@ == encoded_for_send(text@, send_encoding@) + if newline {
            seq![13u8, 10u8]
        } else {
            Seq::<u8>::empty()
        },
{
    let mut data: Vec<u8> = match receive_encoding_of(send_encoding) {
        ReceiveEncoding::Legacy(charset) => encode_with(charset, text),
        ReceiveEncoding::Latin1 => {
            let chars = crate::text::chars_of(text);
            let mut v: Vec<u8> = Vec::new();
            for i in 0..chars.len()
                invariant
                    chars@ == text@,
                    v@ == low_bytes(chars@.take(i as int)),
            {
                v.push(chars[i] as u32 as u8);
                assert(low_bytes(chars@.take(i + 1)) =~= low_bytes(chars@.take(i as int)).push(
                    (chars@[i as int] as u32) as u8,
                ));
            }
            assert(chars@.take(chars@.len() as int) =~= chars@);
            v
        },
        _ => text.as_bytes_vec(),
    };
    let ghost body = data@;
    if newline {
        data.push(13);
        data.push(10);
        assert(data@ =~= body + seq![13u8, 10u8]);
    } else {
        assert(data@ =~= body + Seq::<u8>::empty());
    }
    data
}

/// The display mode that a saved name selects: `Hex`, `Binary`, or else UTF-8 text.
pub open spec fn display_mode_named(name: Seq<char>) -> DisplayMode {
    if name == "Hex"@ {
        DisplayMode::Hex
    } else if name == "Binary"@ {
        DisplayMode::Binary
    } else {
        DisplayMode::UTF8
    }
}

/// The name a display mode is saved under.
pub open spec fn display_mode_spec_name(mode: DisplayMode) -> Seq<char> {
    match mode {
        DisplayMode::UTF8 => "UTF8"@,
        DisplayMode::Hex => "Hex"@,
        DisplayMode::Binary => "Binary"@,
    }
}

impl DisplayMode {
    /// The display mode that a saved name selects.
    pub fn from_name(name: &str) -> (res: DisplayMode)
        ensures
            res == display_mode_named(name@),
    {
        let n = crate::text::chars_of(name);
        if named(&n, "Hex") {
            DisplayMode::Hex
        } else if named(&n, "Binary") {
            DisplayMode::Binary
        } else {
            DisplayMode::UTF8
        }
    }

    /// The name this display mode is saved under.
    pub fn name(&self) -> (res: String)
        ensures
            res@ == display_mode_spec_name(*self),
    {
        match self {
            DisplayMode::UTF8 => String::from_str("UTF8"),
            DisplayMode::Hex => String::from_str("Hex"),
            DisplayMode::Binary => String::from_str("Binary"),
        }
    }
}

/// A display mode reads back from the name it is saved under.
pub proof fn lemma_display_mode_name_round_trip(mode: DisplayMode)
    ensures
        display_mode_named(display_mode_spec_name(mode)) == mode,
{
    reveal_strlit("UTF8");
    reveal_strlit("Hex");
    reveal_strlit("Binary");
    if mode == DisplayMode::UTF8 {
        assert("UTF8"@ != "Hex"@) by {
            assert("UTF8"@.len() != "Hex"@.len());
        }
        assert("UTF8"@ != "Binary"@) by {
            assert("UTF8"@.len() != "Binary"@.len());
        }
    } else if mode == DisplayMode::Binary {
        assert("Binary"@ != "Hex"@) by {
            assert("Binary"@.len() != "Hex"@.len());
        }
    }
}

/// The ASCII code of the hex digit for `v`.
pub open spec fn hex_byte(v: int) -> u8 {
    if v < 10 {
        (0x30 + v) as u8
    } else {
        (0x37 + v) as u8
    }
}

/// The hex digits of `bytes`, two per byte, without spaces.
pub open spec fn hex_chars(bytes: Seq<u8>) -> Seq<char>
    decreases bytes.len(),
{
    if bytes.len() == 0 {
        Seq::<char>::empty()
    } else {
        seq![hex_digit(bytes[0] as int / 16), hex_digit(bytes[0] as int % 16)] + hex_chars(
            bytes.drop_first(),
        )
    }
}

proof fn lemma_without_spaces_concat(a: Seq<char>, c: Seq<char>)
    ensures
        without_spaces(a + c) == without_spaces(a) + without_spaces(c),
    decreases c.len(),
{
    if c.len() == 0 {
        assert(a + c =~= a);
        assert(without_spaces(a) + without_spaces(c) =~= without_spaces(a));
    } else {
        assert((a + c).drop_last() =~= a + c.drop_last());
        lemma_without_spaces_concat(a, c.drop_last());
        if c.last() == ' ' {
        } else {
            assert(without_spaces(a) + without_spaces(c.drop_last()).push(c.last()) =~= (
            without_spaces(a) + without_spaces(c.drop_last())).push(c.last()));
        }
    }
}

proof fn lemma_hex_chars_push(bytes: Seq<u8>, x: u8)
    ensures
        hex_chars(bytes.push(x)) == hex_chars(bytes) + seq![
            hex_digit(x as int / 16),
            hex_digit(x as int % 16),
        ],
    decreases bytes.len(),
{
    if bytes.len() == 0 {
        assert(bytes.push(x).drop_first() =~= Seq::<u8>::empty());
        assert(bytes.push(x)[0] == x);
        assert(hex_chars(Seq::<u8>::empty()) =~= Seq::<char>::empty());
        assert(hex_chars(bytes) =~= Seq::<char>::empty());
        assert(hex_chars(bytes.push(x)) =~= seq![hex_digit(x as int / 16), hex_digit(x as int % 16)]);
    } else {
        assert(bytes.push(x).drop_first() =~= bytes.drop_first().push(x));
        lemma_hex_chars_push(bytes.drop_first(), x);
        assert(hex_chars(bytes.push(x)) =~= hex_chars(bytes) + seq![
            hex_digit(x as int / 16),
            hex_digit(x as int % 16),
        ]);
    }
}

proof fn lemma_hex_digit_is_not_space(v: int)
    requires
        0 <= v < 16,
    ensures
        hex_digit(v) != ' ',
        hex_digit(v) as u32 == hex_byte(v) as u32,
        hex_value(hex_byte(v)) == Some(v),
{
}

proof fn lemma_without_spaces_hex_dump(bytes: Seq<u8>)
    ensures
        without_spaces(hex_dump(bytes)) == hex_chars(bytes),
    decreases bytes.len(),
{
    if bytes.len() > 0 {
        let x = bytes.last();
        let h = hex_digit(x as int / 16);
        let l = hex_digit(x as int % 16);
        lemma_without_spaces_hex_dump(bytes.drop_last());
        lemma_without_spaces_concat(hex_dump(bytes.drop_last()), seq![h, l, ' ']);
        lemma_hex_digit_is_not_space(x as int / 16);
        lemma_hex_digit_is_not_space(x as int % 16);
        let w = seq![h, l, ' '];
        assert(w.drop_last() =~= seq![h, l]);
        assert(seq![h, l].drop_last() =~= seq![h]);
        assert(seq![h].drop_last() =~= Seq::<char>::empty());
        assert(without_spaces(Seq::<char>::empty()) =~= Seq::<char>::empty());
        assert(seq![h].last() == h);
        assert(without_spaces(seq![h]) =~= seq![h]);
        assert(seq![h, l].last() == l);
        assert(without_spaces(seq![h, l]) =~= seq![h, l]);
        assert(w.last() == ' ');
        assert(without_spaces(w) =~= seq![h, l]);
        lemma_hex_chars_push(bytes.drop_last(), x);
        assert(bytes.drop_last().push(x) =~= bytes);
    }
}

proof fn lemma_ascii_digit_encoding(v: int)
    requires
        0 <= v < 16,
    ensures
        encode_scalar(hex_digit(v) as u32) == seq![hex_byte(v)],
{
    let s = hex_digit(v) as u32;
    assert(s <= 0x7f);
    assert(s <= 0x7f ==> (s & 0x7f) == s) by (bit_vector);
    assert(s == hex_byte(v) as u32);
}

/// The bytes that the hex digits of `bytes` are encoded as.
pub open spec fn hex_char_bytes(bytes: Seq<u8>) -> Seq<u8>
    decreases bytes.len(),
{
    if bytes.len() == 0 {
        Seq::<u8>::empty()
    } else {
        seq![hex_byte(bytes[0] as int / 16), hex_byte(bytes[0] as int % 16)] + hex_char_bytes(
            bytes.drop_first(),
        )
    }
}

proof fn lemma_encode_hex_chars(bytes: Seq<u8>)
    ensures
        encode_utf8(hex_chars(bytes)) == hex_char_bytes(bytes),
    decreases bytes.len(),
{
    if bytes.len() > 0 {
        let h = hex_digit(bytes[0] as int / 16);
        let l = hex_digit(bytes[0] as int % 16);
        let rest = hex_chars(bytes.drop_first());
        let all = seq![h, l] + rest;
        lemma_ascii_digit_encoding(bytes[0] as int / 16);
        lemma_ascii_digit_encoding(bytes[0] as int % 16);
        assert(all[0] == h);
        assert(all.drop_first() =~= seq![l] + rest);
        assert((seq![l] + rest)[0] == l);
        assert((seq![l] + rest).drop_first() =~= rest);
        lemma_encode_hex_chars(bytes.drop_first());
        assert(encode_utf8(seq![l] + rest) == encode_scalar(l as u32) + encode_utf8(rest));
        assert(encode_utf8(all) == encode_scalar(h as u32) + encode_utf8(seq![l] + rest));
        assert(encode_utf8(all) =~= seq![hex_byte(bytes[0] as int / 16)] + (seq![
            hex_byte(bytes[0] as int % 16),
        ] + hex_char_bytes(bytes.drop_first())));
        assert(encode_utf8(all) =~= hex_char_bytes(bytes));
    }
}

proof fn lemma_hex_pairs_of_hex_bytes(bytes: Seq<u8>)
    ensures
        hex_pairs(hex_char_bytes(bytes)) == Some(Ok::<Seq<u8>, ()>(bytes)),
        hex_char_bytes(bytes).len() == 2 * bytes.len(),
    decreases bytes.len(),
{
    if bytes.len() > 0 {
        let b = bytes[0];
        let hi = b as int / 16;
        let lo = b as int % 16;
        let all = hex_char_bytes(bytes);
        lemma_hex_digit_is_not_space(hi);
        lemma_hex_digit_is_not_space(lo);
        lemma_hex_pairs_of_hex_bytes(bytes.drop_first());
        assert(all[0] == hex_byte(hi));
        assert(all[1] == hex_byte(lo));
        assert(all.skip(2) =~= hex_char_bytes(bytes.drop_first()));
        assert(hex_byte(hi) != 0x2B);
        assert(hi * 16 + lo == b as int);
        assert(hex_pair_value(all[0], all[1]) == Some(hi * 16 + lo));
        assert(all.len() >= 2);
        assert(seq![b] + bytes.drop_first() =~= bytes);
        assert(hex_pairs(all) == Some(Ok::<Seq<u8>, ()>(seq![b] + bytes.drop_first())));
    } else {
        assert(hex_char_bytes(bytes) =~= Seq::<u8>::empty());
        assert(bytes =~= Seq::<u8>::empty());
    }
}

/// A hex dump of received bytes, typed into the hex send box, sends those bytes again.
pub proof fn lemma_hex_dump_sends_back(bytes: Seq<u8>)
    ensures
        hex_input(hex_dump(bytes)) == Some(Ok::<Seq<u8>, HexInputError>(bytes)),
{
    lemma_without_spaces_hex_dump(bytes);
    lemma_encode_hex_chars(bytes);
    lemma_hex_pairs_of_hex_bytes(bytes);
}

/// The greedy mixed-encoding decoder reads well-formed UTF-8 exactly as UTF-8.
pub proof fn lemma_chunk_decode_reads_utf8(bytes: Seq<u8>)
    requires
        valid_utf8(bytes),
    ensures
        chunk_text(bytes) == decode_utf8(bytes),
    decreases bytes.len(),
{
    if bytes.len() == 0 {
        assert(decode_utf8(bytes) =~= Seq::<char>::empty());
    } else {
        let n = length_of_first_scalar(bytes);
        let len = bytes.len() as int;
        assert(utf8_pattern_len(bytes) == n);
        assert(pop_first_scalar(bytes) == bytes.subrange(n, len));
        assert(is_char_boundary(pop_first_scalar(bytes), 0));
        assert(is_char_boundary(bytes, n));
        valid_utf8_split(bytes, n);
        decode_utf8_split(bytes, n);
        assert(bytes.take(n) =~= bytes.subrange(0, n));
        assert(utf8_prefix_len(bytes) == n);
        assert(bytes.skip(n) =~= bytes.subrange(n, len));
        lemma_chunk_decode_reads_utf8(bytes.skip(n));
    }
}

/// The automatic reading, and the UTF-8 reading, give well-formed UTF-8 back as its text.
pub proof fn lemma_utf8_reads_back(bytes: Seq<u8>)
    requires
        valid_utf8(bytes),
    ensures
        received_text(bytes, "自动识别"@) == decode_utf8(bytes),
        received_text(bytes, "UTF-8"@) == decode_utf8(bytes),
        receive_encoding_named("UTF-8"@) == ReceiveEncoding::Utf8,
{
    reveal_strlit("自动识别");
    reveal_strlit("UTF-8");
    reveal_strlit("GB2312");
    reveal_strlit("Big5");
    reveal_strlit("EUC-JP");
    reveal_strlit("Shift_JIS");
    reveal_strlit("KOI8-R");
    reveal_strlit("Windows-1251");
    reveal_strlit("Windows-1252");
    reveal_strlit("UTF-16 LE");
    reveal_strlit("UTF-16 BE");
    reveal_strlit("Latin1");
    reveal_strlit("ASCII");
    let u = "UTF-8"@;
    assert(u != "自动识别"@) by { assert(u.len() != "自动识别"@.len()); }
    assert(u != "GB2312"@) by { assert(u[0] != "GB2312"@[0]); }
    assert(u != "Big5"@) by { assert(u.len() != "Big5"@.len()); }
    assert(u != "EUC-JP"@) by { assert(u.len() != "EUC-JP"@.len()); }
    assert(u != "Shift_JIS"@) by { assert(u.len() != "Shift_JIS"@.len()); }
    assert(u != "KOI8-R"@) by { assert(u.len() != "KOI8-R"@.len()); }
    assert(u != "Windows-1251"@) by { assert(u.len() != "Windows-1251"@.len()); }
    assert(u != "Windows-1252"@) by { assert(u.len() != "Windows-1252"@.len()); }
    assert(u != "UTF-16 LE"@) by { assert(u.len() != "UTF-16 LE"@.len()); }
    assert(u != "UTF-16 BE"@) by { assert(u.len() != "UTF-16 BE"@.len()); }
    assert(u != "Latin1"@) by { assert(u.len() != "Latin1"@.len()); }
    assert(u != "ASCII"@) by { assert(u[0] != "ASCII"@[0]); }
}

/// Text of characters below U+0100, sent under a byte-per-character encoding
/// (Latin1 or ASCII), is received under it as itself.
pub proof fn lemma_latin1_send_reads_back(text: Seq<char>, name: Seq<char>)
    requires
        receive_encoding_named(name) == ReceiveEncoding::Latin1,
        forall|i: int| 0 <= i < text.len() ==> (#[trigger] text[i] as u32) < 256,
    ensures
        received_text(encoded_for_send(text, name), name) == text,
{
    let b = low_bytes(text);
    assert forall|i: int| 0 <= i < text.len() implies #[trigger] latin1_chars(b)[i] == text[i] by {
        let c = text[i];
        assert((c as u32) < 256);
        assert(b[i] == (c as u32) as u8);
        assert(b[i] as u32 == c as u32);
        char_u32_cast(c, c as u32);
        assert(latin1_chars(b)[i] == b[i] as char);
    }
    assert(latin1_chars(b) =~= text);
}

/// Text sent in UTF-8 is read back as the same text by the UTF-8 and the automatic
/// receive encodings.
pub proof fn lemma_utf8_send_reads_back(text: Seq<char>)
    ensures
        encoded_for_send(text, "UTF-8"@) == encode_utf8(text),
        received_text(encoded_for_send(text, "UTF-8"@), "UTF-8"@) == text,
        received_text(encoded_for_send(text, "UTF-8"@), "自动识别"@) == text,
{
    encode_utf8_valid_utf8(text);
    lemma_utf8_reads_back(encode_utf8(text));
    encode_utf8_decode_utf8(text);
}


/// Each receive or send encoding name selects its own encoding: the legacy names
/// their charset, `Latin1` and `ASCII` the byte-per-character reading, and `UTF-8`
/// (as any name not listed) UTF-8.
pub proof fn lemma_encoding_names()
    ensures
        receive_encoding_named("自动识别"@) == ReceiveEncoding::Auto,
        receive_encoding_named("GB2312"@) == ReceiveEncoding::Legacy(Charset::Gbk),
        receive_encoding_named("Big5"@) == ReceiveEncoding::Legacy(Charset::Big5),
        receive_encoding_named("EUC-JP"@) == ReceiveEncoding::Legacy(Charset::EucJp),
        receive_encoding_named("Shift_JIS"@) == ReceiveEncoding::Legacy(Charset::ShiftJis),
        receive_encoding_named("KOI8-R"@) == ReceiveEncoding::Legacy(Charset::Koi8R),
        receive_encoding_named("Windows-1251"@) == ReceiveEncoding::Legacy(Charset::Windows1251),
        receive_encoding_named("Windows-1252"@) == ReceiveEncoding::Legacy(Charset::Windows1252),
        receive_encoding_named("UTF-16 LE"@) == ReceiveEncoding::Legacy(Charset::Utf16Le),
        receive_encoding_named("UTF-16 BE"@) == ReceiveEncoding::Legacy(Charset::Utf16Be),
        receive_encoding_named("Latin1"@) == ReceiveEncoding::Latin1,
        receive_encoding_named("ASCII"@) == ReceiveEncoding::Latin1,
        receive_encoding_named("UTF-8"@) == ReceiveEncoding::Utf8,
{
    reveal_strlit("自动识别");
    reveal_strlit("GB2312");
    reveal_strlit("Big5");
    reveal_strlit("EUC-JP");
    reveal_strlit("Shift_JIS");
    reveal_strlit("KOI8-R");
    reveal_strlit("Windows-1251");
    reveal_strlit("Windows-1252");
    reveal_strlit("UTF-16 LE");
    reveal_strlit("UTF-16 BE");
    reveal_strlit("Latin1");
    reveal_strlit("ASCII");
    reveal_strlit("UTF-8");
    assert("自动识别"@ != "GB2312"@) by { assert("自动识别"@.len() != "GB2312"@.len()); }
    assert("自动识别"@ != "Big5"@) by { assert("自动识别"@[0] != "Big5"@[0]); }
    assert("自动识别"@ != "EUC-JP"@) by { assert("自动识别"@.len() != "EUC-JP"@.len()); }
    assert("自动识别"@ != "Shift_JIS"@) by { assert("自动识别"@.len() != "Shift_JIS"@.len()); }
    assert("自动识别"@ != "KOI8-R"@) by { assert("自动识别"@.len() != "KOI8-R"@.len()); }
    assert("自动识别"@ != "Windows-1251"@) by { assert("自动识别"@.len() != "Windows-1251"@.len()); }
    assert("自动识别"@ != "Windows-1252"@) by { assert("自动识别"@.len() != "Windows-1252"@.len()); }
    assert("自动识别"@ != "UTF-16 LE"@) by { assert("自动识别"@.len() != "UTF-16 LE"@.len()); }
    assert("自动识别"@ != "UTF-16 BE"@) by { assert("自动识别"@.len() != "UTF-16 BE"@.len()); }
    assert("自动识别"@ != "Latin1"@) by { assert("自动识别"@.len() != "Latin1"@.len()); }
    assert("自动识别"@ != "ASCII"@) by { assert("自动识别"@.len() != "ASCII"@.len()); }
    assert("自动识别"@ != "UTF-8"@) by { assert("自动识别"@.len() != "UTF-8"@.len()); }
    assert("GB2312"@ != "Big5"@) by { assert("GB2312"@.len() != "Big5"@.len()); }
    assert("GB2312"@ != "EUC-JP"@) by { assert("GB2312"@[0] != "EUC-JP"@[0]); }
    assert("GB2312"@ != "Shift_JIS"@) by { assert("GB2312"@.len() != "Shift_JIS"@.len()); }
    assert("GB2312"@ != "KOI8-R"@) by { assert("GB2312"@[0] != "KOI8-R"@[0]); }
    assert("GB2312"@ != "Windows-1251"@) by { assert("GB2312"@.len() != "Windows-1251"@.len()); }
    assert("GB2312"@ != "Windows-1252"@) by { assert("GB2312"@.len() != "Windows-1252"@.len()); }
    assert("GB2312"@ != "UTF-16 LE"@) by { assert("GB2312"@.len() != "UTF-16 LE"@.len()); }
    assert("GB2312"@ != "UTF-16 BE"@) by { assert("GB2312"@.len() != "UTF-16 BE"@.len()); }
    assert("GB2312"@ != "Latin1"@) by { assert("GB2312"@[0] != "Latin1"@[0]); }
    assert("GB2312"@ != "ASCII"@) by { assert("GB2312"@.len() != "ASCII"@.len()); }
    assert("GB2312"@ != "UTF-8"@) by { assert("GB2312"@.len() != "UTF-8"@.len()); }
    assert("Big5"@ != "EUC-JP"@) by { assert("Big5"@.len() != "EUC-JP"@.len()); }
    assert("Big5"@ != "Shift_JIS"@) by { assert("Big5"@.len() != "Shift_JIS"@.len()); }
    assert("Big5"@ != "KOI8-R"@) by { assert("Big5"@.len() != "KOI8-R"@.len()); }
    assert("Big5"@ != "Windows-1251"@) by { assert("Big5"@.len() != "Windows-1251"@.len()); }
    assert("Big5"@ != "Windows-1252"@) by { assert("Big5"@.len() != "Windows-1252"@.len()); }
    assert("Big5"@ != "UTF-16 LE"@) by { assert("Big5"@.len() != "UTF-16 LE"@.len()); }
    assert("Big5"@ != "UTF-16 BE"@) by { assert("Big5"@.len() != "UTF-16 BE"@.len()); }
    assert("Big5"@ != "Latin1"@) by { assert("Big5"@.len() != "Latin1"@.len()); }
    assert("Big5"@ != "ASCII"@) by { assert("Big5"@.len() != "ASCII"@.len()); }
    assert("Big5"@ != "UTF-8"@) by { assert("Big5"@.len() != "UTF-8"@.len()); }
    assert("EUC-JP"@ != "Shift_JIS"@) by { assert("EUC-JP"@.len() != "Shift_JIS"@.len()); }
    assert("EUC-JP"@ != "KOI8-R"@) by { assert("EUC-JP"@[0] != "KOI8-R"@[0]); }
    assert("EUC-JP"@ != "Windows-1251"@) by { assert("EUC-JP"@.len() != "Windows-1251"@.len()); }
    assert("EUC-JP"@ != "Windows-1252"@) by { assert("EUC-JP"@.len() != "Windows-1252"@.len()); }
    assert("EUC-JP"@ != "UTF-16 LE"@) by { assert("EUC-JP"@.len() != "UTF-16 LE"@.len()); }
    assert("EUC-JP"@ != "UTF-16 BE"@) by { assert("EUC-JP"@.len() != "UTF-16 BE"@.len()); }
    assert("EUC-JP"@ != "Latin1"@) by { assert("EUC-JP"@[0] != "Latin1"@[0]); }
    assert("EUC-JP"@ != "ASCII"@) by { assert("EUC-JP"@.len() != "ASCII"@.len()); }
    assert("EUC-JP"@ != "UTF-8"@) by { assert("EUC-JP"@.len() != "UTF-8"@.len()); }
    assert("Shift_JIS"@ != "KOI8-R"@) by { assert("Shift_JIS"@.len() != "KOI8-R"@.len()); }
    assert("Shift_JIS"@ != "Windows-1251"@) by { assert("Shift_JIS"@.len() != "Windows-1251"@.len()); }
    assert("Shift_JIS"@ != "Windows-1252"@) by { assert("Shift_JIS"@.len() != "Windows-1252"@.len()); }
    assert("Shift_JIS"@ != "UTF-16 LE"@) by { assert("Shift_JIS"@[0] != "UTF-16 LE"@[0]); }
    assert("Shift_JIS"@ != "UTF-16 BE"@) by { assert("Shift_JIS"@[0] != "UTF-16 BE"@[0]); }
    assert("Shift_JIS"@ != "Latin1"@) by { assert("Shift_JIS"@.len() != "Latin1"@.len()); }
    assert("Shift_JIS"@ != "ASCII"@) by { assert("Shift_JIS"@.len() != "ASCII"@.len()); }
    assert("Shift_JIS"@ != "UTF-8"@) by { assert("Shift_JIS"@.len() != "UTF-8"@.len()); }
    assert("KOI8-R"@ != "Windows-1251"@) by { assert("KOI8-R"@.len() != "Windows-1251"@.len()); }
    assert("KOI8-R"@ != "Windows-1252"@) by { assert("KOI8-R"@.len() != "Windows-1252"@.len()); }
    assert("KOI8-R"@ != "UTF-16 LE"@) by { assert("KOI8-R"@.len() != "UTF-16 LE"@.len()); }
    assert("KOI8-R"@ != "UTF-16 BE"@) by { assert("KOI8-R"@.len() != "UTF-16 BE"@.len()); }
    assert("KOI8-R"@ != "Latin1"@) by { assert("KOI8-R"@[0] != "Latin1"@[0]); }
    assert("KOI8-R"@ != "ASCII"@) by { assert("KOI8-R"@.len() != "ASCII"@.len()); }
    assert("KOI8-R"@ != "UTF-8"@) by { assert("KOI8-R"@.len() != "UTF-8"@.len()); }
    assert("Windows-1251"@ != "Windows-1252"@) by { assert("Windows-1251"@[11] != "Windows-1252"@[11]); }
    assert("Windows-1251"@ != "UTF-16 LE"@) by { assert("Windows-1251"@.len() != "UTF-16 LE"@.len()); }
    assert("Windows-1251"@ != "UTF-16 BE"@) by { assert("Windows-1251"@.len() != "UTF-16 BE"@.len()); }
    assert("Windows-1251"@ != "Latin1"@) by { assert("Windows-1251"@.len() != "Latin1"@.len()); }
    assert("Windows-1251"@ != "ASCII"@) by { assert("Windows-1251"@.len() != "ASCII"@.len()); }
    assert("Windows-1251"@ != "UTF-8"@) by { assert("Windows-1251"@.len() != "UTF-8"@.len()); }
    assert("Windows-1252"@ != "UTF-16 LE"@) by { assert("Windows-1252"@.len() != "UTF-16 LE"@.len()); }
    assert("Windows-1252"@ != "UTF-16 BE"@) by { assert("Windows-1252"@.len() != "UTF-16 BE"@.len()); }
    assert("Windows-1252"@ != "Latin1"@) by { assert("Windows-1252"@.len() != "Latin1"@.len()); }
    assert("Windows-1252"@ != "ASCII"@) by { assert("Windows-1252"@.len() != "ASCII"@.len()); }
    assert("Windows-1252"@ != "UTF-8"@) by { assert("Windows-1252"@.len() != "UTF-8"@.len()); }
    assert("UTF-16 LE"@ != "UTF-16 BE"@) by { assert("UTF-16 LE"@[7] != "UTF-16 BE"@[7]); }
    assert("UTF-16 LE"@ != "Latin1"@) by { assert("UTF-16 LE"@.len() != "Latin1"@.len()); }
    assert("UTF-16 LE"@ != "ASCII"@) by { assert("UTF-16 LE"@.len() != "ASCII"@.len()); }
    assert("UTF-16 LE"@ != "UTF-8"@) by { assert("UTF-16 LE"@.len() != "UTF-8"@.len()); }
    assert("UTF-16 BE"@ != "Latin1"@) by { assert("UTF-16 BE"@.len() != "Latin1"@.len()); }
    assert("UTF-16 BE"@ != "ASCII"@) by { assert("UTF-16 BE"@.len() != "ASCII"@.len()); }
    assert("UTF-16 BE"@ != "UTF-8"@) by { assert("UTF-16 BE"@.len() != "UTF-8"@.len()); }
    assert("Latin1"@ != "ASCII"@) by { assert("Latin1"@.len() != "ASCII"@.len()); }
    assert("Latin1"@ != "UTF-8"@) by { assert("Latin1"@.len() != "UTF-8"@.len()); }
    assert("ASCII"@ != "UTF-8"@) by { assert("ASCII"@[0] != "UTF-8"@[0]); }
}

/// Under a legacy encoding name, received bytes are read by that charset's decoder
/// (UTF-16 from two bytes on), and sent text is written by its encoder.
pub proof fn lemma_legacy_names_use_their_charset(bytes: Seq<u8>, text: Seq<char>)
    ensures
        received_text(bytes, "GB2312"@) == decoded(Charset::Gbk, bytes).0,
        received_text(bytes, "Big5"@) == decoded(Charset::Big5, bytes).0,
        received_text(bytes, "EUC-JP"@) == decoded(Charset::EucJp, bytes).0,
        received_text(bytes, "Shift_JIS"@) == decoded(Charset::ShiftJis, bytes).0,
        received_text(bytes, "KOI8-R"@) == decoded(Charset::Koi8R, bytes).0,
        received_text(bytes, "Windows-1251"@) == decoded(Charset::Windows1251, bytes).0,
        received_text(bytes, "Windows-1252"@) == decoded(Charset::Windows1252, bytes).0,
        bytes.len() >= 2 ==> received_text(bytes, "UTF-16 LE"@) == decoded(Charset::Utf16Le, bytes).0,
        bytes.len() >= 2 ==> received_text(bytes, "UTF-16 BE"@) == decoded(Charset::Utf16Be, bytes).0,
        bytes.len() < 2 ==> received_text(bytes, "UTF-16 LE"@) == hex_dump(bytes),
        received_text(bytes, "Latin1"@) == latin1_chars(bytes),
        received_text(bytes, "ASCII"@) == latin1_chars(bytes),
        encoded_for_send(text, "GB2312"@) == encoded(Charset::Gbk, text),
        encoded_for_send(text, "Big5"@) == encoded(Charset::Big5, text),
        encoded_for_send(text, "EUC-JP"@) == encoded(Charset::EucJp, text),
        encoded_for_send(text, "Shift_JIS"@) == encoded(Charset::ShiftJis, text),
        encoded_for_send(text, "KOI8-R"@) == encoded(Charset::Koi8R, text),
        encoded_for_send(text, "Windows-1251"@) == encoded(Charset::Windows1251, text),
        encoded_for_send(text, "Windows-1252"@) == encoded(Charset::Windows1252, text),
        encoded_for_send(text, "UTF-16 LE"@) == encoded(Charset::Utf16Le, text),
        encoded_for_send(text, "UTF-16 BE"@) == encoded(Charset::Utf16Be, text),
        encoded_for_send(text, "Latin1"@) == low_bytes(text),
        encoded_for_send(text, "UTF-8"@) == encode_utf8(text),
{
    lemma_encoding_names();
}

/// The automatic reading takes well-formed UTF-8 as UTF-8 and otherwise, where the
/// whole input decodes as GBK without errors, as that GBK text.
pub proof fn lemma_auto_reads_whole_gbk(bytes: Seq<u8>)
    ensures
        valid_utf8(bytes) ==> received_text(bytes, "自动识别"@) == decode_utf8(bytes),
        !valid_utf8(bytes) && !decoded(Charset::Gbk, bytes).1 ==> received_text(bytes, "自动识别"@)
            == decoded(Charset::Gbk, bytes).0,
        !valid_utf8(bytes) && decoded(Charset::Gbk, bytes).1 && !(potential_gbk(bytes) && has_chinese(
            gbk_pairs_text(bytes),
        )) && !decoded(Charset::Windows1252, bytes).1 ==> received_text(bytes, "自动识别"@)
            == decoded(Charset::Windows1252, bytes).0,
{
    lemma_encoding_names();
}

} // verus!
