//! Base64 of UTF-8 text, with the standard alphabet and `=` padding.

use vstd::prelude::*;
use vstd::string::*;
use vstd::utf8::*;

use crate::text::chars_of;

verus! {

/// The character that fills up the last group of an encoded text.
pub const PAD: char = '=';

/// The symbol that stands for the six bits of `v`.
pub open spec fn symbol(v: int) -> char {
    if v < 26 {
        ('A' as int + v) as char
    } else if v < 52 {
        ('a' as int + (v - 26)) as char
    } else if v < 62 {
        ('0' as int + (v - 52)) as char
    } else if v == 62 {
        '+'
    } else {
        '/'
    }
}

/// Whether `c` is one of the sixty-four symbols.
pub open spec fn is_symbol(c: char) -> bool {
    ||| 'A' <= c <= 'Z'
    ||| 'a' <= c <= 'z'
    ||| '0' <= c <= '9'
    ||| c == '+'
    ||| c == '/'
}

/// The six bits that the symbol `c` stands for.
pub open spec fn symbol_value(c: char) -> int
    recommends
        is_symbol(c),
{
    if 'A' <= c <= 'Z' {
        c as int - 'A' as int
    } else if 'a' <= c <= 'z' {
        c as int - 'a' as int + 26
    } else if '0' <= c <= '9' {
        c as int - '0' as int + 52
    } else if c == '+' {
        62
    } else {
        63
    }
}

/// Byte `i` of `data`, zero past its end.
pub open spec fn byte_at(data: Seq<u8>, i: int) -> int {
    if 0 <= i < data.len() {
        data[i] as int
    } else {
        0
    }
}

/// The 24-bit number that the bytes of group `g` make, three bytes to a group.
pub open spec fn byte_group(data: Seq<u8>, g: int) -> int {
    byte_at(data, 3 * g) * 0x10000 + byte_at(data, 3 * g + 1) * 0x100 + byte_at(data, 3 * g + 2)
}

/// Piece `k` of the four six-bit pieces of a 24-bit number, the highest first.
pub open spec fn sextet(group: int, k: int) -> int {
    if k == 0 {
        group / 0x40000
    } else if k == 1 {
        group / 0x1000 % 64
    } else if k == 2 {
        group / 0x40 % 64
    } else {
        group % 64
    }
}

/// The Base64 text of `data`: as many groups of four characters as `data` has
/// groups of three bytes, the last of them possibly short. A character that
/// holds at least one bit of `data` is a symbol, the others are padding.
pub open spec fn encoded(data: Seq<u8>) -> Seq<char> {
    Seq::new(
        (data.len() + 2) / 3 * 4,
        |i: int|
            if 6 * i < 8 * data.len() {
                symbol(sextet(byte_group(data, i / 4), i % 4))
            } else {
                PAD
            },
    )
}

/// `text` without the padding at its end.
pub open spec fn unpadded(text: Seq<char>) -> Seq<char>
    decreases text.len(),
{
    if text.len() > 0 && text.last() == PAD {
        unpadded(text.drop_last())
    } else {
        text
    }
}

/// The value of symbol `i` of `text`, zero past its end.
pub open spec fn value_at(text: Seq<char>, i: int) -> int {
    if 0 <= i < text.len() {
        symbol_value(text[i])
    } else {
        0
    }
}

/// The 24-bit number that the symbols of group `g` make, four to a group.
pub open spec fn symbol_group(text: Seq<char>, g: int) -> int {
    value_at(text, 4 * g) * 0x40000 + value_at(text, 4 * g + 1) * 0x1000 + value_at(text, 4 * g + 2)
        * 0x40 + value_at(text, 4 * g + 3)
}

/// Piece `k` of the three eight-bit pieces of a 24-bit number, the highest first.
pub open spec fn octet(group: int, k: int) -> int {
    if k == 0 {
        group / 0x10000
    } else if k == 1 {
        group / 0x100 % 256
    } else {
        group % 256
    }
}

/// The bytes that `symbols` hold: every full eight bits of their concatenated
/// values. What is left over at the end is dropped.
pub open spec fn symbols_decoded(symbols: Seq<char>) -> Seq<u8> {
    Seq::new(
        symbols.len() * 6 / 8,
        |i: int| octet(symbol_group(symbols, i / 3), i % 3) as u8,
    )
}

/// Whether every character of `text` is a symbol.
pub open spec fn all_symbols(text: Seq<char>) -> bool {
    forall|i: int| 0 <= i < text.len() ==> is_symbol(#[trigger] text[i])
}

/// The text that `text` is the Base64 encoding of. There is none where a
/// character other than trailing padding is no symbol, or where the bytes are
/// no UTF-8.
pub open spec fn decoded(text: Seq<char>) -> Option<Seq<char>> {
    let symbols = unpadded(text);
    if all_symbols(symbols) && valid_utf8(symbols_decoded(symbols)) {
        Some(decode_utf8(symbols_decoded(symbols)))
    } else {
        None
    }
}

fn symbol_for(v: u32) -> (c: char)
    requires
        v < 64,
    ensures
        c == symbol(v as int),
{
    if v < 26 {
        ('A' as u8 + v as u8) as char
    } else if v < 52 {
        ('a' as u8 + (v - 26) as u8) as char
    } else if v < 62 {
        ('0' as u8 + (v - 52) as u8) as char
    } else if v == 62 {
        '+'
    } else {
        '/'
    }
}

fn value_of(c: char) -> (v: Option<u32>)
    ensures
        v is Some <==> is_symbol(c),
        v matches Some(n) ==> n == symbol_value(c) && n < 64,
{
    if 'A' <= c && c <= 'Z' {
        Some(c as u32 - 'A' as u32)
    } else if 'a' <= c && c <= 'z' {
        Some(c as u32 - 'a' as u32 + 26)
    } else if '0' <= c && c <= '9' {
        Some(c as u32 - '0' as u32 + 52)
    } else if c == '+' {
        Some(62)
    } else if c == '/' {
        Some(63)
    } else {
        None
    }
}

/// Encodes the UTF-8 bytes of `input`.
#[verifier::rlimit(40)]
pub fn base64_encode(input: &str) -> (result: String)
    ensures
        result@ == encoded(input.spec_bytes()),
{
    let bytes = input.as_bytes();
    let ghost data = bytes@;
    let n = bytes.len();
    let mut result = String::new();
    let mut i: usize = 0;
    let ghost mut g: int = 0;
    while i < n
        invariant
            n == bytes.len(),
            bytes@ == data,
            0 <= g,
            i <= n,
            i == 3 * g || (i == n && n < 3 * g < n + 3),
            result@.len() == 4 * g,
            4 * g <= encoded(data).len(),
            result@ =~= encoded(data).take(4 * g),
        decreases n - i,
    {
        let rest = n - i;
        let b0 = bytes[i] as u32;
        let b1 = if rest > 1 {
            bytes[i + 1] as u32
        } else {
            0
        };
        let b2 = if rest > 2 {
            bytes[i + 2] as u32
        } else {
            0
        };
        let triple: u32 = (b0 << 16) | (b1 << 8) | b2;
        assert(triple == b0 * 0x10000 + b1 * 0x100 + b2 && triple < 0x1000000
            && (triple >> 18) & 0x3f == triple / 0x40000 && (triple >> 12) & 0x3f == triple / 0x1000
            % 64 && (triple >> 6) & 0x3f == triple / 0x40 % 64 && triple & 0x3f == triple % 64)
            by (bit_vector)
            requires
                b0 < 256,
                b1 < 256,
                b2 < 256,
                triple == (b0 << 16) | (b1 << 8) | b2,
        ;
        assert(triple == byte_group(data, g));
        result.push(symbol_for((triple >> 18) & 0x3F));
        result.push(symbol_for((triple >> 12) & 0x3F));
        if rest > 1 {
            result.push(symbol_for((triple >> 6) & 0x3F));
        } else {
            result.push(PAD);
        }
        if rest > 2 {
            result.push(symbol_for(triple & 0x3F));
        } else {
            result.push(PAD);
        }
        proof {
            assert(result@ =~= encoded(data).take(4 * (g + 1)));
            g = g + 1;
        }
        i = if rest > 3 {
            i + 3
        } else {
            n
        };
    }
    assert(result@ =~= encoded(data));
    result
}

/// What [`String::from_utf8`] returns on bytes that are no UTF-8.
#[verifier::external_type_specification]
#[verifier::external_body]
pub struct ExFromUtf8Error(std::string::FromUtf8Error);

/// [`String::from_utf8`] accepts exactly the well-formed UTF-8 byte sequences
/// and gives back the characters that they encode.
pub assume_specification[ String::from_utf8 ](vec: Vec<u8>) -> (result: Result<
    String,
    std::string::FromUtf8Error,
>)
    ensures
        result is Ok <==> valid_utf8(vec@),
        result matches Ok(s) ==> s@ == decode_utf8(vec@),
;

/// Removes the padding at the end of `text`.
fn strip_padding(text: &mut Vec<char>)
    ensures
        final(text)@ == unpadded(old(text)@),
{
    while text.len() > 0 && text[text.len() - 1] == PAD
        invariant
            unpadded(text@) == unpadded(old(text)@),
        decreases text.len(),
    {
        let ghost before = text@;
        text.pop();
        assert(text@ =~= before.drop_last());
    }
}

/// Decodes `input`, whose trailing padding counts for nothing, to text.
#[verifier::rlimit(40)]
pub fn base64_decode(input: &str) -> (result: Option<String>)
    ensures
        result.deep_view() == decoded(input@),
{
    let mut symbols = chars_of(input);
    strip_padding(&mut symbols);
    let ghost text = unpadded(input@);
    let n = symbols.len();
    let mut bytes: Vec<u8> = Vec::new();
    let mut i: usize = 0;
    let ghost mut g: int = 0;
    while i < n
        invariant
            n == symbols.len(),
            symbols@ == text,
            text == unpadded(input@),
            0 <= g,
            i <= n,
            i == 4 * g || (i == n && n < 4 * g < n + 4),
            forall|j: int| 0 <= j < i ==> is_symbol(#[trigger] text[j]),
            i == 4 * g ==> bytes@ =~= symbols_decoded(text).take(3 * g),
            i == 4 * g ==> 3 * g <= symbols_decoded(text).len(),
            i != 4 * g ==> bytes@ =~= symbols_decoded(text),
        decreases n - i,
    {
        let rest = n - i;
        let mut values: [u32; 4] = [0, 0, 0, 0];
        let mut k: usize = 0;
        while k < 4 && k < rest
            invariant
                n == symbols.len(),
                symbols@ == text,
                text == unpadded(input@),
                i == 4 * g,
                rest == n - i,
                k <= 4,
                k <= rest,
                forall|j: int| 0 <= j < i + k ==> is_symbol(#[trigger] text[j]),
                forall|j: int| 0 <= j < k ==> #[trigger] values[j] == value_at(text, i + j),
                forall|j: int| k <= j < 4 ==> #[trigger] values[j] == 0,
                forall|j: int| 0 <= j < 4 ==> #[trigger] values[j] < 64,
            decreases 4 - k,
        {
            match value_of(symbols[i + k]) {
                Some(v) => {
                    values[k] = v;
                },
                None => {
                    assert(!is_symbol(text[i + k]));
                    return None;
                },
            }
            k += 1;
        }
        let (v0, v1, v2, v3) = (values[0], values[1], values[2], values[3]);
        let triple: u32 = (v0 << 18) | (v1 << 12) | (v2 << 6) | v3;
        assert(triple == v0 * 0x40000 + v1 * 0x1000 + v2 * 0x40 + v3 && triple < 0x1000000 && (
        triple >> 16) & 0xff == triple / 0x10000 && (triple >> 8) & 0xff == triple / 0x100 % 256
            && triple & 0xff == triple % 256) by (bit_vector)
            requires
                v0 < 64,
                v1 < 64,
                v2 < 64,
                v3 < 64,
                triple == (v0 << 18) | (v1 << 12) | (v2 << 6) | v3,
        ;
        assert(triple == symbol_group(text, g));
        if k > 1 {
            bytes.push(((triple >> 16) & 0xFF) as u8);
        }
        if k > 2 {
            bytes.push(((triple >> 8) & 0xFF) as u8);
        }
        if k > 3 {
            bytes.push((triple & 0xFF) as u8);
        }
        proof {
            g = g + 1;
        }
        i = i + k;
    }
    assert(bytes@ =~= symbols_decoded(text));
    match String::from_utf8(bytes) {
        Ok(s) => Some(s),
        Err(_) => None,
    }
}

proof fn lemma_symbol_round_trip(v: int)
    requires
        0 <= v < 64,
    ensures
        is_symbol(symbol(v)),
        symbol_value(symbol(v)) == v,
        symbol(v) != PAD,
{
}

/// Dropping a run of padding leaves what stood before it.
proof fn lemma_unpadded_drops_padding(text: Seq<char>, n: int)
    requires
        0 <= n <= text.len(),
        forall|i: int| n <= i < text.len() ==> #[trigger] text[i] == PAD,
        n == 0 || text[n - 1] != PAD,
    ensures
        unpadded(text) == text.take(n),
    decreases text.len(),
{
    if n < text.len() {
        lemma_unpadded_drops_padding(text.drop_last(), n);
        assert(text.drop_last().take(n) =~= text.take(n));
    } else {
        assert(text.take(n) =~= text);
    }
}

proof fn lemma_sextet_range(data: Seq<u8>, i: int)
    requires
        0 <= i,
    ensures
        0 <= byte_group(data, i / 4) < 0x1000000,
        0 <= sextet(byte_group(data, i / 4), i % 4) < 64,
{
}

/// How many characters of an encoded text are symbols.
spec fn symbol_count(data: Seq<u8>) -> int {
    (data.len() as int * 8 + 5) / 6
}

#[verifier::rlimit(40)]
proof fn lemma_encoded_symbols(data: Seq<u8>)
    ensures
        symbol_count(data) <= encoded(data).len() <= symbol_count(data) + 2,
        unpadded(encoded(data)) == encoded(data).take(symbol_count(data)),
        all_symbols(unpadded(encoded(data))),
        forall|i: int|
            0 <= i < symbol_count(data) ==> symbol_value(#[trigger] unpadded(encoded(data))[i])
                == sextet(byte_group(data, i / 4), i % 4),
{
    let text = encoded(data);
    let m = symbol_count(data);
    assert forall|i: int| 0 <= i < m implies is_symbol(#[trigger] text[i]) && text[i] != PAD
        && symbol_value(text[i]) == sextet(byte_group(data, i / 4), i % 4) by {
        lemma_sextet_range(data, i);
        lemma_symbol_round_trip(sextet(byte_group(data, i / 4), i % 4));
    }
    if m > 0 {
        assert(text[m - 1] != PAD);
    }
    lemma_unpadded_drops_padding(text, m);
    assert forall|i: int| 0 <= i < m implies #[trigger] unpadded(text)[i] == text[i] by {}
}

/// The sextets of three bytes put together give the bytes back.
proof fn lemma_pieces(b0: int, b1: int, b2: int)
    requires
        0 <= b0 < 256,
        0 <= b1 < 256,
        0 <= b2 < 256,
    ensures
        ({
            let group = b0 * 0x10000 + b1 * 0x100 + b2;
            &&& group == sextet(group, 0) * 0x40000 + sextet(group, 1) * 0x1000 + sextet(group, 2)
                * 0x40 + sextet(group, 3)
            &&& octet(group, 0) == b0
            &&& octet(group, 1) == b1
            &&& octet(group, 2) == b2
            &&& b2 == 0 ==> sextet(group, 3) == 0
            &&& b1 == 0 && b2 == 0 ==> sextet(group, 2) == 0
        }),
{
    let (c0, c1, c2) = (b0 as u32, b1 as u32, b2 as u32);
    let group = (b0 * 0x10000 + b1 * 0x100 + b2) as u32;
    assert(group == group / 0x40000 * 0x40000 + group / 0x1000 % 64 * 0x1000 + group / 0x40 % 64
        * 0x40 + group % 64) by (bit_vector);
    assert(group / 0x10000 == c0 && group / 0x100 % 256 == c1 && group % 256 == c2 && (c2 == 0
        ==> group % 64 == 0) && (c1 == 0 && c2 == 0 ==> group / 0x40 % 64 == 0)) by (bit_vector)
        requires
            c0 < 256,
            c1 < 256,
            c2 < 256,
            group == c0 * 0x10000 + c1 * 0x100 + c2,
    ;
}

/// The symbols that stand for `data` hold each of its bytes.
#[verifier::rlimit(40)]
proof fn lemma_regroup(data: Seq<u8>, symbols: Seq<char>, i: int)
    requires
        0 <= i < data.len(),
        symbols.len() == symbol_count(data),
        forall|j: int|
            0 <= j < symbols.len() ==> symbol_value(#[trigger] symbols[j]) == sextet(
                byte_group(data, j / 4),
                j % 4,
            ),
    ensures
        octet(symbol_group(symbols, i / 3), i % 3) == data[i],
{
    let g = i / 3;
    let group = byte_group(data, g);
    lemma_pieces(byte_at(data, 3 * g), byte_at(data, 3 * g + 1), byte_at(data, 3 * g + 2));
    assert(symbol_value(symbols[4 * g]) == sextet(group, 0));
    assert(symbol_value(symbols[4 * g + 1]) == sextet(group, 1));
    if 4 * g + 2 < symbols.len() {
        assert(symbol_value(symbols[4 * g + 2]) == sextet(group, 2));
    }
    if 4 * g + 3 < symbols.len() {
        assert(symbol_value(symbols[4 * g + 3]) == sextet(group, 3));
    }
    assert(symbol_group(symbols, g) == group);
}

/// Decoding the encoding of bytes gives the bytes back.
pub proof fn symbols_decode_to_bytes(data: Seq<u8>)
    ensures
        all_symbols(unpadded(encoded(data))),
        symbols_decoded(unpadded(encoded(data))) == data,
{
    lemma_encoded_symbols(data);
    let symbols = unpadded(encoded(data));
    assert(symbols.len() == symbol_count(data));
    assert forall|i: int| 0 <= i < data.len() implies symbols_decoded(symbols)[i] == data[i] by {
        lemma_regroup(data, symbols, i);
    }
    assert(symbols_decoded(symbols) =~= data);
}

/// Decoding an encoded text gives the text back, whatever it is.
pub proof fn decode_inverts_encode(text: Seq<char>)
    ensures
        decoded(encoded(encode_utf8(text))) == Some(text),
{
    symbols_decode_to_bytes(encode_utf8(text));
    encode_utf8_valid_utf8(text);
    encode_utf8_decode_utf8(text);
}

/// Two texts with the same encoding are the same text.
pub proof fn encode_is_injective(a: Seq<char>, b: Seq<char>)
    requires
        encoded(encode_utf8(a)) == encoded(encode_utf8(b)),
    ensures
        a == b,
{
    decode_inverts_encode(a);
    decode_inverts_encode(b);
}

/// Padding at the end of a text makes no difference to what it decodes to.
pub proof fn decode_ignores_padding(text: Seq<char>)
    ensures
        decoded(text.push(PAD)) == decoded(text),
{
    assert(text.push(PAD).drop_last() =~= text);
}

/// An encoded text is made of whole groups of four characters, all of them
/// symbols but for at most two padding characters at the end.
pub proof fn encoded_is_well_formed(data: Seq<u8>)
    ensures
        encoded(data).len() == (data.len() + 2) / 3 * 4,
        encoded(data).len() - unpadded(encoded(data)).len() <= 2,
        all_symbols(unpadded(encoded(data))),
        forall|i: int|
            unpadded(encoded(data)).len() <= i < encoded(data).len() ==> #[trigger] encoded(data)[i]
                == PAD,
{
    lemma_encoded_symbols(data);
}

proof fn lemma_bytes_cover_chars(text: Seq<char>)
    ensures
        encode_utf8(text).len() >= text.len(),
    decreases text.len(),
{
    if text.len() > 0 {
        lemma_bytes_cover_chars(text.drop_first());
        char_is_scalar(text[0]);
    }
}

/// No text but the empty one is its own encoding.
pub proof fn encoded_hides_text(text: Seq<char>)
    requires
        text.len() > 0,
    ensures
        encoded(encode_utf8(text)) != text,
{
    lemma_bytes_cover_chars(text);
    assert(encoded(encode_utf8(text)).len() > text.len());
}

/// The symbols in the order of what they stand for.
pub open spec fn alphabet() -> Seq<char> {
    "ABCDEFGHIJKLMNOPQRSTUVWXYZabcdefghijklmnopqrstuvwxyz0123456789+/"@
}

#[verifier::rlimit(40)]
proof fn lemma_alphabet()
    ensures
        alphabet().len() == 64,
        forall|v: int| 0 <= v < 64 ==> #[trigger] alphabet()[v] == symbol(v),
        forall|c: char| #[trigger] is_symbol(c) <==> alphabet().contains(c),
{
    reveal_strlit("ABCDEFGHIJKLMNOPQRSTUVWXYZabcdefghijklmnopqrstuvwxyz0123456789+/");
    assert forall|v: int| 0 <= v < 64 implies #[trigger] alphabet()[v] == symbol(v) by {}
    assert forall|c: char| #[trigger] is_symbol(c) implies alphabet().contains(c) by {
        assert(alphabet()[symbol_value(c)] == c);
    }
    assert forall|c: char| #[trigger] alphabet().contains(c) implies is_symbol(c) by {
        let v = choose|v: int| 0 <= v < alphabet().len() && alphabet()[v] == c;
        lemma_symbol_round_trip(v);
    }
}

/// The text that has, for each of `values`, the symbol at that place of the
/// alphabet, and then `pads` padding characters.
pub open spec fn spelled(values: Seq<int>, pads: nat) -> Seq<char> {
    Seq::new(values.len(), |i: int| alphabet()[values[i]]) + Seq::new(pads, |i: int| '=')
}

/// Whether the bits of `values`, six each, are those of `bytes`, eight each, but for
/// fewer than eight bits left over: a first byte of three takes six bits and two, a
/// second four and four, a third two and six.
pub open spec fn same_bits(values: Seq<int>, bytes: Seq<u8>) -> bool {
    &&& forall|i: int| 0 <= i < values.len() ==> 0 <= #[trigger] values[i] < 64
    &&& 8 * bytes.len() <= 6 * values.len() < 8 * bytes.len() + 8
    &&& forall|i: int|
        0 <= i < bytes.len() ==> #[trigger] bytes[i] == (if i % 3 == 0 {
            values[i / 3 * 4] * 4 + values[i / 3 * 4 + 1] / 16
        } else if i % 3 == 1 {
            values[i / 3 * 4 + 1] % 16 * 16 + values[i / 3 * 4 + 2] / 4
        } else {
            values[i / 3 * 4 + 2] % 4 * 64 + values[i / 3 * 4 + 3]
        })
}

proof fn lemma_pack(v0: int, v1: int, v2: int, v3: int)
    requires
        0 <= v0 < 64,
        0 <= v1 < 64,
        0 <= v2 < 64,
        0 <= v3 < 64,
    ensures
        ({
            let group = v0 * 0x40000 + v1 * 0x1000 + v2 * 0x40 + v3;
            let (b0, b1, b2) = (v0 * 4 + v1 / 16, v1 % 16 * 16 + v2 / 4, v2 % 4 * 64 + v3);
            &&& group == b0 * 0x10000 + b1 * 0x100 + b2
            &&& octet(group, 0) == b0
            &&& octet(group, 1) == b1
            &&& octet(group, 2) == b2
            &&& sextet(group, 0) == v0
            &&& sextet(group, 1) == v1
            &&& sextet(group, 2) == v2
            &&& sextet(group, 3) == v3
        }),
{
    let (c0, c1, c2, c3) = (v0 as u32, v1 as u32, v2 as u32, v3 as u32);
    let group = (v0 * 0x40000 + v1 * 0x1000 + v2 * 0x40 + v3) as u32;
    assert(group / 0x10000 == c0 * 4 + c1 / 16 && group / 0x100 % 256 == c1 % 16 * 16 + c2 / 4
        && group % 256 == c2 % 4 * 64 + c3 && group / 0x40000 == c0 && group / 0x1000 % 64 == c1
        && group / 0x40 % 64 == c2 && group % 64 == c3) by (bit_vector)
        requires
            c0 < 64,
            c1 < 64,
            c2 < 64,
            c3 < 64,
            group == c0 * 0x40000 + c1 * 0x1000 + c2 * 0x40 + c3,
    ;
    assert(group == group / 0x10000 * 0x10000 + group / 0x100 % 256 * 0x100 + group % 256)
        by (bit_vector);
}

#[verifier::rlimit(40)]
proof fn lemma_spelled(values: Seq<int>, pads: nat)
    requires
        forall|i: int| 0 <= i < values.len() ==> 0 <= #[trigger] values[i] < 64,
    ensures
        unpadded(spelled(values, pads)) == spelled(values, 0),
        all_symbols(spelled(values, 0)),
        forall|i: int| value_at(spelled(values, 0), i) == (if 0 <= i < values.len() {
            #[trigger] values[i]
        } else {
            0
        }),
{
    lemma_alphabet();
    let text = spelled(values, pads);
    let n = values.len() as int;
    assert forall|i: int| 0 <= i < n implies is_symbol(#[trigger] text[i]) && text[i] != PAD
        && symbol_value(text[i]) == values[i] by {
        lemma_symbol_round_trip(values[i]);
        assert(text[i] == alphabet()[values[i]]);
    }
    if n > 0 {
        assert(text[n - 1] != PAD);
    }
    lemma_unpadded_drops_padding(text, n);
    assert(text.take(n) =~= spelled(values, 0));
    assert forall|i: int| 0 <= i < n implies #[trigger] spelled(values, 0)[i] == text[i] by {}
    assert forall|i: int| value_at(spelled(values, 0), i) == (if 0 <= i < values.len() {
        #[trigger] values[i]
    } else {
        0
    }) by {
        if 0 <= i < n {
            assert(spelled(values, 0)[i] == text[i]);
        }
    }
}

/// A text of symbols, with any padding behind them, decodes to the text whose
/// UTF-8 has the same bits, but for fewer than eight left over; and to none where
/// these bits are no UTF-8.
#[verifier::rlimit(40)]
pub proof fn decode_reads_bits(values: Seq<int>, pads: nat, bytes: Seq<u8>)
    requires
        same_bits(values, bytes),
    ensures
        decoded(spelled(values, pads)) == (if valid_utf8(bytes) {
            Some(decode_utf8(bytes))
        } else {
            None
        }),
{
    lemma_spelled(values, pads);
    let symbols = spelled(values, 0);
    assert(symbols.len() == values.len());
    assert forall|i: int| 0 <= i < bytes.len() implies symbols_decoded(symbols)[i] == bytes[i] by {
        let g = i / 3;
        assert(value_at(symbols, 4 * g) == values[4 * g]);
        assert(value_at(symbols, 4 * g + 1) == values[4 * g + 1]);
        let v2 = value_at(symbols, 4 * g + 2);
        let v3 = value_at(symbols, 4 * g + 3);
        assert(v2 == if 4 * g + 2 < values.len() { values[4 * g + 2] } else { 0 });
        assert(v3 == if 4 * g + 3 < values.len() { values[4 * g + 3] } else { 0 });
        lemma_pack(values[4 * g], values[4 * g + 1], v2, v3);
        assert(g * 4 == 4 * g);
    }
    assert(symbols_decoded(symbols) =~= bytes);
}

proof fn lemma_unpadded_keeps(text: Seq<char>, j: int)
    requires
        0 <= j < text.len(),
        text[j] != PAD,
    ensures
        j < unpadded(text).len() <= text.len(),
        unpadded(text) == text.take(unpadded(text).len() as int),
    decreases text.len(),
{
    if text.last() == PAD {
        lemma_unpadded_keeps(text.drop_last(), j);
        let n = unpadded(text).len() as int;
        assert(text.drop_last().take(n) =~= text.take(n));
    } else {
        assert(text.take(text.len() as int) =~= text);
    }
}

/// A text does not decode where a character that is not in the alphabet, padding
/// too, stands before or at one that is no padding.
pub proof fn decode_refuses_other_characters(text: Seq<char>, i: int, j: int)
    requires
        0 <= i <= j < text.len(),
        !alphabet().contains(text[i]),
        text[j] != '=',
    ensures
        decoded(text) is None,
{
    lemma_alphabet();
    lemma_unpadded_keeps(text, j);
    assert(unpadded(text)[i] == text[i]);
    assert(!is_symbol(unpadded(text)[i]));
}

/// Whether `values` and `pads` spell `data` as its encoding does: as few values as can
/// hold its bits, with the bits left over zero, and padding to whole groups of four.
pub open spec fn spells(values: Seq<int>, pads: nat, data: Seq<u8>) -> bool {
    &&& same_bits(values, data)
    &&& 6 * values.len() < 8 * data.len() + 6
    &&& data.len() % 3 == 1 ==> values.last() % 16 == 0
    &&& data.len() % 3 == 2 ==> values.last() % 4 == 0
    &&& pads < 4
    &&& (values.len() + pads) % 4 == 0
}

/// Value `i` of `values`, zero past their end.
spec fn filled(values: Seq<int>, i: int) -> int {
    if 0 <= i < values.len() {
        values[i]
    } else {
        0
    }
}

#[verifier::rlimit(40)]
proof fn lemma_group_of_values(values: Seq<int>, data: Seq<u8>, g: int)
    requires
        same_bits(values, data),
        6 * values.len() < 8 * data.len() + 6,
        data.len() % 3 == 1 ==> values.last() % 16 == 0,
        data.len() % 3 == 2 ==> values.last() % 4 == 0,
        0 <= 4 * g < values.len(),
    ensures
        byte_at(data, 3 * g) == filled(values, 4 * g) * 4 + filled(values, 4 * g + 1) / 16,
        byte_at(data, 3 * g + 1) == filled(values, 4 * g + 1) % 16 * 16 + filled(values, 4 * g + 2)
            / 4,
        byte_at(data, 3 * g + 2) == filled(values, 4 * g + 2) % 4 * 64 + filled(values, 4 * g + 3),
{
    let n = data.len() as int;
    let m = values.len() as int;
    assert((3 * g) / 3 == g && (3 * g) % 3 == 0);
    assert((3 * g + 1) / 3 == g && (3 * g + 1) % 3 == 1);
    assert((3 * g + 2) / 3 == g && (3 * g + 2) % 3 == 2);
    assert(g * 4 == 4 * g);
    assert(data[3 * g] == values[4 * g] * 4 + values[4 * g + 1] / 16);
    if 3 * g + 1 < n {
        assert(data[3 * g + 1] == values[4 * g + 1] % 16 * 16 + values[4 * g + 2] / 4);
        if 3 * g + 2 < n {
            assert(data[3 * g + 2] == values[4 * g + 2] % 4 * 64 + values[4 * g + 3]);
        } else {
            assert(m == 4 * g + 3);
        }
    } else {
        assert(m == 4 * g + 2);
    }
}

#[verifier::rlimit(40)]
proof fn lemma_sextet_of_values(values: Seq<int>, data: Seq<u8>, i: int)
    requires
        same_bits(values, data),
        6 * values.len() < 8 * data.len() + 6,
        data.len() % 3 == 1 ==> values.last() % 16 == 0,
        data.len() % 3 == 2 ==> values.last() % 4 == 0,
        0 <= i < values.len(),
    ensures
        sextet(byte_group(data, i / 4), i % 4) == values[i],
{
    let g = i / 4;
    lemma_group_of_values(values, data, g);
    lemma_pack(
        filled(values, 4 * g),
        filled(values, 4 * g + 1),
        filled(values, 4 * g + 2),
        filled(values, 4 * g + 3),
    );
    assert(filled(values, i) == values[i]);
}

/// The encoding of bytes is the text that spells them.
#[verifier::rlimit(40)]
pub proof fn encode_writes_bits(values: Seq<int>, pads: nat, data: Seq<u8>)
    requires
        spells(values, pads, data),
    ensures
        encoded(data) == spelled(values, pads),
{
    lemma_alphabet();
    let text = spelled(values, pads);
    assert(encoded(data).len() == text.len());
    assert forall|i: int| 0 <= i < text.len() implies encoded(data)[i] == text[i] by {
        if i < values.len() {
            lemma_sextet_of_values(values, data, i);
            assert(alphabet()[values[i]] == symbol(values[i]));
            assert(6 * i < 8 * data.len());
        } else {
            assert(6 * i >= 8 * data.len());
        }
    }
    assert(encoded(data) =~= text);
}

proof fn lemma_unpack(b0: int, b1: int, b2: int)
    requires
        0 <= b0 < 256,
        0 <= b1 < 256,
        0 <= b2 < 256,
    ensures
        ({
            let (v0, v1, v2, v3) = (
                b0 / 4,
                b0 % 4 * 16 + b1 / 16,
                b1 % 16 * 4 + b2 / 64,
                b2 % 64,
            );
            &&& 0 <= v0 < 64
            &&& 0 <= v1 < 64
            &&& 0 <= v2 < 64
            &&& 0 <= v3 < 64
            &&& v0 * 4 + v1 / 16 == b0
            &&& v1 % 16 * 16 + v2 / 4 == b1
            &&& v2 % 4 * 64 + v3 == b2
            &&& b1 == 0 ==> v1 % 16 == 0
            &&& b2 == 0 ==> v2 % 4 == 0
        }),
{
    let (c0, c1, c2) = (b0 as u32, b1 as u32, b2 as u32);
    assert(c0 / 4 * 4 + (c0 % 4 * 16 + c1 / 16) / 16 == c0 && (c0 % 4 * 16 + c1 / 16) % 16 * 16 + (c1
        % 16 * 4 + c2 / 64) / 4 == c1 && (c1 % 16 * 4 + c2 / 64) % 4 * 64 + c2 % 64 == c2 && (c1 == 0
        ==> (c0 % 4 * 16 + c1 / 16) % 16 == 0) && (c2 == 0 ==> (c1 % 16 * 4 + c2 / 64) % 4 == 0))
        by (bit_vector)
        requires
            c0 < 256,
            c1 < 256,
            c2 < 256,
    ;
}

/// Value `k` of the four that three bytes make, those of group `g` of `data`.
#[verifier::opaque]
spec fn unpacked(data: Seq<u8>, g: int, k: int) -> int {
    let (b0, b1, b2) = (byte_at(data, 3 * g), byte_at(data, 3 * g + 1), byte_at(data, 3 * g + 2));
    if k == 0 {
        b0 / 4
    } else if k == 1 {
        b0 % 4 * 16 + b1 / 16
    } else if k == 2 {
        b1 % 16 * 4 + b2 / 64
    } else {
        b2 % 64
    }
}

proof fn lemma_unpacked(data: Seq<u8>, g: int)
    requires
        0 <= g,
    ensures
        forall|k: int| 0 <= #[trigger] unpacked(data, g, k) < 64,
        3 * g < data.len() ==> data[3 * g] == unpacked(data, g, 0) * 4 + unpacked(data, g, 1) / 16,
        3 * g + 1 < data.len() ==> data[3 * g + 1] == unpacked(data, g, 1) % 16 * 16 + unpacked(
            data,
            g,
            2,
        ) / 4,
        3 * g + 2 < data.len() ==> data[3 * g + 2] == unpacked(data, g, 2) % 4 * 64 + unpacked(
            data,
            g,
            3,
        ),
        3 * g + 1 >= data.len() ==> unpacked(data, g, 1) % 16 == 0,
        3 * g + 2 >= data.len() ==> unpacked(data, g, 2) % 4 == 0,
{
    reveal(unpacked);
    lemma_unpack(byte_at(data, 3 * g), byte_at(data, 3 * g + 1), byte_at(data, 3 * g + 2));
}

#[verifier::rlimit(40)]
proof fn lemma_unpacked_byte(data: Seq<u8>, values: Seq<int>, i: int)
    requires
        values.len() == symbol_count(data),
        forall|j: int|
            0 <= j < values.len() ==> #[trigger] values[j] == unpacked(data, j / 4, j % 4),
        0 <= i < data.len(),
    ensures
        data[i] == (if i % 3 == 0 {
            values[i / 3 * 4] * 4 + values[i / 3 * 4 + 1] / 16
        } else if i % 3 == 1 {
            values[i / 3 * 4 + 1] % 16 * 16 + values[i / 3 * 4 + 2] / 4
        } else {
            values[i / 3 * 4 + 2] % 4 * 64 + values[i / 3 * 4 + 3]
        }),
{
    let g = i / 3;
    lemma_unpacked(data, g);
    assert((g * 4) / 4 == g && (g * 4) % 4 == 0);
    assert((g * 4 + 1) / 4 == g && (g * 4 + 1) % 4 == 1);
    assert((g * 4 + 2) / 4 == g && (g * 4 + 2) % 4 == 2);
    assert((g * 4 + 3) / 4 == g && (g * 4 + 3) % 4 == 3);
    assert(values[g * 4 + 1] == unpacked(data, g, 1));
    if i % 3 == 0 {
        assert(values[g * 4] == unpacked(data, g, 0));
    } else if i % 3 == 1 {
        assert(values[g * 4 + 2] == unpacked(data, g, 2));
    } else {
        assert(values[g * 4 + 2] == unpacked(data, g, 2));
        assert(values[g * 4 + 3] == unpacked(data, g, 3));
    }
}

proof fn lemma_unpacked_last(data: Seq<u8>, values: Seq<int>)
    requires
        values.len() == symbol_count(data),
        forall|j: int|
            0 <= j < values.len() ==> #[trigger] values[j] == unpacked(data, j / 4, j % 4),
    ensures
        data.len() % 3 == 1 ==> values.last() % 16 == 0,
        data.len() % 3 == 2 ==> values.last() % 4 == 0,
{
    let n = data.len() as int;
    let g = n / 3;
    lemma_unpacked(data, g);
    if n % 3 == 1 {
        let j = values.len() - 1;
        assert(j == 4 * g + 1);
        assert(j / 4 == g && j % 4 == 1);
        assert(values[j] == unpacked(data, g, 1));
    } else if n % 3 == 2 {
        let j = values.len() - 1;
        assert(j == 4 * g + 2);
        assert(j / 4 == g && j % 4 == 2);
        assert(values[j] == unpacked(data, g, 2));
    }
}

/// All bytes can be spelled.
#[verifier::rlimit(40)]
pub proof fn bytes_can_be_spelled(data: Seq<u8>) -> (spelling: (Seq<int>, nat))
    ensures
        spells(spelling.0, spelling.1, data),
{
    let m = symbol_count(data);
    let values = Seq::new(m as nat, |i: int| unpacked(data, i / 4, i % 4));
    assert forall|i: int| 0 <= i < m implies 0 <= #[trigger] values[i] < 64 by {
        lemma_unpacked(data, i / 4);
    }
    assert forall|i: int| 0 <= i < data.len() implies #[trigger] data[i] == (if i % 3 == 0 {
        values[i / 3 * 4] * 4 + values[i / 3 * 4 + 1] / 16
    } else if i % 3 == 1 {
        values[i / 3 * 4 + 1] % 16 * 16 + values[i / 3 * 4 + 2] / 4
    } else {
        values[i / 3 * 4 + 2] % 4 * 64 + values[i / 3 * 4 + 3]
    }) by {
        lemma_unpacked_byte(data, values, i);
    }
    lemma_unpacked_last(data, values);
    (values, ((4 - m % 4) % 4) as nat)
}

/// For all values below sixty-four there are such bytes.
#[verifier::rlimit(40)]
pub proof fn values_can_be_read(values: Seq<int>) -> (bytes: Seq<u8>)
    requires
        forall|i: int| 0 <= i < values.len() ==> 0 <= #[trigger] values[i] < 64,
    ensures
        same_bits(values, bytes),
{
    let bytes = Seq::new(
        values.len() * 6 / 8,
        |i: int|
            (if i % 3 == 0 {
                values[i / 3 * 4] * 4 + values[i / 3 * 4 + 1] / 16
            } else if i % 3 == 1 {
                values[i / 3 * 4 + 1] % 16 * 16 + values[i / 3 * 4 + 2] / 4
            } else {
                values[i / 3 * 4 + 2] % 4 * 64 + values[i / 3 * 4 + 3]
            }) as u8,
    );
    assert forall|i: int| 0 <= i < bytes.len() implies #[trigger] bytes[i] == (if i % 3 == 0 {
        values[i / 3 * 4] * 4 + values[i / 3 * 4 + 1] / 16
    } else if i % 3 == 1 {
        values[i / 3 * 4 + 1] % 16 * 16 + values[i / 3 * 4 + 2] / 4
    } else {
        values[i / 3 * 4 + 2] % 4 * 64 + values[i / 3 * 4 + 3]
    }) by {
        let g = i / 3 * 4;
        if i % 3 == 0 {
            assert(0 <= values[g] < 64 && 0 <= values[g + 1] < 64);
        } else if i % 3 == 1 {
            assert(0 <= values[g + 1] < 64 && 0 <= values[g + 2] < 64);
        } else {
            assert(0 <= values[g + 2] < 64 && 0 <= values[g + 3] < 64);
        }
    }
    bytes
}

} // verus!
