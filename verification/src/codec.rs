//! Text and byte encodings shared by hashes, storage keys and messages:
//! lowercase hexadecimal, big-endian integers and decimal numerals.

use vstd::prelude::*;

verus! {

/// The lowercase hexadecimal digit for a value below sixteen.
pub open spec fn hex_digit(n: int) -> char {
    if n == 0 {
        '0'
    } else if n == 1 {
        '1'
    } else if n == 2 {
        '2'
    } else if n == 3 {
        '3'
    } else if n == 4 {
        '4'
    } else if n == 5 {
        '5'
    } else if n == 6 {
        '6'
    } else if n == 7 {
        '7'
    } else if n == 8 {
        '8'
    } else if n == 9 {
        '9'
    } else if n == 10 {
        'a'
    } else if n == 11 {
        'b'
    } else if n == 12 {
        'c'
    } else if n == 13 {
        'd'
    } else if n == 14 {
        'e'
    } else {
        'f'
    }
}

/// Lowercase hexadecimal text of a byte string: two digits per byte, the high
/// nibble first.
pub open spec fn hex_text(bytes: Seq<u8>) -> Seq<char> {
    Seq::new(
        2 * bytes.len(),
        |i: int|
            if i % 2 == 0 {
                hex_digit(bytes[i / 2] as int / 16)
            } else {
                hex_digit(bytes[i / 2] as int % 16)
            },
    )
}

/// The value of one hexadecimal digit given as an ASCII byte, in either case.
pub open spec fn hex_value(c: u8) -> Option<int> {
    if 48 <= c <= 57 {
        Some(c - 48)
    } else if 97 <= c <= 102 {
        Some(c - 97 + 10)
    } else if 65 <= c <= 70 {
        Some(c - 65 + 10)
    } else {
        None
    }
}

/// Whether a byte string is well-formed hexadecimal text: an even number of
/// hexadecimal digits.
pub open spec fn is_hex(text: Seq<u8>) -> bool {
    &&& text.len() % 2 == 0
    &&& forall|i: int| 0 <= i < text.len() ==> (#[trigger] hex_value(text[i])).is_some()
}

/// The bytes that well-formed hexadecimal text stands for.
pub open spec fn hex_bytes(text: Seq<u8>) -> Seq<u8> {
    Seq::new(
        text.len() / 2,
        |i: int|
            (hex_value(text[2 * i]).unwrap() * 16 + hex_value(text[2 * i + 1]).unwrap()) as u8,
    )
}

/// Encodes bytes with `hex::encode`: the result is the lowercase hexadecimal
/// text of the input, two digits per byte.
#[verifier::external_body]
pub(crate) fn hex_encode(bytes: &[u8]) -> (text: String)
    ensures
        text@ == hex_text(bytes@),
{
    hex::encode(bytes)
}

/// Decodes text with `hex::decode`: it succeeds exactly on an even number of
/// hexadecimal digits of either case, and then yields the bytes they stand for.
#[verifier::external_body]
pub(crate) fn hex_decode(text: &[u8]) -> (bytes: Option<Vec<u8>>)
    ensures
        bytes.is_some() == is_hex(text@),
        bytes.is_some() ==> bytes.unwrap()@ == hex_bytes(text@),
{
    hex::decode(text).ok()
}

/// The decimal digit for a value below ten.
pub open spec fn decimal_digit(n: nat) -> char {
    hex_digit(n as int)
}

/// The decimal numeral of a natural number, without sign or leading zeros.
pub open spec fn decimal_text(n: nat) -> Seq<char>
    decreases n,
{
    if n < 10 {
        seq![decimal_digit(n)]
    } else {
        decimal_text(n / 10).push(decimal_digit(n % 10))
    }
}

/// The eight bytes of a 64-bit number, most significant first.
pub open spec fn be64(n: u64) -> Seq<u8> {
    seq![
        (n / 0x100_0000_0000_0000) as u8,
        (n / 0x1_0000_0000_0000 % 256) as u8,
        (n / 0x100_0000_0000 % 256) as u8,
        (n / 0x1_0000_0000 % 256) as u8,
        (n / 0x100_0000 % 256) as u8,
        (n / 0x1_0000 % 256) as u8,
        (n / 0x100 % 256) as u8,
        (n % 256) as u8,
    ]
}

/// Prints a number with `u64`'s `to_string`: its decimal numeral.
#[verifier::external_body]
pub(crate) fn u64_to_string(n: u64) -> (text: String)
    ensures
        text@ == decimal_text(n as nat),
{
    n.to_string()
}

/// Appends the big-endian bytes of a number to a buffer.
pub fn push_be64(buffer: &mut Vec<u8>, n: u64)
    ensures
        final(buffer)@ == old(buffer)@ + be64(n),
{
    let ghost before = buffer@;
    buffer.push((n / 0x100_0000_0000_0000) as u8);
    buffer.push((n / 0x1_0000_0000_0000 % 256) as u8);
    buffer.push((n / 0x100_0000_0000 % 256) as u8);
    buffer.push((n / 0x1_0000_0000 % 256) as u8);
    buffer.push((n / 0x100_0000 % 256) as u8);
    buffer.push((n / 0x1_0000 % 256) as u8);
    buffer.push((n / 0x100 % 256) as u8);
    buffer.push((n % 256) as u8);
    assert(buffer@ =~= before + be64(n));
}

/// Appends a slice to a buffer.
pub fn push_bytes(buffer: &mut Vec<u8>, bytes: &[u8])
    ensures
        final(buffer)@ == old(buffer)@ + bytes@,
{
    let ghost before = buffer@;
    let mut i: usize = 0;
    while i < bytes.len()
        invariant
            i <= bytes.len(),
            buffer@ == before + bytes@.subrange(0, i as int),
        decreases bytes.len() - i,
    {
        buffer.push(bytes[i]);
        i = i + 1;
        assert(buffer@ =~= before + bytes@.subrange(0, i as int));
    }
    assert(bytes@.subrange(0, i as int) =~= bytes@);
}

/// The UTF-8 bytes of a text.
pub open spec fn utf8(text: Seq<char>) -> Seq<u8> {
    vstd::utf8::encode_utf8(text)
}

/// Whether `a` comes before `b` in dictionary order from index `i` on, the
/// bytes before `i` being equal.
pub open spec fn lex_less_from(a: Seq<u8>, b: Seq<u8>, i: int) -> bool
    decreases a.len() - i,
{
    if i < 0 || i >= b.len() {
        false
    } else if i >= a.len() {
        true
    } else if a[i] != b[i] {
        a[i] < b[i]
    } else {
        lex_less_from(a, b, i + 1)
    }
}

/// Dictionary order on byte strings: at the first index where they differ
/// the smaller byte decides, and a proper prefix comes first.
pub open spec fn lex_less(a: Seq<u8>, b: Seq<u8>) -> bool {
    lex_less_from(a, b, 0)
}

/// Whether one byte string comes strictly before another in dictionary
/// order.
pub fn bytes_less(a: &[u8], b: &[u8]) -> (less: bool)
    ensures
        less == lex_less(a@, b@),
{
    let mut i: usize = 0;
    while i < a.len() && i < b.len()
        invariant
            i <= a@.len(),
            i <= b@.len(),
            lex_less(a@, b@) == lex_less_from(a@, b@, i as int),
        decreases a@.len() - i,
    {
        if a[i] != b[i] {
            return a[i] < b[i];
        }
        i = i + 1;
    }
    i < b.len()
}

/// Dictionary order never puts a string before itself.
pub proof fn lex_less_irreflexive(a: Seq<u8>, i: int)
    requires
        0 <= i,
    ensures
        !lex_less_from(a, a, i),
    decreases a.len() - i,
{
    if i < a.len() {
        lex_less_irreflexive(a, i + 1);
    }
}

/// Dictionary order is transitive.
pub proof fn lex_less_transitive(a: Seq<u8>, b: Seq<u8>, c: Seq<u8>, i: int)
    requires
        0 <= i,
        lex_less_from(a, b, i),
        lex_less_from(b, c, i),
    ensures
        lex_less_from(a, c, i),
    decreases a.len() - i,
{
    if i < a.len() && i < b.len() && i < c.len() && a[i] == b[i] && b[i] == c[i] {
        lex_less_transitive(a, b, c, i + 1);
    }
}

/// Of two byte strings that agree before `i`, either one comes before the
/// other from `i` on, or they are the same string.
pub proof fn lex_less_total(a: Seq<u8>, b: Seq<u8>, i: int)
    requires
        0 <= i <= a.len(),
        i <= b.len(),
        forall|j: int| 0 <= j < i ==> a[j] == b[j],
    ensures
        lex_less_from(a, b, i) || lex_less_from(b, a, i) || a == b,
        !(lex_less_from(a, b, i) && lex_less_from(b, a, i)),
        a == b ==> !lex_less_from(a, b, i),
    decreases a.len() - i,
{
    if i < a.len() && i < b.len() {
        if a[i] == b[i] {
            lex_less_total(a, b, i + 1);
        } else {
            assert(a != b);
        }
    } else if i == a.len() && i == b.len() {
        assert(a =~= b);
    } else {
        assert(a.len() != b.len());
    }
}

/// A list of texts as plain values.
pub open spec fn texts_view(texts: Seq<String>) -> Seq<Seq<char>> {
    Seq::new(texts.len(), |i: int| texts[i]@)
}

/// A copy of a list of texts.
pub fn clone_texts(texts: &Vec<String>) -> (copy: Vec<String>)
    ensures
        copy@ == texts@,
{
    let mut copy: Vec<String> = Vec::new();
    let mut i: usize = 0;
    while i < texts.len()
        invariant
            i <= texts.len(),
            copy@ == texts@.subrange(0, i as int),
        decreases texts.len() - i,
    {
        copy.push(texts[i].clone());
        i = i + 1;
        assert(copy@ =~= texts@.subrange(0, i as int));
    }
    assert(texts@.subrange(0, i as int) =~= texts@);
    copy
}

/// The text made of a prefix and a name.
pub fn prefixed(prefix: &str, name: &str) -> (text: String)
    ensures
        text@ == prefix@ + name@,
{
    let mut text = prefix.to_owned();
    text.append(name);
    text
}

/// Whether a character is a decimal digit.
pub open spec fn is_decimal_digit(c: char) -> bool {
    '0' <= c <= '9'
}

/// The number that a string of decimal digits stands for.
pub open spec fn digits_value(text: Seq<char>) -> nat
    decreases text.len(),
{
    if text.len() == 0 {
        0
    } else {
        (digits_value(text.drop_last()) * 10 + (text.last() as nat - 48)) as nat
    }
}

/// A decimal numeral is a nonempty string of decimal digits that stands for
/// its number; so different numbers have different numerals.
pub proof fn decimal_text_is_numeral(n: nat)
    ensures
        decimal_text(n).len() >= 1,
        forall|i: int| 0 <= i < decimal_text(n).len() ==> is_decimal_digit(#[trigger] decimal_text(n)[i]),
        digits_value(decimal_text(n)) == n,
    decreases n,
{
    if n < 10 {
        let text = decimal_text(n);
        assert(text.drop_last() =~= Seq::<char>::empty());
        assert(digits_value(text.drop_last()) == 0);
    } else {
        decimal_text_is_numeral(n / 10);
        let text = decimal_text(n);
        assert(text.drop_last() =~= decimal_text(n / 10));
    }
}

/// The decimal numeral of a 64-bit number has at most twenty digits.
pub proof fn decimal_text_is_short(n: nat)
    requires
        n <= u64::MAX,
    ensures
        decimal_text(n).len() <= 20,
{
    reveal_with_fuel(decimal_text, 21);
}

/// Hexadecimal text has two characters for each byte, none of them outside
/// the sixteen lowercase digits.
pub proof fn hex_text_is_hex(bytes: Seq<u8>)
    ensures
        hex_text(bytes).len() == 2 * bytes.len(),
        forall|i: int|
            0 <= i < hex_text(bytes).len() ==> is_decimal_digit(#[trigger] hex_text(bytes)[i]) || (
            'a' <= hex_text(bytes)[i] <= 'f'),
{
    assert forall|i: int| 0 <= i < hex_text(bytes).len() implies is_decimal_digit(
        #[trigger] hex_text(bytes)[i],
    ) || ('a' <= hex_text(bytes)[i] <= 'f') by {
        let b = bytes[i / 2] as int;
        assert(0 <= b / 16 < 16);
        assert(0 <= b % 16 < 16);
    }
}

/// Texts with the same prefix are equal only where what follows is equal.
pub proof fn prefix_cancels(prefix: Seq<char>, a: Seq<char>, b: Seq<char>)
    requires
        prefix + a == prefix + b,
    ensures
        a == b,
{
    assert(a =~= (prefix + a).subrange(prefix.len() as int, (prefix + a).len() as int));
    assert(b =~= (prefix + b).subrange(prefix.len() as int, (prefix + b).len() as int));
}

/// Whether a text is the given one.
pub fn is_text(text: &String, other: &str) -> (same: bool)
    ensures
        same == (text@ == other@),
{
    let other = other.to_owned();
    *text == other
}

/// A hexadecimal digit is an ASCII character that stands for its value.
proof fn hex_digit_value(n: int)
    requires
        0 <= n < 16,
    ensures
        '\0' <= hex_digit(n) <= '\u{7f}',
        hex_value(hex_digit(n) as u8) == Some(n),
{
}

/// Hexadecimal text is well-formed and stands for the bytes it was made
/// of: decoding what was encoded gives the bytes back.
pub proof fn hex_text_decodes(bytes: Seq<u8>)
    ensures
        is_hex(utf8(hex_text(bytes))),
        hex_bytes(utf8(hex_text(bytes))) == bytes,
{
    let text = hex_text(bytes);
    assert forall|i: int| 0 <= i < text.len() implies '\0' <= #[trigger] text[i] <= '\u{7f}' by {
        let b = bytes[i / 2] as int;
        hex_digit_value(b / 16);
        hex_digit_value(b % 16);
    }
    vstd::utf8::is_ascii_chars_encode_utf8(text);
    let encoded = utf8(text);
    assert forall|i: int| 0 <= i < encoded.len() implies (#[trigger] hex_value(
        encoded[i],
    )).is_some() by {
        let b = bytes[i / 2] as int;
        hex_digit_value(b / 16);
        hex_digit_value(b % 16);
        assert(encoded[i] == text[i] as u8);
    }
    assert forall|i: int| 0 <= i < bytes.len() implies hex_bytes(encoded)[i] == bytes[i] by {
        let b = bytes[i] as int;
        hex_digit_value(b / 16);
        hex_digit_value(b % 16);
        assert(encoded[2 * i] == text[2 * i] as u8);
        assert(encoded[2 * i + 1] == text[2 * i + 1] as u8);
        assert(text[2 * i] == hex_digit(b / 16));
        assert(text[2 * i + 1] == hex_digit(b % 16));
    }
    assert(hex_bytes(encoded) =~= bytes);
}

} // verus!
