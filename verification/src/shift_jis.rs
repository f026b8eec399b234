//! What Shift-JIS can represent, and what its double-byte code units mean.
use crate::chars::{in_bmp, is_scalar, lemma_char_code};
use vstd::prelude::*;

verus! {

/// Whether `encoding_rs` finds the character unmappable when it encodes it to
/// Shift-JIS.
pub uninterp spec fn shift_jis_unmappable(c: char) -> bool;

/// What `encoding_rs` decodes a byte string to as Shift-JIS: the text, and
/// whether it had malformed sequences to replace.
pub uninterp spec fn shift_jis_decoding(bytes: Seq<u8>) -> (Seq<char>, bool);

/// `encoding_rs::SHIFT_JIS.encode` on the one character `c`: the third item of
/// its result, which tells whether `c` was unmappable. The encoder is a fixed
/// table, so the answer depends on `c` alone; which characters it holds is left
/// unsaid, but that ASCII goes through as it is.
#[verifier::external_body]
fn encode_had_errors(c: char) -> (had_errors: bool)
    ensures
        had_errors == shift_jis_unmappable(c),
        c as int <= 0x7F ==> !had_errors,
{
    let mut buf = [0u8; 4];
    encoding_rs::SHIFT_JIS.encode(c.encode_utf8(&mut buf)).2
}

/// A character of the basic multilingual plane that Shift-JIS can represent.
pub open spec fn representable(c: char) -> bool {
    in_bmp(c) && !shift_jis_unmappable(c)
}

/// The first byte of a double-byte code unit.
pub open spec fn is_lead(byte: u8) -> bool {
    0x81 <= byte <= 0x9F || 0xE0 <= byte <= 0xEF
}

/// The second byte of a double-byte code unit.
pub open spec fn is_trail(byte: u8) -> bool {
    0x40 <= byte <= 0x7E || 0x80 <= byte <= 0xFC
}

/// The character that a decoded code unit stands for: the only one of a text
/// that decoded cleanly. NUL marks an unused code unit.
pub open spec fn lone_char(text: Seq<char>, had_errors: bool) -> Option<char> {
    if !had_errors && text.len() == 1 && text[0] != '\0' {
        Some(text[0])
    } else {
        None
    }
}

/// The two bytes of a code unit, lead byte in the high half.
pub open spec fn code_bytes(code: u16) -> Seq<u8> {
    seq![(code / 256) as u8, (code % 256) as u8]
}

/// Both bytes can stand in a double-byte code unit.
pub open spec fn is_double_byte(code: u16) -> bool {
    is_lead((code / 256) as u8) && is_trail((code % 256) as u8)
}

/// The character of a double-byte code unit.
pub open spec fn code_unit_char(code: u16) -> Option<char> {
    if is_double_byte(code) {
        let (text, had_errors) = shift_jis_decoding(code_bytes(code));
        lone_char(text, had_errors)
    } else {
        None
    }
}

/// A double-byte code unit that decodes without an error.
pub open spec fn is_used(code: u16) -> bool {
    is_double_byte(code) && !shift_jis_decoding(code_bytes(code)).1
}

/// The code unit stands for a character exactly where it is used, and Shift-JIS
/// can represent that character.
pub open spec fn is_settled(code: u16) -> bool {
    match code_unit_char(code) {
        Some(c) => is_used(code) && representable(c),
        None => !is_used(code),
    }
}

/// `encoding_rs::SHIFT_JIS.decode`: the decoded text and whether malformed
/// sequences were replaced in it. Both depend on the bytes alone (a leading
/// byte order mark included, which the call honours). What the tables hold is
/// left unsaid but for three things. ASCII decodes to itself. NUL comes from
/// zero bytes only. A code unit that decodes cleanly gives one character, of the
/// basic multilingual plane, which can be encoded again: the decoder takes it
/// from the tables and ranges that the encoder searches. The bound on the length
/// keeps the size calculation of the output buffer from overflowing.
#[verifier::external_body]
pub(crate) fn decode(bytes: &[u8]) -> (decoded: (String, bool))
    requires
        bytes@.len() <= 0xFFFF,
    ensures
        (decoded.0@, decoded.1) == shift_jis_decoding(bytes@),
        (forall|i: int| 0 <= i < bytes@.len() ==> #[trigger] bytes@[i] <= 0x7F) ==> decoded.0@
            == bytes@.map_values(|b: u8| b as char) && !decoded.1,
        !bytes@.contains(0) ==> !decoded.0@.contains('\0'),
        bytes@.len() == 2 && is_lead(bytes@[0]) && is_trail(bytes@[1]) && !decoded.1
            ==> decoded.0@.len() == 1 && representable(decoded.0@[0]),
{
    let (text, _, had_errors) = encoding_rs::SHIFT_JIS.decode(bytes);
    (text.into_owned(), had_errors)
}

/// The `n`th bit of a bitmap of 64-bit words.
pub open spec fn bit_at(words: Seq<u64>, n: int) -> bool {
    words[n / 64] & (1u64 << ((n % 64) as u64)) != 0
}

proof fn lemma_set_bit(words: Seq<u64>, n: int, word: u64)
    requires
        0 <= n < 64 * words.len(),
        word == words[n / 64] | (1u64 << ((n % 64) as u64)),
    ensures
        forall|m: int|
            0 <= m < 64 * words.len() ==> #[trigger] bit_at(words.update(n / 64, word), m) == (m
                == n || bit_at(words, m)),
{
    assert forall|m: int| 0 <= m < 64 * words.len() implies #[trigger] bit_at(
        words.update(n / 64, word),
        m,
    ) == (m == n || bit_at(words, m)) by {
        if m / 64 == n / 64 {
            let w = words[n / 64];
            let j = (m % 64) as u64;
            let k = (n % 64) as u64;
            assert((((w | (1u64 << k)) & (1u64 << j)) != 0) == (j == k || (w & (1u64 << j)) != 0))
                by (bit_vector)
                requires
                    j < 64,
                    k < 64,
            ;
        }
    }
}

/// Shift-JIS answers, precomputed once.
///
/// Scanned binaries can be tens of megabytes, so the byte sweep must not encode
/// a character per position.
#[derive(Debug)]
pub struct ShiftJis {
    /// Code points Shift-JIS can represent, as a bitmap over the BMP.
    encodable: Vec<u64>,
    /// Decoded character per double-byte code unit, NUL when unused.
    by_code_unit: Vec<char>,
}

impl ShiftJis {
    /// The tables hold what Shift-JIS does and nothing else: a bit per code point
    /// of the BMP, set for the characters that can be encoded, and a character
    /// per 16-bit code, NUL for all but the used code units.
    #[verifier::type_invariant]
    pub open spec fn well_formed(self) -> bool {
        &&& self.words().len() == 0x400
        &&& self.units().len() == 0x1_0000
        &&& forall|n: int|
            0 <= n < 0x1_0000 ==> #[trigger] bit_at(self.words(), n) == (is_scalar(n)
                && !shift_jis_unmappable(n as char))
        &&& forall|code: u16| #[trigger]
            self.units()[code as int] == (match code_unit_char(code) {
                Some(c) => c,
                None => '\0',
            })
        &&& forall|c: char| #[trigger] self.encodes(c) == representable(c)
        &&& forall|code: u16| #[trigger] self.char_of(code) == code_unit_char(code)
        &&& forall|code: u16| #[trigger] is_settled(code)
        &&& forall|c: char| c as int <= 0x7F ==> #[trigger] representable(c)
    }

    /// The bitmap of the code points that Shift-JIS can represent.
    pub closed spec fn words(self) -> Seq<u64> {
        self.encodable@
    }

    /// The decoded character per double-byte code unit.
    pub closed spec fn units(self) -> Seq<char> {
        self.by_code_unit@
    }

    /// The tables list `c` as representable.
    pub open spec fn encodes(self, c: char) -> bool {
        in_bmp(c) && bit_at(self.words(), c as int)
    }

    /// The character that the tables give for a code unit.
    pub open spec fn char_of(self, code: u16) -> Option<char> {
        if self.units()[code as int] != '\0' {
            Some(self.units()[code as int])
        } else {
            None
        }
    }
}

/// The character that a decoded code unit stands for, from what decoding it
/// gave.
pub fn decoded_unit(text: &str, had_errors: bool) -> (c: Option<char>)
    ensures
        c == lone_char(text@, had_errors),
{
    if had_errors {
        return None;
    }
    let mut chars = text.chars();
    match (chars.next(), chars.next()) {
        (Some(c), None) if c != '\0' => Some(c),
        _ => None,
    }
}

fn decode_unit(code: u16) -> (c: Option<char>)
    ensures
        c == code_unit_char(code),
        is_settled(code),
{
    let lead: u8 = (code / 256) as u8;
    let trail: u8 = (code % 256) as u8;
    if ((0x81 <= lead && lead <= 0x9F) || (0xE0 <= lead && lead <= 0xEF)) && ((0x40 <= trail
        && trail <= 0x7E) || (0x80 <= trail && trail <= 0xFC)) {
        let unit = [lead, trail];
        assert(unit@ =~= code_bytes(code));
        let (text, had_errors) = decode(&unit);
        decoded_unit(text.as_str(), had_errors)
    } else {
        None
    }
}

/// Enters into a bitmap over the BMP what encoding `c` gave.
pub fn mark_encodable(words: &mut Vec<u64>, c: char, had_errors: bool)
    requires
        in_bmp(c),
        old(words)@.len() == 0x400,
    ensures
        final(words)@.len() == 0x400,
        forall|n: int|
            0 <= n < 0x1_0000 ==> #[trigger] bit_at(final(words)@, n) == (bit_at(old(words)@, n)
                || n == c as int && !had_errors),
{
    if !had_errors {
        let code: u32 = c as u32;
        let slot: usize = (code / 64) as usize;
        let word: u64 = words[slot] | (1u64 << ((code % 64) as u64));
        proof {
            lemma_set_bit(words@, code as int, word);
        }
        words[slot] = word;
    }
}

fn encodable_bitmap() -> (words: Vec<u64>)
    ensures
        words@.len() == 0x400,
        forall|n: int|
            0 <= n < 0x1_0000 ==> #[trigger] bit_at(words@, n) == (is_scalar(n)
                && !shift_jis_unmappable(n as char)),
        forall|n: int| 0 <= n <= 0x7F ==> #[trigger] bit_at(words@, n),
{
    let mut words: Vec<u64> = vec![0u64; 0x400];
    assert forall|n: int| 0 <= n < 0x1_0000 implies !#[trigger] bit_at(words@, n) by {
        let k = (n % 64) as u64;
        assert(0u64 & (1u64 << k) == 0) by (bit_vector);
    }
    let mut code: u32 = 0;
    while code <= 0xFFFF
        invariant
            code <= 0x1_0000,
            words@.len() == 0x400,
            forall|n: int|
                0 <= n < 0x1_0000 ==> #[trigger] bit_at(words@, n) == (n < code && is_scalar(n)
                    && !shift_jis_unmappable(n as char)),
            forall|n: int| 0 <= n <= 0x7F && n < code ==> #[trigger] bit_at(words@, n),
        decreases 0x1_0000 - code,
    {
        if let Some(c) = char::from_u32(code) {
            mark_encodable(&mut words, c, encode_had_errors(c));
        }
        code = code + 1;
    }
    words
}

fn decoded_code_units() -> (chars: Vec<char>)
    ensures
        chars@.len() == 0x1_0000,
        forall|code: u16|
            (#[trigger] code_unit_char(code)) == (if chars@[code as int] != '\0' {
                Some(chars@[code as int])
            } else {
                None
            }),
        forall|code: u16| #[trigger] is_settled(code),
{
    let mut chars: Vec<char> = Vec::new();
    while chars.len() < 0x1_0000
        invariant
            chars@.len() <= 0x1_0000,
            forall|code: u16|
                code < chars@.len() ==> (#[trigger] code_unit_char(code)) == (if chars@[code as int]
                    != '\0' {
                    Some(chars@[code as int])
                } else {
                    None
                }),
            forall|code: u16|
                code < chars@.len() ==> #[trigger] is_settled(code),
        decreases 0x1_0000 - chars@.len(),
    {
        let code: u16 = chars.len() as u16;
        match decode_unit(code) {
            Some(c) => chars.push(c),
            None => chars.push('\0'),
        }
    }
    chars
}

/// Builds the Shift-JIS tables.
pub fn shift_jis() -> (tables: ShiftJis)
    ensures
        tables.well_formed(),
        tables.words().len() == 0x400,
        forall|n: int|
            0 <= n < 0x1_0000 ==> #[trigger] bit_at(tables.words(), n) == (is_scalar(n)
                && !shift_jis_unmappable(n as char)),
        tables.units().len() == 0x1_0000,
        forall|code: u16| (#[trigger] tables.units()[code as int] != '\0') == is_used(code),
        forall|code: u16|
            is_used(code) ==> shift_jis_decoding(code_bytes(code)).0 == seq![
                #[trigger] tables.units()[code as int],
            ],
{
    let encodable = encodable_bitmap();
    let by_code_unit = decoded_code_units();
    let ghost built = ShiftJis { encodable, by_code_unit };
    assert forall|c: char| #[trigger] built.encodes(c) == representable(c) by {
        lemma_char_code(c);
        if in_bmp(c) {
            assert(bit_at(encodable@, c as int) == !shift_jis_unmappable(c));
        }
    }
    assert forall|c: char| c as int <= 0x7F implies #[trigger] representable(c) by {
        lemma_char_code(c);
        assert(bit_at(encodable@, c as int));
    }
    assert forall|code: u16| #[trigger] built.units()[code as int] == (match code_unit_char(code) {
        Some(c) => c,
        None => '\0',
    }) by {
        assert(built.char_of(code) == code_unit_char(code));
    }
    assert forall|code: u16|
        (#[trigger] built.units()[code as int] != '\0') == is_used(code) && (is_used(code)
            ==> shift_jis_decoding(code_bytes(code)).0 == seq![built.units()[code as int]]) by {
        assert(is_settled(code));
        if is_used(code) {
            assert(shift_jis_decoding(code_bytes(code)).0 =~= seq![built.units()[code as int]]);
        }
    }
    ShiftJis { encodable, by_code_unit }
}

/// Whether Shift-JIS can represent `c`.
pub fn encodable_in_shift_jis(tables: &ShiftJis, c: char) -> (encodable: bool)
    ensures
        encodable == representable(c),
        c as int <= 0x7F ==> encodable,
{
    proof {
        use_type_invariant(tables);
        assert(tables.encodes(c) == representable(c));
    }
    let code: u32 = c as u32;
    code <= 0xFFFF && tables.encodable[(code / 64) as usize] & (1u64 << ((code % 64) as u64)) != 0
}

/// The character of a double-byte Shift-JIS code unit, `None` for an unused
/// one.
pub fn shift_jis_code_to_char(tables: &ShiftJis, code: u16) -> (c: Option<char>)
    ensures
        c == code_unit_char(code),
        c is Some <==> is_used(code),
        c matches Some(x) ==> representable(x),
{
    proof {
        use_type_invariant(tables);
        assert(is_settled(code));
        assert(tables.char_of(code) == code_unit_char(code));
    }
    let c = tables.by_code_unit[code as usize];
    if c != '\0' {
        Some(c)
    } else {
        None
    }
}

proof fn lemma_same_word(a: Seq<u64>, b: Seq<u64>, i: int, k: u64)
    requires
        0 <= i,
        k < 64,
        forall|n: int| 64 * i <= n < 64 * i + 64 ==> #[trigger] bit_at(a, n) == bit_at(b, n),
    ensures
        a[i] >> k == b[i] >> k,
    decreases 64 - k,
{
    let x = a[i];
    let y = b[i];
    assert(bit_at(a, 64 * i + k) == bit_at(b, 64 * i + k));
    if k == 63 {
        assert(x >> 63u64 == y >> 63u64) by (bit_vector)
            requires
                (x & (1u64 << 63u64) != 0) == (y & (1u64 << 63u64) != 0),
        ;
    } else {
        let above = (k + 1) as u64;
        lemma_same_word(a, b, i, above);
        assert(x >> k == y >> k) by (bit_vector)
            requires
                k < 63,
                above == k + 1,
                x >> above == y >> above,
                (x & (1u64 << k) != 0) == (y & (1u64 << k) != 0),
        ;
    }
}

/// However often the tables are built, they are the same: every `ShiftJis` holds
/// the same bitmap and the same characters.
pub proof fn law_all_tables_are_the_same(a: ShiftJis, b: ShiftJis)
    requires
        a.well_formed(),
        b.well_formed(),
    ensures
        a.words() == b.words(),
        a.units() == b.units(),
{
    assert forall|i: int| 0 <= i < 0x400 implies a.words()[i] == b.words()[i] by {
        assert forall|n: int| 64 * i <= n < 64 * i + 64 implies #[trigger] bit_at(a.words(), n)
            == bit_at(b.words(), n) by {
            assert(0 <= n < 0x1_0000);
        }
        lemma_same_word(a.words(), b.words(), i, 0);
        let x = a.words()[i];
        let y = b.words()[i];
        assert(x == y) by (bit_vector)
            requires
                x >> 0u64 == y >> 0u64,
        ;
    }
    assert forall|i: int| 0 <= i < 0x1_0000 implies a.units()[i] == b.units()[i] by {
        let code = i as u16;
        assert(a.units()[code as int] == b.units()[code as int]);
    }
    assert(a.words() =~= b.words());
    assert(a.units() =~= b.units());
}

/// A character can be represented exactly where it fits 16 bits and encoding it
/// gives no error.
pub proof fn law_representable_characters(c: char)
    ensures
        representable(c) <==> c as int <= 0xFFFF && !shift_jis_unmappable(c),
{
}

/// A code unit stands for a character exactly where its bytes are those of a
/// double-byte code unit and decode to that character alone, without an error.
pub proof fn law_code_unit_stands_for_its_decoding(code: u16, c: char)
    ensures
        code_unit_char(code) == Some(c) <==> {
            let (lead, trail) = ((code / 256) as u8, (code % 256) as u8);
            &&& 0x81 <= lead <= 0x9F || 0xE0 <= lead <= 0xEF
            &&& 0x40 <= trail <= 0x7E || 0x80 <= trail <= 0xFC
            &&& shift_jis_decoding(seq![lead, trail]) == (seq![c], false)
            &&& c != '\0'
        },
{
    let (text, had_errors) = shift_jis_decoding(code_bytes(code));
    if text.len() == 1 {
        assert(text =~= seq![text[0]]);
    }
}

/// A code unit is used exactly where its bytes are those of a double-byte code
/// unit and decode without an error.
pub proof fn law_used_code_units(code: u16)
    ensures
        is_used(code) <==> {
            let (lead, trail) = ((code / 256) as u8, (code % 256) as u8);
            &&& 0x81 <= lead <= 0x9F || 0xE0 <= lead <= 0xEF
            &&& 0x40 <= trail <= 0x7E || 0x80 <= trail <= 0xFC
            &&& !shift_jis_decoding(seq![lead, trail]).1
        },
{
}

/// One character other than NUL, cleanly decoded, is what a text stands for.
pub proof fn law_lone_character(text: Seq<char>, had_errors: bool, c: char)
    ensures
        lone_char(text, had_errors) == Some(c) <==> !had_errors && text == seq![c] && c != '\0',
{
    if text.len() == 1 {
        assert(text =~= seq![text[0]]);
    }
}

/// In a bitmap of 64-bit words, bit `n % 64` of word `n / 64` stands for `n`.
pub proof fn law_bits_of_a_bitmap(words: Seq<u64>, n: int)
    requires
        0 <= n < 64 * words.len(),
    ensures
        bit_at(words, n) <==> (words[n / 64] >> ((n % 64) as u64)) & 1 == 1,
{
    let w = words[n / 64];
    let k = (n % 64) as u64;
    assert((w & (1u64 << k) != 0) == ((w >> k) & 1 == 1)) by (bit_vector)
        requires
            k < 64,
    ;
}

} // verus!
