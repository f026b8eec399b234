//! The characters that a raw script stores.
use crate::chars::CharSet;
use crate::shift_jis::{decode, shift_jis_decoding};
use vstd::prelude::*;
use vstd::slice::slice_subrange;

verus! {

broadcast use vstd::set::group_set_axioms;

/// Opcode that pushes a script string: `0x0E <u8 len> <bytes...>`, with the
/// operand terminated by NUL.
pub const OPCODE_PUSH_STRING: u8 = 0x0E;

/// Longest `pushstring` operand worth decoding; dialogue lines are far shorter
/// and a wrong length would desynchronize the scan.
pub const MAX_PUSHSTRING_LEN: usize = 200;

/// An operand without its terminator.
pub open spec fn unterminated(operand: Seq<u8>) -> Seq<u8> {
    if operand.len() > 0 && operand.last() == 0 {
        operand.drop_last()
    } else {
        operand
    }
}

/// The string operand of a `pushstring` at `i`, without its terminator. Only an
/// operand of a fitting length without embedded NULs is a string operand.
pub open spec fn operand_at(script: Seq<u8>, i: int) -> Option<Seq<u8>> {
    if 0 <= i && i + 2 < script.len() && script[i] == OPCODE_PUSH_STRING && 0 < script[i + 1]
        <= MAX_PUSHSTRING_LEN && i + 2 + script[i + 1] <= script.len() {
        let payload = unterminated(script.subrange(i + 2, i + 2 + script[i + 1]));
        if payload.contains(0) {
            None
        } else {
            Some(payload)
        }
    } else {
        None
    }
}

/// The character occurs in the string operand of a `pushstring` at `i`.
pub open spec fn is_pushed_at(script: Seq<u8>, i: int, c: char) -> bool {
    operand_at(script, i) matches Some(payload) && shift_jis_decoding(payload).0.contains(c)
}

/// The characters of all string operands before `n`.
pub open spec fn text_before(script: Seq<u8>, n: int) -> Set<char> {
    Set::new(|c: char| exists|i: int| i < n && #[trigger] is_pushed_at(script, i, c))
}

/// The characters that the script stores in its string operands.
pub open spec fn script_text(script: Seq<u8>) -> Set<char> {
    text_before(script, script.len() as int)
}

/// Every byte is an ASCII character.
pub open spec fn is_ascii_bytes(bytes: Seq<u8>) -> bool {
    forall|i: int| 0 <= i < bytes.len() ==> #[trigger] bytes[i] <= 0x7F
}

/// Whether the bytes hold a NUL.
fn has_nul(bytes: &[u8]) -> (found: bool)
    ensures
        found == bytes@.contains(0),
{
    let mut i: usize = 0;
    while i < bytes.len()
        invariant
            i <= bytes@.len(),
            forall|j: int| 0 <= j < i ==> #[trigger] bytes@[j] != 0,
        decreases bytes@.len() - i,
    {
        if bytes[i] == 0 {
            return true;
        }
        i = i + 1;
    }
    false
}

/// The string operand of a `pushstring` at `i`.
pub fn pushed_string(script: &[u8], i: usize) -> (operand: Option<&[u8]>)
    ensures
        match operand {
            Some(payload) => operand_at(script@, i as int) == Some(payload@),
            None => operand_at(script@, i as int) is None,
        },
{
    if script.len() < 2 || i >= script.len() - 2 || script[i] != OPCODE_PUSH_STRING {
        return None;
    }
    let len: usize = script[i + 1] as usize;
    let start: usize = i + 2;
    if len == 0 || len > MAX_PUSHSTRING_LEN || len > script.len() - start {
        return None;
    }
    let mut payload = slice_subrange(script, start, start + len);
    if payload[len - 1] == 0 {
        payload = slice_subrange(script, start, start + len - 1);
        assert(payload@ =~= script@.subrange(start as int, start + len).drop_last());
    }
    if has_nul(payload) {
        None
    } else {
        Some(payload)
    }
}

/// Characters the script stores in its `pushstring` operands.
pub fn script_chars(script: &[u8]) -> (chars: CharSet)
    ensures
        chars@ == script_text(script@),
        !chars@.contains('\0'),
        forall|i: int, k: int|
            #![trigger operand_at(script@, i)->0[k]]
            operand_at(script@, i) is Some && is_ascii_bytes(operand_at(script@, i)->0) && 0 <= k
                < operand_at(script@, i)->0.len() ==> chars@.contains(
                operand_at(script@, i)->0[k] as char,
            ),
{
    let mut chars = CharSet::new();
    let mut i: usize = 0;
    assert(chars@ =~= text_before(script@, 0));
    while i < script.len()
        invariant
            i <= script@.len(),
            chars@ == text_before(script@, i as int),
            !chars@.contains('\0'),
            forall|j: int, k: int|
                #![trigger operand_at(script@, j)->0[k]]
                j < i && operand_at(script@, j) is Some && is_ascii_bytes(
                    operand_at(script@, j)->0,
                ) && 0 <= k < operand_at(script@, j)->0.len() ==> chars@.contains(
                    operand_at(script@, j)->0[k] as char,
                ),
        decreases script@.len() - i,
    {
        let ghost before = chars@;
        if let Some(payload) = pushed_string(script, i) {
            let (text, _) = decode(payload);
            chars.extend(text.as_str());
            proof {
                assert(is_ascii_bytes(payload@) ==> text@ == payload@.map_values(
                    |b: u8| b as char,
                ));
                assert forall|k: int| 0 <= k < payload@.len() && is_ascii_bytes(
                    payload@,
                ) implies chars@.contains(#[trigger] payload@[k] as char) by {
                    assert(text@[k] == payload@[k] as char);
                    assert(text@.contains(text@[k]));
                }
            }
        }
        assert(chars@ =~= text_before(script@, i + 1)) by {
            assert forall|c: char| #[trigger] chars@.contains(c) == text_before(
                script@,
                i + 1,
            ).contains(c) by {
                if is_pushed_at(script@, i as int, c) {
                    assert(chars@.contains(c));
                }
                if before.contains(c) {
                    let j = choose|j: int| j < i && #[trigger] is_pushed_at(script@, j, c);
                    assert(j < i + 1);
                }
            }
        }
        i = i + 1;
    }
    chars
}

/// A string written as a `pushstring` operand is read back, whatever stands
/// before and behind it.
pub proof fn law_written_operand_is_read(front: Seq<u8>, text: Seq<u8>, back: Seq<u8>)
    requires
        text.len() < MAX_PUSHSTRING_LEN,
        !text.contains(0),
    ensures
        operand_at(
            front + seq![OPCODE_PUSH_STRING, (text.len() + 1) as u8] + text + seq![0u8] + back,
            front.len() as int,
        ) == Some(text),
{
    let script = front + seq![OPCODE_PUSH_STRING, (text.len() + 1) as u8] + text + seq![0u8] + back;
    let i = front.len() as int;
    assert(script[i] == OPCODE_PUSH_STRING);
    assert(script[i + 1] == (text.len() + 1) as u8);
    let operand = script.subrange(i + 2, i + 2 + script[i + 1]);
    assert(operand =~= text.push(0u8));
    assert(operand.drop_last() =~= text);
}

/// What a script stores, a longer one that starts with it stores too.
pub proof fn law_longer_script_keeps_text(script: Seq<u8>, more: Seq<u8>)
    ensures
        script_text(script).subset_of(script_text(script + more)),
{
    assert forall|c: char| #[trigger] script_text(script).contains(c) implies script_text(
        script + more,
    ).contains(c) by {
        let i = choose|i: int| i < script.len() && #[trigger] is_pushed_at(script, i, c);
        assert((script + more).subrange(i + 2, i + 2 + script[i + 1]) =~= script.subrange(
            i + 2,
            i + 2 + script[i + 1],
        ));
        assert(is_pushed_at(script + more, i, c));
    }
}

/// Every character of every string operand is collected: wherever the opcode
/// 0x0E is followed by a length of 1 to 200 and that many bytes, and these are
/// `payload`, with or without a NUL behind it, the script's text holds all that
/// `payload` decodes to.
pub proof fn law_every_operand_is_collected(script: Seq<u8>, i: int, payload: Seq<u8>)
    requires
        0 <= i,
        i + 2 < script.len(),
        script[i] == 0x0E,
        1 <= script[i + 1] <= 200,
        i + 2 + script[i + 1] <= script.len(),
        !payload.contains(0),
        script.subrange(i + 2, i + 2 + script[i + 1]) == payload || script.subrange(
            i + 2,
            i + 2 + script[i + 1],
        ) == payload.push(0),
    ensures
        operand_at(script, i) == Some(payload),
        shift_jis_decoding(payload).0.to_set().subset_of(script_text(script)),
{
    let operand = script.subrange(i + 2, i + 2 + script[i + 1]);
    if operand == payload {
        assert(payload.contains(payload.last()));
    } else {
        assert(operand.drop_last() =~= payload);
    }
    assert(unterminated(operand) == payload);
    assert forall|c: char| #[trigger] shift_jis_decoding(payload).0.to_set().contains(c) implies
        script_text(script).contains(c) by {
        assert(is_pushed_at(script, i, c));
    }
}

/// Nothing but string operands is collected: each character of the script's
/// text is one that the 1 to 200 bytes behind an opcode 0x0E and its length
/// decode to, once a NUL at their end is taken off, and there is no other NUL
/// among them.
pub proof fn law_only_operands_are_collected(script: Seq<u8>, c: char)
    requires
        script_text(script).contains(c),
    ensures
        exists|i: int|
            #![trigger script[i]]
            0 <= i && i + 2 < script.len() && script[i] == 0x0E && 1 <= script[i + 1] <= 200 && i
                + 2 + script[i + 1] <= script.len() && {
                let operand = script.subrange(i + 2, i + 2 + script[i + 1]);
                let payload = if operand.last() == 0 {
                    operand.drop_last()
                } else {
                    operand
                };
                !payload.contains(0) && shift_jis_decoding(payload).0.contains(c)
            },
{
    let i = choose|i: int| i < script.len() && #[trigger] is_pushed_at(script, i, c);
    assert(script[i] == 0x0E);
}

/// A line written as a terminated string operand is collected whole, whatever it
/// is made of and whatever stands before and behind it.
pub proof fn law_written_line_is_collected(front: Seq<u8>, text: Seq<u8>, back: Seq<u8>)
    requires
        text.len() < 200,
        !text.contains(0),
    ensures
        shift_jis_decoding(text).0.to_set().subset_of(
            script_text(front + seq![0x0Eu8, (text.len() + 1) as u8] + text + seq![0u8] + back),
        ),
{
    let script = front + seq![0x0Eu8, (text.len() + 1) as u8] + text + seq![0u8] + back;
    let i = front.len() as int;
    assert(script[i] == 0x0E);
    assert(script[i + 1] == text.len() + 1);
    assert(script.subrange(i + 2, i + 2 + script[i + 1]) =~= text.push(0u8));
    law_every_operand_is_collected(script, i, text);
}

/// A line of up to 200 bytes without a terminator is collected whole too.
pub proof fn law_written_line_needs_no_terminator(front: Seq<u8>, text: Seq<u8>, back: Seq<u8>)
    requires
        1 <= text.len() <= 200,
        !text.contains(0),
    ensures
        shift_jis_decoding(text).0.to_set().subset_of(
            script_text(front + seq![0x0Eu8, text.len() as u8] + text + back),
        ),
{
    let script = front + seq![0x0Eu8, text.len() as u8] + text + back;
    let i = front.len() as int;
    assert(script[i] == 0x0E);
    assert(script[i + 1] == text.len());
    assert(script.subrange(i + 2, i + 2 + script[i + 1]) =~= text);
    law_every_operand_is_collected(script, i, text);
}

/// The string operand at a place is what stands there: an operand that is read
/// is the 1 to 200 bytes behind an opcode 0x0E and its length, but for a NUL at
/// their end, and holds no NUL.
pub proof fn law_operand_is_what_stands_there(script: Seq<u8>, i: int)
    requires
        operand_at(script, i) is Some,
    ensures
        0 <= i,
        i + 2 + script[i + 1] <= script.len(),
        script[i] == 0x0E,
        1 <= script[i + 1] <= 200,
        !operand_at(script, i)->0.contains(0),
        script.subrange(i + 2, i + 2 + script[i + 1]) == operand_at(script, i)->0
            || script.subrange(i + 2, i + 2 + script[i + 1]) == operand_at(script, i)->0.push(0),
{
    let operand = script.subrange(i + 2, i + 2 + script[i + 1]);
    if operand.last() == 0 {
        assert(operand =~= operand.drop_last().push(0));
    }
}

} // verus!
