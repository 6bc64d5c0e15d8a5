//! The wire frame for one row update.
use vstd::prelude::*;

verus! {

/// Number of payload slots in every frame.
pub const PAYLOAD_SLOTS: usize = 18;

/// Character placed in working slot `i` (0..18) before the payload is reversed.
///
/// Every third slot is a separator. The other slots are numbered by their
/// logical position, and logical position `p` shows the text character
/// `capacity - p - 1`, so the text is consumed from its end; positions past
/// the capacity stay blank.
pub open spec fn slot_char(capacity: int, text: Seq<char>, i: int) -> char {
    let logical = i - i / 3;
    if i % 3 == 2 || logical >= capacity {
        ' '
    } else {
        text[capacity - logical - 1]
    }
}

/// The 18-character payload: the working slots in reverse order.
pub open spec fn payload(capacity: int, text: Seq<char>) -> Seq<char> {
    Seq::new(18, |j: int| slot_char(capacity, text, 17 - j))
}

/// The whole frame: the row identifier, a space, the payload, a space, `X`
/// and a carriage return.
pub open spec fn frame_of(id: char, capacity: int, text: Seq<char>) -> Seq<char> {
    seq![id, ' '] + payload(capacity, text) + seq![' ', 'X', '\r']
}

/// A frame is 23 characters: the row identifier, a space, the 18-character
/// payload, a space, `X` and a carriage return; every third payload slot,
/// counted from its end, is a separator space.
pub proof fn lemma_frame_layout(id: char, capacity: int, text: Seq<char>)
    ensures
        frame_of(id, capacity, text).len() == 23,
        frame_of(id, capacity, text)[0] == id,
        frame_of(id, capacity, text)[1] == ' ',
        frame_of(id, capacity, text).subrange(2, 20) == payload(capacity, text),
        frame_of(id, capacity, text)[20] == ' ',
        frame_of(id, capacity, text)[21] == 'X',
        frame_of(id, capacity, text)[22] == '\r',
        forall|j: int| 0 <= j < 18 && (17 - j) % 3 == 2 ==> #[trigger] payload(capacity, text)[j] == ' ',
{
    assert(frame_of(id, capacity, text).subrange(2, 20) =~= payload(capacity, text));
}

/// Relies on std's `FromIterator<&char>` for `String`: the string holds the
/// given characters in the given order.
#[verifier::external_body]
pub(crate) fn chars_to_string(chars: &Vec<char>) -> (s: String)
    ensures
        s@ == chars@,
{
    String::from_iter(chars.iter())
}

/// Encodes `text` for the row `id` whose capacity is `capacity`.
pub fn encode(id: char, capacity: usize, text: &str) -> (frame: String)
    requires
        text@.len() == capacity,
    ensures
        frame@ == frame_of(id, capacity as int, text@),
        frame@.len() == 23,
{
    let mut out: Vec<char> = Vec::new();
    out.push(id);
    out.push(' ');
    let mut j: usize = 0;
    while j < PAYLOAD_SLOTS
        invariant
            j <= PAYLOAD_SLOTS,
            text@.len() == capacity,
            out@.len() == 2 + j,
            out@[0] == id,
            out@[1] == ' ',
            forall|k: int|
                2 <= k < 2 + j ==> #[trigger] out@[k] == slot_char(capacity as int, text@, 19 - k),
        decreases PAYLOAD_SLOTS - j,
    {
        let i: usize = 17 - j;
        let logical: usize = i - i / 3;
        if i % 3 == 2 || logical >= capacity {
            out.push(' ');
        } else {
            out.push(text.get_char(capacity - logical - 1));
        }
        j += 1;
    }
    out.push(' ');
    out.push('X');
    out.push('\r');
    assert(out@ =~= frame_of(id, capacity as int, text@));
    chars_to_string(&out)
}

} // verus!
