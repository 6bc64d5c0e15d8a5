//! One display row: rate limiting, change suppression and the single
//! pending update held while the row cools down.
use vstd::prelude::*;

use crate::frame::{encode, frame_of};

verus! {

/// Least time, in milliseconds, between two transmissions to one row.
pub const COOLDOWN_MS: u64 = 1000;

/// A text whose length differs from the capacity of the row it was written to.
#[derive(Debug, Clone, Copy, PartialEq, Eq, Structural)]
pub struct ValidationError {
    pub expected: usize,
    pub actual: usize,
}

/// What a row is, as far as its behaviour goes.
pub struct RowState {
    pub id: char,
    pub capacity: nat,
    /// Time of the last transmission; `None` before the first one.
    pub last_update: Option<int>,
    /// The text last transmitted.
    pub current: Seq<char>,
    /// The text waiting for the cooldown to end.
    pub pending: Option<Seq<char>>,
}

/// The texts a row holds are empty or exactly as long as its capacity.
pub open spec fn row_wf(s: RowState) -> bool {
    &&& (s.current.len() == 0 || s.current.len() == s.capacity)
    &&& (s.pending matches Some(p) ==> p.len() == s.capacity)
}

/// A fresh row: never transmitted, showing nothing, with nothing pending.
pub open spec fn initial_row(id: char, capacity: nat) -> RowState {
    RowState { id, capacity, last_update: None, current: Seq::empty(), pending: None }
}

/// Whether at time `now` the cooldown since `last_update` has run out.
pub open spec fn cooled(last_update: Option<int>, now: int) -> bool {
    match last_update {
        None => true,
        Some(t) => now - t >= COOLDOWN_MS,
    }
}

/// A transmission attempt at `now` once the cooldown has run out: the clock
/// restarts and the pending text is dropped; the frame goes out only when
/// `text` differs from what the row shows.
pub open spec fn transmit_next(s: RowState, text: Seq<char>, now: int) -> (RowState, Option<Seq<char>>) {
    if text == s.current {
        (RowState { last_update: Some(now), pending: None, ..s }, None)
    } else {
        (
            RowState { last_update: Some(now), pending: None, current: text, ..s },
            Some(frame_of(s.id, s.capacity as int, text)),
        )
    }
}

/// A write of a text of the right length at `now`: held as the pending text
/// while the row cools down, else transmitted.
pub open spec fn write_next(s: RowState, text: Seq<char>, now: int) -> (RowState, Option<Seq<char>>) {
    if !cooled(s.last_update, now) {
        (RowState { pending: Some(text), ..s }, None)
    } else {
        transmit_next(s, text, now)
    }
}

/// A tick at `now`: the pending text is transmitted once the cooldown has run
/// out; otherwise nothing happens.
pub open spec fn tick_next(s: RowState, now: int) -> (RowState, Option<Seq<char>>) {
    match s.pending {
        Some(p) if cooled(s.last_update, now) => transmit_next(s, p, now),
        _ => (s, None),
    }
}

/// Writes made while a row cools down are coalesced: after two such writes,
/// the first tick past the cooldown transmits exactly one frame, that of the
/// second text (provided the row does not already show it).
pub proof fn lemma_cooldown_coalescing(
    s: RowState,
    first: Seq<char>,
    second: Seq<char>,
    t1: int,
    t2: int,
    t3: int,
)
    requires
        row_wf(s),
        first.len() == s.capacity,
        second.len() == s.capacity,
        !cooled(s.last_update, t1),
        !cooled(s.last_update, t2),
        cooled(s.last_update, t3),
        second != s.current,
    ensures
        ({
            let (s1, f1) = write_next(s, first, t1);
            let (s2, f2) = write_next(s1, second, t2);
            let (s3, f3) = tick_next(s2, t3);
            &&& f1 is None
            &&& f2 is None
            &&& f3 == Some(frame_of(s.id, s.capacity as int, second))
            &&& s3.current == second
            &&& s3.pending is None
        }),
{
}

/// Writing the text a row already shows transmits nothing: after a write past
/// the cooldown that transmitted, a second write of the same text, at any
/// later time, sends no frame and leaves the shown text as it is.
pub proof fn lemma_change_suppression(s: RowState, text: Seq<char>, t1: int, t2: int)
    requires
        row_wf(s),
        text.len() == s.capacity,
        cooled(s.last_update, t1),
        text != s.current,
    ensures
        ({
            let (s1, f1) = write_next(s, text, t1);
            let (s2, f2) = write_next(s1, text, t2);
            &&& f1 == Some(frame_of(s.id, s.capacity as int, text))
            &&& s1.current == text
            &&& f2 is None
            &&& s2.current == s1.current
        }),
{
}

/// A tick with nothing pending, or during the cooldown, changes nothing and
/// sends nothing.
pub proof fn lemma_idle_tick(s: RowState, now: int)
    requires
        s.pending is None || !cooled(s.last_update, now),
    ensures
        tick_next(s, now) == (s, None::<Seq<char>>),
{
}

/// After a frame failed to reach the display: the row no longer claims to
/// show anything, and the text it sent is queued again unless a newer one
/// waits already.
pub open spec fn resend_next(s: RowState) -> RowState {
    RowState {
        current: Seq::empty(),
        pending: if s.pending is Some || s.current.len() == 0 {
            s.pending
        } else {
            Some(s.current)
        },
        ..s
    }
}

/// The characters of an optional frame.
pub open spec fn frame_view(f: Option<String>) -> Option<Seq<char>> {
    match f {
        Some(s) => Some(s@),
        None => None,
    }
}

/// One row of the display.
pub struct Row {
    id: char,
    length: usize,
    last_update: Option<u64>,
    current_text: String,
    next_queued: Option<String>,
}

impl View for Row {
    type V = RowState;

    closed spec fn view(&self) -> RowState {
        RowState {
            id: self.id,
            capacity: self.length as nat,
            last_update: match self.last_update {
                Some(t) => Some(t as int),
                None => None,
            },
            current: self.current_text@,
            pending: match self.next_queued {
                Some(t) => Some(t@),
                None => None,
            },
        }
    }
}

impl Row {
    /// A fresh row with identifier `id` that shows `length` characters.
    pub fn new(id: char, length: usize) -> (r: Row)
        ensures
            r@ == initial_row(id, length as nat),
            row_wf(r@),
    {
        Row { id, length, last_update: None, current_text: String::new(), next_queued: None }
    }

    pub fn id(&self) -> (r: char)
        ensures
            r == self@.id,
    {
        self.id
    }

    pub fn capacity(&self) -> (r: usize)
        ensures
            r == self@.capacity,
    {
        self.length
    }

    /// The text last transmitted.
    pub fn current_text(&self) -> (r: &String)
        ensures
            r@ == self@.current,
    {
        &self.current_text
    }

    /// The text waiting for the cooldown to end.
    pub fn pending_text(&self) -> (r: Option<&String>)
        ensures
            r matches Some(t) ==> self@.pending == Some(t@),
            r is None ==> self@.pending is None,
    {
        match &self.next_queued {
            Some(t) => Some(t),
            None => None,
        }
    }

    fn cooled(&self, now: u64) -> (b: bool)
        ensures
            b == cooled(self@.last_update, now as int),
    {
        match self.last_update {
            None => true,
            Some(t) => now >= t && now - t >= COOLDOWN_MS,
        }
    }

    fn transmit(&mut self, text: String, now: u64) -> (sent: Option<String>)
        requires
            row_wf(old(self)@),
            text@.len() == old(self)@.capacity,
        ensures
            row_wf(final(self)@),
            (final(self)@, frame_view(sent)) == transmit_next(old(self)@, text@, now as int),
    {
        self.last_update = Some(now);
        self.next_queued = None;
        if text == self.current_text {
            return None;
        }
        let frame = encode(self.id, self.length, text.as_str());
        self.current_text = text;
        Some(frame)
    }

    /// Asks the row to show `text` at time `now` (milliseconds). Returns the
    /// frame to transmit, if any.
    pub fn write(&mut self, text: String, now: u64) -> (r: Result<Option<String>, ValidationError>)
        requires
            row_wf(old(self)@),
        ensures
            row_wf(final(self)@),
            r is Err <==> text@.len() != old(self)@.capacity,
            r matches Err(e) ==> final(self)@ == old(self)@ && e == (ValidationError {
                expected: old(self)@.capacity as usize,
                actual: text@.len() as usize,
            }),
            r matches Ok(sent) ==> (final(self)@, frame_view(sent)) == write_next(
                old(self)@,
                text@,
                now as int,
            ),
    {
        let actual = text.as_str().unicode_len();
        if actual != self.length {
            return Err(ValidationError { expected: self.length, actual });
        }
        if !self.cooled(now) {
            self.next_queued = Some(text);
            return Ok(None);
        }
        Ok(self.transmit(text, now))
    }

    /// Records that the last frame handed out for this row was not written:
    /// its text is queued again for the next tick past the cooldown.
    pub fn resend_last(&mut self)
        requires
            row_wf(old(self)@),
        ensures
            row_wf(final(self)@),
            final(self)@ == resend_next(old(self)@),
    {
        let mut shown = String::new();
        std::mem::swap(&mut shown, &mut self.current_text);
        if self.next_queued.is_none() && shown.as_str().unicode_len() > 0 {
            self.next_queued = Some(shown);
        }
    }

    /// Transmits the pending text at time `now` (milliseconds) once the
    /// cooldown has run out. Returns the frame to transmit, if any.
    pub fn tick(&mut self, now: u64) -> (sent: Option<String>)
        requires
            row_wf(old(self)@),
        ensures
            row_wf(final(self)@),
            (final(self)@, frame_view(sent)) == tick_next(old(self)@, now as int),
    {
        if !self.cooled(now) {
            return None;
        }
        match self.next_queued.take() {
            None => None,
            Some(text) => self.transmit(text, now),
        }
    }
}

} // verus!
