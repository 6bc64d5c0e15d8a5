//! The board: a fixed, ordered set of rows and the power-up sequence.
use vstd::prelude::*;

use crate::frame::frame_of;
use crate::row::{
    cooled, frame_view, initial_row, resend_next, row_wf, tick_next, transmit_next, write_next, Row, RowState,
    ValidationError,
};

verus! {

/// Every row of the board is well formed.
pub open spec fn board_wf(rows: Seq<RowState>) -> bool {
    forall|i: int| 0 <= i < rows.len() ==> row_wf(#[trigger] rows[i])
}

/// The rows of the display as built: `A` shows six characters, `B`, `C`
/// and `D` seven each.
pub open spec fn layout() -> Seq<RowState> {
    seq![initial_row('A', 6), initial_row('B', 7), initial_row('C', 7), initial_row('D', 7)]
}

/// A frame handed to the transport at a given time.
pub struct Transmission {
    /// Milliseconds.
    pub at: u64,
    pub frame: String,
}

/// The frames of the power-up sequence in order, and the time from which the
/// board serves the application.
pub struct BootPlan {
    pub sends: Vec<Transmission>,
    /// Milliseconds.
    pub ready_at: u64,
}

/// Milliseconds from the start of the power-up sequence to each of its
/// transmissions: the first clearing, the greeting typed in row by row, and
/// the final clearing.
pub open spec fn boot_offset(k: int) -> int {
    if k < 4 {
        0
    } else if k < 8 {
        1000 + 500 * (k - 4)
    } else {
        5500
    }
}

/// Milliseconds from the start of the power-up sequence until it is over.
pub const BOOT_MILLIS: u64 = 7000;

/// `n` spaces.
pub open spec fn blank(n: nat) -> Seq<char> {
    Seq::new(n, |i: int| ' ')
}

/// The greeting shown on each row during the power-up sequence.
pub open spec fn greeting(row: int) -> Seq<char> {
    if row == 0 {
        seq!['T', 'E', 'L', 'A', 'N', 'D']
    } else if row == 1 {
        seq!['T', 'E', 'R', ' ', 'Z', 'E', 'E']
    } else if row == 2 {
        seq!['D', 'E', 'L', 'U', 'C', 'H', 'T']
    } else {
        seq!['L', 'S', 'T', 'R', 'M', '1', '5']
    }
}

/// The `k`-th frame of the power-up sequence: every row cleared, the
/// greeting on rows 0 to 3, every row cleared again.
pub open spec fn boot_frame(k: int) -> Seq<char> {
    let row = k % 4;
    let s = layout()[row];
    if 4 <= k < 8 {
        frame_of(s.id, s.capacity as int, greeting(row))
    } else {
        frame_of(s.id, s.capacity as int, blank(s.capacity))
    }
}

/// The display board.
pub struct Board {
    rows: Vec<Row>,
}

impl View for Board {
    type V = Seq<RowState>;

    closed spec fn view(&self) -> Seq<RowState> {
        self.rows@.map_values(|r: Row| r@)
    }
}

impl Board {
    /// Builds the board with its rows and runs the power-up sequence from
    /// time `start` (milliseconds). Returns the board and the frames to
    /// transmit, each with the time at which it is due.
    pub fn new(start: u64) -> (r: (Board, BootPlan))
        requires
            start + BOOT_MILLIS <= u64::MAX,
        ensures
            board_wf(r.0@),
            r.0@.len() == 4,
            forall|i: int|
                0 <= i < 4 ==> {
                    let s = #[trigger] r.0@[i];
                    &&& s.id == layout()[i].id
                    &&& s.capacity == layout()[i].capacity
                    &&& s.current == blank(s.capacity)
                    &&& s.pending is None
                    &&& s.last_update == Some(start + 5500)
                },
            r.1.sends@.len() == 12,
            forall|k: int|
                0 <= k < 12 ==> (#[trigger] r.1.sends@[k]).at == start + boot_offset(k)
                    && r.1.sends@[k].frame@ == boot_frame(k),
            r.1.ready_at == start + BOOT_MILLIS,
    {
        let mut rows: Vec<Row> = Vec::new();
        rows.push(Row::new('A', 6));
        rows.push(Row::new('B', 7));
        rows.push(Row::new('C', 7));
        rows.push(Row::new('D', 7));
        let mut board = Board { rows };
        assert(board@ =~= layout());
        let mut sends: Vec<Transmission> = Vec::new();
        proof {
            reveal_strlit("      ");
            reveal_strlit("       ");
            reveal_strlit("TELAND");
            reveal_strlit("TER ZEE");
            reveal_strlit("DELUCHT");
            reveal_strlit("LSTRM15");
            assert("      "@ =~= blank(6));
            assert("       "@ =~= blank(7));
            assert("TELAND"@ =~= greeting(0));
            assert("TER ZEE"@ =~= greeting(1));
            assert("DELUCHT"@ =~= greeting(2));
            assert("LSTRM15"@ =~= greeting(3));
        }
        board.boot_send(0, "      ", start, &mut sends);
        board.boot_send(1, "       ", start, &mut sends);
        board.boot_send(2, "       ", start, &mut sends);
        board.boot_send(3, "       ", start, &mut sends);
        board.boot_send(0, "TELAND", start + 1000, &mut sends);
        board.boot_send(1, "TER ZEE", start + 1500, &mut sends);
        board.boot_send(2, "DELUCHT", start + 2000, &mut sends);
        board.boot_send(3, "LSTRM15", start + 2500, &mut sends);
        board.boot_send(0, "      ", start + 5500, &mut sends);
        board.boot_send(1, "       ", start + 5500, &mut sends);
        board.boot_send(2, "       ", start + 5500, &mut sends);
        board.boot_send(3, "       ", start + 5500, &mut sends);
        (board, BootPlan { sends, ready_at: start + BOOT_MILLIS })
    }

    /// One write of the power-up sequence, which is always transmitted.
    fn boot_send(&mut self, row: usize, text: &str, at: u64, sends: &mut Vec<Transmission>)
        requires
            board_wf(old(self)@),
            row < old(self)@.len(),
            text@.len() == old(self)@[row as int].capacity,
            cooled(old(self)@[row as int].last_update, at as int),
            text@ != old(self)@[row as int].current,
        ensures
            board_wf(final(self)@),
            final(self)@ == old(self)@.update(
                row as int,
                transmit_next(old(self)@[row as int], text@, at as int).0,
            ),
            final(sends)@.len() == old(sends)@.len() + 1,
            forall|k: int| 0 <= k < old(sends)@.len() ==> #[trigger] final(sends)@[k] == old(sends)@[k],
            final(sends)@.last().at == at,
            final(sends)@.last().frame@ == frame_of(
                old(self)@[row as int].id,
                old(self)@[row as int].capacity as int,
                text@,
            ),
    {
        let r = self.write(row, String::from_str(text), at);
        match r {
            Ok(Some(frame)) => {
                sends.push(Transmission { at, frame });
            },
            _ => {
                assert(false);
            },
        }
    }

    /// The number of rows.
    pub fn len(&self) -> (n: usize)
        ensures
            n == self@.len(),
    {
        self.rows.len()
    }

    /// The row at `index`.
    pub fn row(&self, index: usize) -> (r: &Row)
        requires
            index < self@.len(),
        ensures
            r@ == self@[index as int],
    {
        &self.rows[index]
    }

    /// Asks row `row` to show `text` at time `now` (milliseconds). Returns the
    /// frame to transmit, if any.
    pub fn write(&mut self, row: usize, text: String, now: u64) -> (r: Result<
        Option<String>,
        ValidationError,
    >)
        requires
            board_wf(old(self)@),
            row < old(self)@.len(),
        ensures
            board_wf(final(self)@),
            r is Err <==> text@.len() != old(self)@[row as int].capacity,
            r matches Err(e) ==> final(self)@ == old(self)@ && e == (ValidationError {
                expected: old(self)@[row as int].capacity as usize,
                actual: text@.len() as usize,
            }),
            r matches Ok(sent) ==> {
                let (next, frame) = write_next(old(self)@[row as int], text@, now as int);
                &&& final(self)@ == old(self)@.update(row as int, next)
                &&& frame_view(sent) == frame
            },
    {
        let ghost before = self.rows@;
        assert(row_wf(self@[row as int]));
        let r = self.rows[row].write(text, now);
        proof {
            assert(self.rows@ == before.update(row as int, self.rows@[row as int]));
            assert(self@ =~= old(self)@.update(row as int, self.rows@[row as int]@));
        }
        r
    }

    /// Records that the last frame handed out for row `row` was not written:
    /// its text is queued again for the next tick past the cooldown.
    pub fn resend_last(&mut self, row: usize)
        requires
            board_wf(old(self)@),
            row < old(self)@.len(),
        ensures
            board_wf(final(self)@),
            final(self)@ == old(self)@.update(row as int, resend_next(old(self)@[row as int])),
    {
        let ghost before = self.rows@;
        assert(row_wf(self@[row as int]));
        self.rows[row].resend_last();
        proof {
            assert(self.rows@ == before.update(row as int, self.rows@[row as int]));
            assert(self@ =~= old(self)@.update(row as int, self.rows@[row as int]@));
        }
    }

    /// Runs the tick of every row, in order, at time `now` (milliseconds).
    /// Returns, for each row, the frame to transmit, if any.
    pub fn tick(&mut self, now: u64) -> (sent: Vec<Option<String>>)
        requires
            board_wf(old(self)@),
        ensures
            board_wf(final(self)@),
            final(self)@.len() == old(self)@.len(),
            sent@.len() == old(self)@.len(),
            forall|i: int|
                #![trigger final(self)@[i]]
                #![trigger sent@[i]]
                0 <= i < old(self)@.len() ==> (final(self)@[i], frame_view(sent@[i])) == tick_next(
                    old(self)@[i],
                    now as int,
                ),
    {
        let mut sent: Vec<Option<String>> = Vec::new();
        let n = self.rows.len();
        let mut i: usize = 0;
        while i < n
            invariant
                n == self@.len(),
                n == old(self)@.len(),
                i <= n,
                board_wf(self@),
                sent@.len() == i,
                forall|k: int|
                    0 <= k < i ==> (#[trigger] self@[k], frame_view(sent@[k])) == tick_next(
                        old(self)@[k],
                        now as int,
                    ),
                forall|k: int| i <= k < n ==> #[trigger] self@[k] == old(self)@[k],
            decreases n - i,
        {
            let ghost before = self@;
            assert(row_wf(self@[i as int]));
            let f = self.rows[i].tick(now);
            proof {
                assert(self@ =~= before.update(i as int, self.rows@[i as int]@));
            }
            sent.push(f);
            i += 1;
        }
        sent
    }
}

} // verus!
