//! The race console: the participants, the selected table line, the team
//! whose stopwatch runs, and the texts that go to the board.
use vstd::prelude::*;

use crate::selection::{next_index, next_selection, previous_index, previous_selection};
use crate::team::{
    board_time, board_time_text, lemma_not_ranks_before_transitive,
    lemma_ranks_before_asymmetric, ranks_before, shown_time, start_stop_next, Team, TeamState,
};

verus! {

broadcast use {vstd::seq_lib::to_multiset_remove, vstd::seq_lib::to_multiset_insert};

/// Board row that shows the time of the team whose stopwatch runs.
pub const RUNNING_ROW: usize = 1;

/// Board row that shows the leader's time.
pub const LEADER_ROW: usize = 3;

/// A text for one row of the board.
pub struct BoardText {
    pub row: usize,
    pub text: String,
}

/// The row and the characters of a board text.
pub open spec fn board_text_view(b: BoardText) -> (usize, Seq<char>) {
    (b.row, b.text@)
}

/// The board text for `row`, if there is one.
pub open spec fn text_for(row: usize, text: Option<Seq<char>>) -> Seq<(usize, Seq<char>)> {
    match text {
        Some(t) => seq![(row, t)],
        None => seq![],
    }
}

/// What the console is, as far as its behaviour goes.
pub struct AppState {
    pub teams: Seq<TeamState>,
    pub selected: Option<usize>,
    /// The team whose stopwatch was started last.
    pub active: u32,
    pub is_running: bool,
    /// The identifier the next team gets.
    pub last_id: u32,
}

/// Some team has the identifier `id`.
pub open spec fn has_id(teams: Seq<TeamState>, id: u32) -> bool {
    exists|k: int| 0 <= k < teams.len() && #[trigger] teams[k].id == id
}

/// The first team with the identifier `id`.
pub open spec fn index_of_id(teams: Seq<TeamState>, id: u32) -> int {
    choose|k: int|
        0 <= k < teams.len() && teams[k].id == id && forall|j: int|
            0 <= j < k ==> #[trigger] teams[j].id != id
}

/// The selection lies in the table, and while a stopwatch runs its team is
/// in the table.
pub open spec fn app_wf(s: AppState) -> bool {
    &&& (s.selected matches Some(i) ==> i < s.teams.len())
    &&& (s.is_running ==> has_id(s.teams, s.active))
}

/// No team ranks before a team ahead of it.
pub open spec fn sorted(teams: Seq<TeamState>) -> bool {
    forall|a: int, b: int| 0 <= a < b < teams.len() ==> !ranks_before(#[trigger] teams[b], #[trigger] teams[a])
}

/// The board text for the time of the team whose stopwatch was started last.
pub open spec fn running_text(s: AppState, now: int) -> Option<Seq<char>> {
    board_time(shown_time(s.teams[index_of_id(s.teams, s.active)], now))
}

proof fn lemma_insert_sorted(p: Seq<TeamState>, x: TeamState, j: int)
    requires
        sorted(p),
        0 <= j <= p.len(),
        forall|k: int| j <= k < p.len() ==> ranks_before(x, #[trigger] p[k]),
        j > 0 ==> !ranks_before(x, p[j - 1]),
    ensures
        sorted(p.insert(j, x)),
{
    let q = p.insert(j, x);
    assert forall|a: int, b: int| 0 <= a < b < q.len() implies !ranks_before(
        #[trigger] q[b],
        #[trigger] q[a],
    ) by {
        if b < j {
            assert(q[a] == p[a] && q[b] == p[b]);
        } else if b == j {
            assert(q[a] == p[a]);
            if a < j - 1 {
                assert(!ranks_before(p[j - 1], p[a]));
                lemma_not_ranks_before_transitive(x, p[j - 1], p[a]);
            }
        } else if a == j {
            assert(q[b] == p[b - 1]);
            assert(ranks_before(x, p[b - 1]));
            lemma_ranks_before_asymmetric(x, p[b - 1]);
        } else if a < j {
            assert(q[a] == p[a] && q[b] == p[b - 1]);
        } else {
            assert(q[a] == p[a - 1] && q[b] == p[b - 1]);
        }
    }
}

proof fn lemma_index_of_id(teams: Seq<TeamState>, id: u32, k: int)
    requires
        0 <= k < teams.len(),
        teams[k].id == id,
        forall|j: int| 0 <= j < k ==> #[trigger] teams[j].id != id,
    ensures
        index_of_id(teams, id) == k,
{
    let c = index_of_id(teams, id);
    if c < k {
        assert(teams[c].id != id);
    } else if c > k {
        assert(teams[k].id != id);
    }
}

/// The console.
pub struct App {
    teams: Vec<Team>,
    selected: Option<usize>,
    active: u32,
    is_running: bool,
    last_id: u32,
}

impl View for App {
    type V = AppState;

    closed spec fn view(&self) -> AppState {
        AppState {
            teams: self.teams@.map_values(|t: Team| t@),
            selected: self.selected,
            active: self.active,
            is_running: self.is_running,
            last_id: self.last_id,
        }
    }
}

impl App {
    /// A console without teams.
    pub fn new() -> (r: App)
        ensures
            r@ == (AppState {
                teams: Seq::empty(),
                selected: None,
                active: 0,
                is_running: false,
                last_id: 0,
            }),
            app_wf(r@),
    {
        let r = App { teams: Vec::new(), selected: None, active: 0, is_running: false, last_id: 0 };
        assert(r@.teams =~= Seq::empty());
        r
    }

    /// The teams, in table order.
    pub fn teams(&self) -> (r: &Vec<Team>)
        ensures
            r@.map_values(|t: Team| t@) == self@.teams,
    {
        &self.teams
    }

    pub fn selected(&self) -> (r: Option<usize>)
        ensures
            r == self@.selected,
    {
        self.selected
    }

    /// Whether the stopwatch of the last started team runs, as far as the
    /// console knows.
    pub fn is_running(&self) -> (r: bool)
        ensures
            r == self@.is_running,
    {
        self.is_running
    }

    /// The identifier the next team gets.
    pub fn last_id(&self) -> (r: u32)
        ensures
            r == self@.last_id,
    {
        self.last_id
    }

    /// Adds a team at the end of the table, with the next identifier.
    pub fn add_team(&mut self, name: String, start_time: String)
        requires
            app_wf(old(self)@),
            old(self)@.last_id < u32::MAX,
        ensures
            app_wf(final(self)@),
            final(self)@ == (AppState {
                teams: old(self)@.teams.push(
                    TeamState {
                        id: old(self)@.last_id,
                        name: name@,
                        start_time: start_time@,
                        race_time: Seq::empty(),
                        running_since: None,
                    },
                ),
                last_id: (old(self)@.last_id + 1) as u32,
                ..old(self)@
            }),
    {
        let t = Team::new(self.last_id, name, start_time);
        self.teams.push(t);
        self.last_id = self.last_id + 1;
        assert(self@.teams =~= old(self)@.teams.push(t@));
        proof {
            if self.is_running {
                let k = choose|k: int| 0 <= k < old(self)@.teams.len() && #[trigger] old(self)@.teams[k].id == self.active;
                assert(self@.teams[k].id == self.active);
            }
        }
    }

    /// Selects the next line of the table.
    pub fn next(&mut self)
        requires
            app_wf(old(self)@),
        ensures
            app_wf(final(self)@),
            final(self)@ == (AppState {
                selected: next_index(old(self)@.selected, old(self)@.teams.len() as usize),
                ..old(self)@
            }),
    {
        self.selected = next_selection(self.selected, self.teams.len());
    }

    /// Selects the previous line of the table.
    pub fn previous(&mut self)
        requires
            app_wf(old(self)@),
        ensures
            app_wf(final(self)@),
            final(self)@ == (AppState {
                selected: previous_index(old(self)@.selected, old(self)@.teams.len() as usize),
                ..old(self)@
            }),
    {
        self.selected = previous_selection(self.selected, self.teams.len());
    }

    /// The first team with the identifier of the last started one.
    fn find_active(&self) -> (k: usize)
        requires
            app_wf(self@),
            self@.is_running,
        ensures
            k == index_of_id(self@.teams, self@.active),
            k < self@.teams.len(),
    {
        let mut k: usize = 0;
        while k < self.teams.len()
            invariant
                app_wf(self@),
                self@.is_running,
                k <= self@.teams.len(),
                forall|j: int| 0 <= j < k ==> #[trigger] self@.teams[j].id != self@.active,
            decreases self@.teams.len() - k,
        {
            if self.teams[k].id() == self.active {
                proof {
                    lemma_index_of_id(self@.teams, self@.active, k as int);
                }
                return k;
            }
            k += 1;
        }
        proof {
            let w = choose|w: int| 0 <= w < self@.teams.len() && #[trigger] self@.teams[w].id == self@.active;
            assert(self@.teams[w].id != self@.active);
        }
        0
    }

    /// The stopwatch button at `now` (milliseconds), on the selected team.
    /// With no stopwatch running, the selected team's starts. While one runs,
    /// only its team can stop it: the time it shows goes to the board, and the
    /// selected team's stopwatch stops.
    pub fn start_stop_current(&mut self, now: u64) -> (r: Option<BoardText>)
        requires
            app_wf(old(self)@),
        ensures
            app_wf(final(self)@),
            ({
                let s = old(self)@;
                match s.selected {
                    None => final(self)@ == s && r is None,
                    Some(i) => if !s.is_running {
                        &&& final(self)@ == (AppState {
                            teams: s.teams.update(i as int, start_stop_next(s.teams[i as int], now as int)),
                            active: s.teams[i as int].id,
                            is_running: true,
                            ..s
                        })
                        &&& r is None
                    } else if s.active == s.teams[i as int].id {
                        &&& final(self)@ == (AppState {
                            teams: s.teams.update(i as int, start_stop_next(s.teams[i as int], now as int)),
                            is_running: false,
                            ..s
                        })
                        &&& r matches Some(b) ==> b.row == RUNNING_ROW && running_text(s, now as int) == Some(b.text@)
                        &&& r is None ==> running_text(s, now as int) is None
                    } else {
                        final(self)@ == s && r is None
                    },
                }
            }),
    {
        let i = match self.selected {
            Some(i) => i,
            None => return None,
        };
        if self.is_running {
            if self.active != self.teams[i].id() {
                return None;
            }
            let k = self.find_active();
            let time = self.teams[k].get_time(now);
            let shown = match board_time_text(time.as_str()) {
                Some(text) => Some(BoardText { row: RUNNING_ROW, text }),
                None => None,
            };
            self.toggle(i, now);
            self.is_running = false;
            shown
        } else {
            self.toggle(i, now);
            assert(self.teams@.len() == self@.teams.len());
            assert(self.teams@[i as int]@ == self@.teams[i as int]);
            self.active = self.teams[i].id();
            self.is_running = true;
            proof {
                assert(self@.teams[i as int].id == self.active);
            }
            None
        }
    }

    /// Clears the selected team's race time and stops its stopwatch.
    pub fn reset_current(&mut self)
        requires
            app_wf(old(self)@),
        ensures
            app_wf(final(self)@),
            ({
                let s = old(self)@;
                match s.selected {
                    None => final(self)@ == s,
                    Some(i) => final(self)@ == (AppState {
                        teams: s.teams.update(
                            i as int,
                            TeamState { race_time: Seq::empty(), running_since: None, ..s.teams[i as int] },
                        ),
                        ..s
                    }),
                }
            }),
    {
        let i = match self.selected {
            Some(i) => i,
            None => return,
        };
        let ghost before = self.teams@;
        self.teams[i].reset_time();
        proof {
            assert(self.teams@ == before.update(i as int, self.teams@[i as int]));
            let s = old(self)@;
            assert(self@.teams =~= s.teams.update(
                i as int,
                TeamState { race_time: Seq::empty(), running_since: None, ..s.teams[i as int] },
            ));
            if s.is_running {
                let k = choose|k: int| 0 <= k < s.teams.len() && #[trigger] s.teams[k].id == s.active;
                assert(self@.teams[k].id == s.active);
            }
        }
    }

    /// Puts the teams in ranking order, keeping the order of teams that rank
    /// alike.
    fn sort_teams(&mut self)
        requires
            app_wf(old(self)@),
        ensures
            app_wf(final(self)@),
            final(self)@.teams.to_multiset() == old(self)@.teams.to_multiset(),
            final(self)@.teams.len() == old(self)@.teams.len(),
            sorted(final(self)@.teams),
            final(self)@ == (AppState { teams: final(self)@.teams, ..old(self)@ }),
    {
        let n = self.teams.len();
        let mut i: usize = 0;
        while i < n
            invariant
                n == self@.teams.len(),
                i <= n,
                sorted(self@.teams.take(i as int)),
                self@.teams.to_multiset() == old(self)@.teams.to_multiset(),
                self@ == (AppState { teams: self@.teams, ..old(self)@ }),
            decreases n - i,
        {
            let ghost prev = self@.teams;
            let x = self.teams.remove(i);
            assert(self@.teams =~= prev.remove(i as int));
            assert(x@ == prev[i as int]);
            let ghost p = self@.teams;
            let mut j: usize = i;
            while j > 0 && x.ranks_before(&self.teams[j - 1])
                invariant
                    j <= i,
                    i < n,
                    p == self@.teams,
                    p.len() == n - 1,
                    self.teams@.len() == n - 1,
                    forall|k: int| j <= k < i ==> ranks_before(x@, #[trigger] p[k]),
                decreases j,
            {
                assert(self.teams@[j - 1]@ == p[j - 1]);
                j -= 1;
            }
            proof {
                if j > 0 {
                    assert(self.teams@[j - 1]@ == p[j - 1]);
                }
            }
            self.teams.insert(j, x);
            proof {
                assert(self@.teams =~= p.insert(j as int, x@));
                assert(p.take(i as int) =~= prev.take(i as int));
                lemma_insert_sorted(p.take(i as int), x@, j as int);
                assert(self@.teams.take(i + 1) =~= p.take(i as int).insert(j as int, x@));
                assert(prev.to_multiset().contains(prev[i as int])) by {
                    vstd::seq_lib::to_multiset_contains(prev, prev[i as int]);
                }
                assert(self@.teams.to_multiset() =~= prev.to_multiset());
            }
            i += 1;
        }
        proof {
            assert(self@.teams.take(n as int) =~= self@.teams);
            let s = old(self)@;
            if s.is_running {
                let k = choose|k: int| 0 <= k < s.teams.len() && #[trigger] s.teams[k].id == s.active;
                vstd::seq_lib::to_multiset_contains(s.teams, s.teams[k]);
                vstd::seq_lib::to_multiset_contains(self@.teams, s.teams[k]);
                let w = choose|w: int| 0 <= w < self@.teams.len() && self@.teams[w] == s.teams[k];
                assert(self@.teams[w].id == s.active);
            }
        }
    }

    /// The periodic step at `now` (milliseconds): the teams are put in
    /// ranking order, then the leader's time goes to its row of the board and,
    /// while a stopwatch runs, that team's time to its row.
    pub fn on_tick(&mut self, now: u64) -> (r: Vec<BoardText>)
        requires
            app_wf(old(self)@),
        ensures
            app_wf(final(self)@),
            final(self)@.teams.to_multiset() == old(self)@.teams.to_multiset(),
            sorted(final(self)@.teams),
            final(self)@ == (AppState { teams: final(self)@.teams, ..old(self)@ }),
            r@.map_values(|b: BoardText| board_text_view(b)) == (if final(self)@.teams.len() > 0 {
                text_for(LEADER_ROW, board_time(shown_time(final(self)@.teams[0], now as int)))
            } else {
                seq![]
            }) + (if old(self)@.is_running {
                text_for(RUNNING_ROW, running_text(final(self)@, now as int))
            } else {
                seq![]
            }),
    {
        self.sort_teams();
        let mut out: Vec<BoardText> = Vec::new();
        if self.teams.len() > 0 {
            assert(self.teams@[0]@ == self@.teams[0]);
            let time = self.teams[0].get_time(now);
            match board_time_text(time.as_str()) {
                Some(text) => out.push(BoardText { row: LEADER_ROW, text }),
                None => {},
            }
        }
        let ghost lead = out@.map_values(|b: BoardText| board_text_view(b));
        if self.is_running {
            let k = self.find_active();
            assert(self.teams@[k as int]@ == self@.teams[k as int]);
            let time = self.teams[k].get_time(now);
            match board_time_text(time.as_str()) {
                Some(text) => out.push(BoardText { row: RUNNING_ROW, text }),
                None => {},
            }
        }
        assert(out@.map_values(|b: BoardText| board_text_view(b)) =~= (if self@.teams.len() > 0 {
            text_for(LEADER_ROW, board_time(shown_time(self@.teams[0], now as int)))
        } else {
            seq![]
        }) + (if self@.is_running {
            text_for(RUNNING_ROW, running_text(self@, now as int))
        } else {
            seq![]
        }));
        out
    }

    fn toggle(&mut self, i: usize, now: u64)
        requires
            i < old(self)@.teams.len(),
        ensures
            final(self)@ == (AppState {
                teams: old(self)@.teams.update(i as int, start_stop_next(old(self)@.teams[i as int], now as int)),
                ..old(self)@
            }),
    {
        let ghost before = self.teams@;
        self.teams[i].start_stop_timer(now);
        assert(self.teams@ == before.update(i as int, self.teams@[i as int]));
        assert(self@.teams =~= old(self)@.teams.update(i as int, start_stop_next(old(self)@.teams[i as int], now as int)));
    }
}

} // verus!
