//! Race participants and their stopwatch, with the text shown for a time.
use vstd::prelude::*;

use std::cmp::Ordering;

use crate::frame::chars_to_string;

verus! {

/// The decimal digit `d` as a character.
pub open spec fn digit(d: int) -> char {
    ((d + 48) as u8) as char
}

/// The decimal representation of `n`, without leading zeros.
pub open spec fn decimal(n: nat) -> Seq<char>
    decreases n,
{
    if n < 10 {
        seq![digit(n as int)]
    } else {
        decimal(n / 10).push(digit((n % 10) as int))
    }
}

/// The first two decimal digits of `n`, with a leading zero when it has one
/// digit only.
pub open spec fn two_digits(n: nat) -> Seq<char> {
    let d = decimal(n);
    if d.len() == 1 {
        seq!['0'] + d
    } else {
        d.subrange(0, 2)
    }
}

/// A duration of `millis` milliseconds as `MM:SS:mm`: minutes, seconds and
/// milliseconds, each cut to its first two digits.
pub open spec fn time_text(millis: nat) -> Seq<char> {
    let secs = millis / 1000;
    two_digits(secs / 60) + seq![':'] + two_digits(secs % 60) + seq![':'] + two_digits(millis % 1000)
}

/// Milliseconds from `since` to `now`; none when `now` comes first.
pub open spec fn elapsed(since: int, now: int) -> nat {
    if now >= since {
        (now - since) as nat
    } else {
        0
    }
}

proof fn lemma_decimal_nonempty(n: nat)
    ensures
        decimal(n).len() >= 1,
{
}

proof fn lemma_two_digits_shift(n: nat)
    requires
        n >= 100,
    ensures
        two_digits(n) == two_digits(n / 10),
{
    lemma_decimal_nonempty(n / 100);
    assert(decimal(n / 10) == decimal(n / 10 / 10).push(digit((n / 10 % 10) as int)));
    assert(decimal(n) == decimal(n / 10).push(digit((n % 10) as int)));
    assert(decimal(n).subrange(0, 2) =~= decimal(n / 10).subrange(0, 2));
}

fn digit_char(d: u64) -> (c: char)
    requires
        d < 10,
    ensures
        c == digit(d as int),
{
    ((d as u8) + 48) as char
}

/// The first two decimal digits of `time`, with a leading zero when it has
/// one digit only.
pub fn format_count(time: u64) -> (r: String)
    ensures
        r@ == two_digits(time as nat),
{
    let mut n: u64 = time;
    while n >= 100
        invariant
            two_digits(n as nat) == two_digits(time as nat),
        decreases n,
    {
        proof {
            lemma_two_digits_shift(n as nat);
        }
        n = n / 10;
    }
    let mut out: Vec<char> = Vec::new();
    if n < 10 {
        out.push('0');
        out.push(digit_char(n));
        assert(out@ =~= two_digits(n as nat));
    } else {
        out.push(digit_char(n / 10));
        out.push(digit_char(n % 10));
        assert(decimal(n as nat) == decimal((n / 10) as nat).push(digit((n % 10) as int)));
        assert(out@ =~= two_digits(n as nat));
    }
    chars_to_string(&out)
}

/// A duration of `millis` milliseconds as `MM:SS:mm`.
pub fn format_time(millis: u64) -> (r: String)
    ensures
        r@ == time_text(millis as nat),
{
    let secs = millis / 1000;
    let mut r = format_count(secs / 60);
    r.append(":");
    r.append(format_count(secs % 60).as_str());
    r.append(":");
    r.append(format_count(millis % 1000).as_str());
    proof {
        reveal_strlit(":");
    }
    assert(r@ =~= time_text(millis as nat));
    r
}

/// `s` without its colons.
pub open spec fn without_colons(s: Seq<char>) -> Seq<char>
    decreases s.len(),
{
    if s.len() == 0 {
        s
    } else {
        let rest = without_colons(s.drop_last());
        if s.last() == ':' {
            rest
        } else {
            rest.push(s.last())
        }
    }
}

/// The board text for a time: its digits without the colons, after one
/// space, when exactly six characters remain; none otherwise.
pub open spec fn board_time(time: Seq<char>) -> Option<Seq<char>> {
    let digits = without_colons(time);
    if digits.len() == 6 {
        Some(seq![' '] + digits)
    } else {
        None
    }
}

/// The text a row of seven characters shows for `time`, as `board_time` says.
pub fn board_time_text(time: &str) -> (r: Option<String>)
    ensures
        r matches Some(t) ==> board_time(time@) == Some(t@),
        r is None ==> board_time(time@) is None,
{
    let n = time.unicode_len();
    let mut out: Vec<char> = Vec::new();
    out.push(' ');
    let mut i: usize = 0;
    while i < n
        invariant
            n == time@.len(),
            i <= n,
            out@ == seq![' '] + without_colons(time@.take(i as int)),
        decreases n - i,
    {
        let c = time.get_char(i);
        assert(time@.take(i + 1).drop_last() =~= time@.take(i as int));
        if c != ':' {
            out.push(c);
            assert(out@ =~= seq![' '] + without_colons(time@.take(i + 1)));
        }
        i += 1;
    }
    assert(time@.take(n as int) =~= time@);
    if out.len() == 7 {
        Some(chars_to_string(&out))
    } else {
        None
    }
}

/// The stopwatch button at `now`: a running stopwatch stops and records the
/// race time; a stopped one starts, unless a race time is recorded.
pub open spec fn start_stop_next(t: TeamState, now: int) -> TeamState {
    match t.running_since {
        Some(since) => TeamState {
            race_time: time_text(elapsed(since, now)),
            running_since: None,
            ..t
        },
        None => if t.race_time.len() > 0 {
            t
        } else {
            TeamState { running_since: Some(now), ..t }
        },
    }
}

/// The time shown for a team at `now`: the running time while the stopwatch
/// runs, else the recorded race time.
pub open spec fn shown_time(t: TeamState, now: int) -> Seq<char> {
    match t.running_since {
        Some(since) => time_text(elapsed(since, now)),
        None => t.race_time,
    }
}

/// Whether team `a` ranks strictly before team `b`.
pub open spec fn ranks_before(a: TeamState, b: TeamState) -> bool {
    race_order(a, b) == Ordering::Less
}

proof fn lemma_lex_flip(a: Seq<char>, b: Seq<char>)
    ensures
        lex_order(a, b) == Ordering::Less <==> lex_order(b, a) == Ordering::Greater,
        lex_order(a, b) == Ordering::Equal ==> a == b,
    decreases a.len(),
{
    if a.len() > 0 && b.len() > 0 && a[0] == b[0] {
        lemma_lex_flip(a.drop_first(), b.drop_first());
        if lex_order(a, b) == Ordering::Equal {
            assert(a =~= seq![a[0]] + a.drop_first());
            assert(b =~= seq![b[0]] + b.drop_first());
        }
    }
    if a.len() > 0 && b.len() > 0 && a[0] != b[0] {
    }
    if a.len() == 0 && b.len() == 0 {
        assert(a =~= b);
    }
}

proof fn lemma_lex_trans(a: Seq<char>, b: Seq<char>, c: Seq<char>)
    requires
        lex_order(a, b) == Ordering::Less,
        lex_order(b, c) == Ordering::Less,
    ensures
        lex_order(a, c) == Ordering::Less,
    decreases a.len(),
{
    if a.len() > 0 && b.len() > 0 && c.len() > 0 && a[0] == b[0] && b[0] == c[0] {
        lemma_lex_trans(a.drop_first(), b.drop_first(), c.drop_first());
    }
}

/// No team ranks before itself and before a team that ranks before it.
pub proof fn lemma_ranks_before_asymmetric(a: TeamState, b: TeamState)
    ensures
        ranks_before(a, b) ==> !ranks_before(b, a),
{
    lemma_lex_flip(a.race_time, b.race_time);
}

/// Not ranking before is transitive: `ranks_before` is a strict weak order.
pub proof fn lemma_not_ranks_before_transitive(a: TeamState, b: TeamState, c: TeamState)
    requires
        !ranks_before(a, b),
        !ranks_before(b, c),
    ensures
        !ranks_before(a, c),
{
    let (x, y, z) = (a.race_time, b.race_time, c.race_time);
    lemma_lex_flip(x, y);
    lemma_lex_flip(y, z);
    lemma_lex_flip(x, z);
    lemma_lex_flip(y, x);
    lemma_lex_flip(z, y);
    lemma_lex_flip(x, x);
    if x.len() > 0 {
        // z ranks no later than y, and y no later than x.
        if lex_order(y, x) == Ordering::Less && lex_order(z, y) == Ordering::Less {
            lemma_lex_trans(z, y, x);
        }
        lemma_lex_flip(z, x);
    }
}

/// Lexicographic order of two character sequences.
pub open spec fn lex_order(a: Seq<char>, b: Seq<char>) -> Ordering
    decreases a.len(),
{
    if a.len() == 0 {
        if b.len() == 0 {
            Ordering::Equal
        } else {
            Ordering::Less
        }
    } else if b.len() == 0 {
        Ordering::Greater
    } else if a[0] < b[0] {
        Ordering::Less
    } else if a[0] > b[0] {
        Ordering::Greater
    } else {
        lex_order(a.drop_first(), b.drop_first())
    }
}

/// The ranking of two teams: a team without a race time comes after any
/// other; teams with race times go by those, compared as text.
pub open spec fn race_order(a: TeamState, b: TeamState) -> Ordering {
    if a.race_time.len() == 0 {
        Ordering::Greater
    } else if b.race_time.len() == 0 {
        Ordering::Less
    } else {
        lex_order(a.race_time, b.race_time)
    }
}

/// Compares two texts lexicographically.
fn compare_text(a: &str, b: &str) -> (r: Ordering)
    ensures
        r == lex_order(a@, b@),
{
    let n = a.unicode_len();
    let m = b.unicode_len();
    let mut i: usize = 0;
    assert(a@.skip(0) =~= a@);
    assert(b@.skip(0) =~= b@);
    while i < n && i < m
        invariant
            n == a@.len(),
            m == b@.len(),
            i <= n,
            i <= m,
            lex_order(a@, b@) == lex_order(a@.skip(i as int), b@.skip(i as int)),
        decreases n - i,
    {
        let x = a.get_char(i);
        let y = b.get_char(i);
        assert(a@.skip(i as int)[0] == x);
        assert(b@.skip(i as int)[0] == y);
        if x < y {
            return Ordering::Less;
        }
        if x > y {
            return Ordering::Greater;
        }
        assert(a@.skip(i as int).drop_first() =~= a@.skip(i + 1));
        assert(b@.skip(i as int).drop_first() =~= b@.skip(i + 1));
        i += 1;
    }
    if i == n {
        if i == m {
            Ordering::Equal
        } else {
            Ordering::Less
        }
    } else {
        Ordering::Greater
    }
}

/// What a team is, as far as its behaviour goes.
pub struct TeamState {
    pub id: u32,
    pub name: Seq<char>,
    pub start_time: Seq<char>,
    /// The time of the finished race; empty while there is none.
    pub race_time: Seq<char>,
    /// When the stopwatch was started, while it runs.
    pub running_since: Option<int>,
}

/// A race participant with a stopwatch.
pub struct Team {
    pub id: u32,
    name: String,
    start_time: String,
    race_time: String,
    running_time: Option<u64>,
}

impl View for Team {
    type V = TeamState;

    closed spec fn view(&self) -> TeamState {
        TeamState {
            id: self.id,
            name: self.name@,
            start_time: self.start_time@,
            race_time: self.race_time@,
            running_since: match self.running_time {
                Some(t) => Some(t as int),
                None => None,
            },
        }
    }
}

impl Team {
    /// A team with no race time and its stopwatch stopped.
    pub fn new(id: u32, name: String, start_time: String) -> (t: Team)
        ensures
            t@ == (TeamState {
                id,
                name: name@,
                start_time: start_time@,
                race_time: Seq::empty(),
                running_since: None,
            }),
    {
        Team { id, name, start_time, race_time: String::new(), running_time: None }
    }

    pub fn id(&self) -> (r: u32)
        ensures
            r == self@.id,
    {
        self.id
    }

    pub fn name(&self) -> (r: &String)
        ensures
            r@ == self@.name,
    {
        &self.name
    }

    pub fn start_time(&self) -> (r: &String)
        ensures
            r@ == self@.start_time,
    {
        &self.start_time
    }

    /// Whether the stopwatch runs.
    pub fn is_running(&self) -> (r: bool)
        ensures
            r == self@.running_since is Some,
    {
        self.running_time.is_some()
    }

    /// At time `now` (milliseconds): stops a running stopwatch and records the
    /// race time; starts a stopped one unless a race time is recorded.
    pub fn start_stop_timer(&mut self, now: u64)
        ensures
            final(self)@ == start_stop_next(old(self)@, now as int),
    {
        match self.running_time {
            Some(t) => {
                let d = if now >= t {
                    now - t
                } else {
                    0
                };
                self.race_time = format_time(d);
                self.running_time = None;
            },
            None => {
                if self.race_time.as_str().unicode_len() > 0 {
                    return;
                }
                self.running_time = Some(now);
            },
        }
    }

    /// The ranking of this team against `other`: a team without a race time
    /// comes after any other; teams with race times go by those, as text.
    pub fn cmp(&self, other: &Team) -> (r: Ordering)
        ensures
            r == race_order(self@, other@),
    {
        if self.race_time.as_str().unicode_len() == 0 {
            return Ordering::Greater;
        }
        if other.race_time.as_str().unicode_len() == 0 {
            return Ordering::Less;
        }
        compare_text(self.race_time.as_str(), other.race_time.as_str())
    }

    /// Whether this team ranks strictly before `other`.
    pub fn ranks_before(&self, other: &Team) -> (r: bool)
        ensures
            r == ranks_before(self@, other@),
    {
        matches!(self.cmp(other), Ordering::Less)
    }

    /// Clears the race time and stops the stopwatch.
    pub fn reset_time(&mut self)
        ensures
            final(self)@ == (TeamState {
                race_time: Seq::empty(),
                running_since: None,
                ..old(self)@
            }),
    {
        self.running_time = None;
        self.race_time = String::new();
    }

    /// The time shown for the team at `now` (milliseconds): the running time
    /// while the stopwatch runs, else the recorded race time.
    pub fn get_time(&self, now: u64) -> (r: String)
        ensures
            r@ == shown_time(self@, now as int),
    {
        match self.running_time {
            Some(t) => {
                let d = if now >= t {
                    now - t
                } else {
                    0
                };
                format_time(d)
            },
            None => self.race_time.clone(),
        }
    }
}

/// Teams are the same team when their identifiers are equal.
impl PartialEq for Team {
    fn eq(&self, other: &Team) -> (r: bool) {
        self.id == other.id
    }
}

impl vstd::std_specs::cmp::PartialEqSpecImpl for Team {
    open spec fn obeys_eq_spec() -> bool {
        true
    }

    open spec fn eq_spec(&self, other: &Team) -> bool {
        self@.id == other@.id
    }
}

impl Eq for Team {

}

} // verus!
