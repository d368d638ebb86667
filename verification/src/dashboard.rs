//! The state of the dashboard that shows the ongoing elections and the
//! tally of the selected one.

use vstd::prelude::*;

verus! {

/// Which row of the election list is selected, if any.
pub struct ListSelection {
    selected: Option<usize>,
}

impl ListSelection {
    /// The selected row.
    pub closed spec fn selection(&self) -> Option<usize> {
        self.selected
    }

    /// No row selected.
    pub fn new() -> (r: Self)
        ensures
            r.selection() is None,
    {
        ListSelection { selected: None }
    }

    /// The selected row.
    pub fn selected(&self) -> (r: Option<usize>)
        ensures
            r == self.selection(),
    {
        self.selected
    }

    /// Selects a row, or none.
    pub fn select(&mut self, index: Option<usize>)
        ensures
            final(self).selection() == index,
    {
        self.selected = index;
    }
}

/// The row after `selected` in a list of `len` rows, wrapping to the first.
pub open spec fn next_row(selected: Option<usize>, len: nat) -> usize {
    match selected {
        Some(i) => if i >= len - 1 {
            0
        } else {
            (i + 1) as usize
        },
        None => 0,
    }
}

/// The row before `selected` in a list of `len` rows, wrapping to the last.
pub open spec fn previous_row(selected: Option<usize>, len: nat) -> usize {
    match selected {
        Some(i) => if i == 0 {
            (len - 1) as usize
        } else {
            (i - 1) as usize
        },
        None => 0,
    }
}

/// The dashboard: the last error, whether it runs, the election ids, the
/// selected election, and the tally of the selected election's votes.
pub struct App {
    pub error: Option<String>,
    pub running: bool,
    pub elections: Vec<String>,
    pub list_elections: ListSelection,
    pub tally: Vec<(String, u64)>,
}

impl App {
    /// A running dashboard with a single placeholder election `"None"`,
    /// selected, and no tally.
    pub fn new() -> (r: Self)
        ensures
            r.error is None,
            r.running,
            r.elections@.len() == 1,
            r.elections@[0]@ == seq!['N', 'o', 'n', 'e'],
            r.list_elections.selection() == Some(0usize),
            r.tally@.len() == 0,
    {
        let mut list_elections = ListSelection::new();
        list_elections.select(Some(0));
        let placeholder = String::from_str("None");
        proof {
            reveal_strlit("None");
        }
        let mut elections: Vec<String> = Vec::new();
        elections.push(placeholder);
        App { error: None, running: true, elections, list_elections, tally: Vec::new() }
    }

    /// Handles a tick of the terminal: nothing changes.
    pub fn tick(&self) {
    }

    /// Stops the dashboard.
    pub fn quit(&mut self)
        ensures
            !final(self).running,
            final(self).error == old(self).error,
            final(self).elections == old(self).elections,
            final(self).list_elections == old(self).list_elections,
            final(self).tally == old(self).tally,
    {
        self.running = false;
    }

    /// Selects the next election, wrapping from the last to the first.
    pub fn next(&mut self)
        requires
            old(self).list_elections.selection() is Some ==> old(self).elections@.len() > 0,
        ensures
            final(self).list_elections.selection() == Some(
                next_row(old(self).list_elections.selection(), old(self).elections@.len()),
            ),
            final(self).error == old(self).error,
            final(self).running == old(self).running,
            final(self).elections == old(self).elections,
            final(self).tally == old(self).tally,
    {
        let i = match self.list_elections.selected() {
            Some(i) => {
                if i >= self.elections.len() - 1 {
                    0
                } else {
                    i + 1
                }
            },
            None => 0,
        };
        self.list_elections.select(Some(i));
    }

    /// Selects the previous election, wrapping from the first to the last.
    pub fn previous(&mut self)
        requires
            old(self).list_elections.selection() == Some(0usize) ==> old(self).elections@.len() > 0,
        ensures
            final(self).list_elections.selection() == Some(
                previous_row(old(self).list_elections.selection(), old(self).elections@.len()),
            ),
            final(self).error == old(self).error,
            final(self).running == old(self).running,
            final(self).elections == old(self).elections,
            final(self).tally == old(self).tally,
    {
        let i = match self.list_elections.selected() {
            Some(i) => {
                if i == 0 {
                    self.elections.len() - 1
                } else {
                    i - 1
                }
            },
            None => 0,
        };
        self.list_elections.select(Some(i));
    }
}

/// A key pressed on the dashboard's terminal.
#[derive(PartialEq, Eq, Structural, Clone, Copy, Debug)]
pub enum KeyInput {
    /// The Escape key.
    Esc,
    /// A character key, and whether Control was held.
    Char { c: char, control: bool },
    /// The Up arrow.
    Up,
    /// The Down arrow.
    Down,
    /// Any other key.
    Other,
}

/// Whether a key stops the dashboard: Escape, `q`, or Control-`c`.
pub open spec fn key_quits(key: KeyInput) -> bool {
    match key {
        KeyInput::Esc => true,
        KeyInput::Char { c, control } => c == 'q' || (c == 'c' && control),
        _ => false,
    }
}

impl App {
    /// Handles a key: Escape, `q` and Control-`c` stop the dashboard; Down
    /// and Up select the next and the previous election, when there are
    /// elections; every other key changes nothing.
    pub fn on_key(&mut self, key: KeyInput)
        ensures
            final(self).running == (old(self).running && !key_quits(key)),
            final(self).error == old(self).error,
            final(self).elections == old(self).elections,
            final(self).tally == old(self).tally,
            final(self).list_elections.selection() == if key == KeyInput::Down && old(self).elections@.len() > 0 {
                Some(next_row(old(self).list_elections.selection(), old(self).elections@.len()))
            } else if key == KeyInput::Up && old(self).elections@.len() > 0 {
                Some(previous_row(old(self).list_elections.selection(), old(self).elections@.len()))
            } else {
                old(self).list_elections.selection()
            },
    {
        match key {
            KeyInput::Esc => self.quit(),
            KeyInput::Char { c, control } => {
                if c == 'q' || (c == 'c' && control) {
                    self.quit();
                }
            },
            KeyInput::Down => {
                if self.elections.len() > 0 {
                    self.next();
                }
            },
            KeyInput::Up => {
                if self.elections.len() > 0 {
                    self.previous();
                }
            },
            KeyInput::Other => {},
        }
    }
}

/// Stepping through a list of rows moves by one: from a row `i` of the
/// list, Down selects `i + 1` and Up selects `i - 1`; only the last row wraps
/// to the first and the first to the last. Without a selection, either key
/// selects the first row.
pub proof fn lemma_rows_step_by_one(i: usize, len: nat)
    requires
        i < len,
        len <= usize::MAX,
    ensures
        i + 1 < len ==> next_row(Some(i), len) == i + 1,
        i + 1 == len ==> next_row(Some(i), len) == 0,
        i > 0 ==> previous_row(Some(i), len) == i - 1,
        i == 0 ==> previous_row(Some(i), len) == len - 1,
        next_row(None, len) == 0,
        previous_row(None, len) == 0,
{
}

/// Within a list of rows, stepping to the next row and back returns to the
/// row one started from, and so does stepping back then forward; both steps
/// keep the selection within the list.
pub proof fn lemma_navigation_round_trip(i: usize, len: nat)
    requires
        i < len,
        len <= usize::MAX,
    ensures
        next_row(Some(i), len) < len,
        previous_row(Some(i), len) < len,
        previous_row(Some(next_row(Some(i), len)), len) == i,
        next_row(Some(previous_row(Some(i), len)), len) == i,
{
}

/// The tally after one more vote for `choice`: its count goes up by one, or
/// it joins the tally, last, with one vote.
pub open spec fn add_vote(t: Seq<(Seq<char>, nat)>, choice: Seq<char>) -> Seq<(Seq<char>, nat)>
    decreases t.len(),
{
    if t.len() == 0 {
        seq![(choice, 1nat)]
    } else if t[0].0 == choice {
        seq![(choice, t[0].1 + 1)] + t.drop_first()
    } else {
        seq![t[0]] + add_vote(t.drop_first(), choice)
    }
}

/// The tally of a sequence of votes: each distinct choice once, in order of
/// first appearance, with the number of votes for it.
pub open spec fn tally_of(votes: Seq<Seq<char>>) -> Seq<(Seq<char>, nat)>
    decreases votes.len(),
{
    if votes.len() == 0 {
        Seq::empty()
    } else {
        add_vote(tally_of(votes.drop_last()), votes.last())
    }
}

/// A tally by views.
pub open spec fn tally_view(t: Seq<(String, u64)>) -> Seq<(Seq<char>, nat)> {
    t.map_values(|e: (String, u64)| (e.0@, e.1 as nat))
}

/// The sum of the counts of a tally.
pub open spec fn total_votes(t: Seq<(Seq<char>, nat)>) -> nat
    decreases t.len(),
{
    if t.len() == 0 {
        0
    } else {
        t[0].1 + total_votes(t.drop_first())
    }
}

/// The count of `choice` in a tally, zero when absent.
pub open spec fn count_in(t: Seq<(Seq<char>, nat)>, choice: Seq<char>) -> nat
    decreases t.len(),
{
    if t.len() == 0 {
        0
    } else if t[0].0 == choice {
        t[0].1
    } else {
        count_in(t.drop_first(), choice)
    }
}

/// The number of votes for `choice`.
pub open spec fn occurrences(votes: Seq<Seq<char>>, choice: Seq<char>) -> nat
    decreases votes.len(),
{
    if votes.len() == 0 {
        0
    } else {
        occurrences(votes.drop_last(), choice) + if votes.last() == choice { 1nat } else { 0nat }
    }
}

/// One more vote adds one to the total and to the count of its choice only.
proof fn lemma_add_vote(t: Seq<(Seq<char>, nat)>, choice: Seq<char>, other: Seq<char>)
    ensures
        total_votes(add_vote(t, choice)) == total_votes(t) + 1,
        count_in(add_vote(t, choice), other) == count_in(t, other) + if other == choice { 1nat } else { 0nat },
        add_vote(t, choice).len() <= t.len() + 1,
    decreases t.len(),
{
    let r = add_vote(t, choice);
    if t.len() == 0 {
        assert(r.drop_first() =~= Seq::<(Seq<char>, nat)>::empty());
        assert(r[0] == (choice, 1nat));
        assert(total_votes(r.drop_first()) == 0);
        assert(count_in(r.drop_first(), other) == 0);
    } else if t[0].0 == choice {
        assert(r.drop_first() =~= t.drop_first());
        assert(r[0] == (choice, t[0].1 + 1));
    } else {
        lemma_add_vote(t.drop_first(), choice, other);
        assert(r.drop_first() =~= add_vote(t.drop_first(), choice));
        assert(r[0] == t[0]);
    }
    assert(total_votes(r) == r[0].1 + total_votes(r.drop_first()));
    assert(count_in(r, other) == if r[0].0 == other { r[0].1 } else { count_in(r.drop_first(), other) });
}

/// The counts of a tally add up to the number of votes, and each choice's
/// count is its number of votes.
pub proof fn lemma_tally_counts(votes: Seq<Seq<char>>, choice: Seq<char>)
    ensures
        total_votes(tally_of(votes)) == votes.len(),
        count_in(tally_of(votes), choice) == occurrences(votes, choice),
        tally_of(votes).len() <= votes.len(),
    decreases votes.len(),
{
    if votes.len() > 0 {
        lemma_tally_counts(votes.drop_last(), choice);
        lemma_add_vote(tally_of(votes.drop_last()), votes.last(), choice);
    }
}

/// Every count in the tally of `n` votes is at most `n`.
proof fn lemma_tally_bounded(votes: Seq<Seq<char>>)
    ensures
        forall|i: int| 0 <= i < tally_of(votes).len() ==> (#[trigger] tally_of(votes)[i]).1 <= votes.len(),
    decreases votes.len(),
{
    if votes.len() > 0 {
        let prev = votes.drop_last();
        lemma_tally_bounded(prev);
        lemma_add_vote_bounded(tally_of(prev), votes.last(), prev.len());
    }
}

/// Adding a vote to a tally whose counts are at most `n` gives counts at most `n + 1`.
proof fn lemma_add_vote_bounded(t: Seq<(Seq<char>, nat)>, choice: Seq<char>, n: nat)
    requires
        forall|i: int| 0 <= i < t.len() ==> (#[trigger] t[i]).1 <= n,
    ensures
        forall|i: int| 0 <= i < add_vote(t, choice).len() ==> (#[trigger] add_vote(t, choice)[i]).1 <= n + 1,
    decreases t.len(),
{
    let r = add_vote(t, choice);
    if t.len() > 0 && t[0].0 != choice {
        let t1 = t.drop_first();
        assert forall|i: int| 0 <= i < t1.len() implies (#[trigger] t1[i]).1 <= n by {
            assert(t1[i] == t[i + 1]);
        }
        lemma_add_vote_bounded(t1, choice, n);
        assert forall|i: int| 0 <= i < r.len() implies (#[trigger] r[i]).1 <= n + 1 by {
            if i > 0 {
                assert(r[i] == add_vote(t1, choice)[i - 1]);
            }
        }
    } else if t.len() > 0 {
        assert forall|i: int| 0 <= i < r.len() implies (#[trigger] r[i]).1 <= n + 1 by {
            if i > 0 {
                assert(r[i] == t[i]);
            }
        }
    }
}

/// The tally after one more vote, computed in place: the position of the
/// choice, if it is there, is the first entry with that choice.
proof fn lemma_add_vote_at(t: Seq<(Seq<char>, nat)>, choice: Seq<char>, i: int)
    requires
        0 <= i <= t.len(),
        forall|j: int| 0 <= j < i ==> (#[trigger] t[j]).0 != choice,
    ensures
        i < t.len() && t[i].0 == choice ==> add_vote(t, choice) == t.update(i, (choice, t[i].1 + 1)),
        i == t.len() ==> add_vote(t, choice) == t.push((choice, 1nat)),
    decreases i,
{
    if i > 0 {
        let t1 = t.drop_first();
        assert forall|j: int| 0 <= j < i - 1 implies (#[trigger] t1[j]).0 != choice by {
            assert(t1[j] == t[j + 1]);
        }
        lemma_add_vote_at(t1, choice, i - 1);
        assert(t[0].0 != choice);
        if i < t.len() && t[i].0 == choice {
            assert(t1[i - 1] == t[i]);
            assert(add_vote(t, choice) =~= t.update(i, (choice, t[i].1 + 1)));
        }
        if i == t.len() {
            assert(add_vote(t, choice) =~= t.push((choice, 1nat)));
        }
    } else {
        if t.len() == 0 {
            assert(add_vote(t, choice) =~= t.push((choice, 1nat)));
        } else if t[0].0 == choice {
            assert(add_vote(t, choice) =~= t.update(0, (choice, t[0].1 + 1)));
        }
    }
}

/// Counts the votes for each choice: each distinct choice once, in order of
/// first appearance, with its number of votes.
pub fn tally_votes(votes: &Vec<String>) -> (r: Vec<(String, u64)>)
    ensures
        tally_view(r@) == tally_of(votes@.map_values(|v: String| v@)),
{
    let ghost vs = votes@.map_values(|v: String| v@);
    let mut tally: Vec<(String, u64)> = Vec::new();
    let mut k: usize = 0;
    assert(tally_view(tally@) =~= tally_of(vs.subrange(0, 0)));
    while k < votes.len()
        invariant
            k <= votes@.len(),
            vs == votes@.map_values(|v: String| v@),
            tally_view(tally@) == tally_of(vs.subrange(0, k as int)),
        decreases votes@.len() - k,
    {
        let ghost t = tally_view(tally@);
        let ghost prefix = vs.subrange(0, k as int);
        proof {
            lemma_tally_bounded(prefix);
            lemma_tally_counts(prefix, vs[k as int]);
            assert(vs.subrange(0, k + 1).drop_last() =~= prefix);
            assert(vs.subrange(0, k + 1).last() == vs[k as int]);
        }
        let choice = &votes[k];
        let mut i: usize = 0;
        while i < tally.len()
            invariant
                i <= tally@.len(),
                t == tally_view(tally@),
                forall|j: int| 0 <= j < i ==> (#[trigger] t[j]).0 != choice@,
            ensures
                i <= tally@.len(),
                forall|j: int| 0 <= j < i ==> (#[trigger] t[j]).0 != choice@,
                i < tally@.len() ==> t[i as int].0 == choice@,
            decreases tally@.len() - i,
        {
            if tally[i].0 == *choice {
                assert(t[i as int].0 == tally@[i as int].0@);
                break;
            }
            i = i + 1;
        }
        proof {
            lemma_add_vote_at(t, choice@, i as int);
        }
        if i < tally.len() {
            let count = tally[i].1;
            assert(t[i as int].1 <= k);
            let name = tally[i].0.clone();
            let ghost before = tally@;
            tally.set(i, (name, count + 1));
            assert(tally_view(tally@) =~= t.update(i as int, (choice@, t[i as int].1 + 1)));
        } else {
            let ghost before = tally@;
            tally.push((choice.clone(), 1));
            assert(tally_view(tally@) =~= t.push((choice@, 1nat)));
        }
        k = k + 1;
    }
    assert(vs.subrange(0, votes@.len() as int) =~= vs);
    tally
}

} // verus!
