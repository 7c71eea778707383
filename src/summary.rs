//! Summary statistics over run results: running totals that partial batches
//! are folded into, and the percentages and averages derived from them.

use vstd::prelude::*;
use crate::game::{GameResult, Outcome};

verus! {

/// A quantity that the summary totals over results.
#[derive(Debug, Clone, Copy, PartialEq, Eq, Structural)]
pub enum Tally {
    Wins,
    Losses,
    Damage,
    Squirrels,
    Returns,
    Rolls,
}

/// What one result adds to the total of `t`.
pub open spec fn tally_of(r: GameResult, t: Tally) -> int {
    match t {
        Tally::Wins => if r.outcome == Outcome::Win { 1 } else { 0 },
        Tally::Losses => if r.outcome == Outcome::Lose { 1 } else { 0 },
        Tally::Damage => r.damage as int,
        Tally::Squirrels => r.squirrels as int,
        Tally::Returns => r.returns as int,
        Tally::Rolls => r.rolls as int,
    }
}

/// The total of `t` over `rs`.
pub open spec fn total(rs: Seq<GameResult>, t: Tally) -> int
    decreases rs.len(),
{
    if rs.len() == 0 {
        0
    } else {
        total(rs.drop_last(), t) + tally_of(rs.last(), t)
    }
}

/// Running totals over the results folded in so far.
#[derive(Debug, Clone, Copy, PartialEq, Eq, Structural)]
pub struct Results {
    pub wins: u64,
    pub losses: u64,
    pub total_damage: u64,
    pub total_squirrels: u64,
    pub total_returns: u64,
    pub total_rolls: u64,
}

impl Results {
    /// The running total of `t`.
    pub open spec fn get(self, t: Tally) -> int {
        match t {
            Tally::Wins => self.wins as int,
            Tally::Losses => self.losses as int,
            Tally::Damage => self.total_damage as int,
            Tally::Squirrels => self.total_squirrels as int,
            Tally::Returns => self.total_returns as int,
            Tally::Rolls => self.total_rolls as int,
        }
    }

    /// Folding `rs` into `self` keeps every total within `u64`.
    pub open spec fn can_fold(self, rs: Seq<GameResult>) -> bool {
        forall|t: Tally| #[trigger] self.get(t) + total(rs, t) <= u64::MAX
    }

    /// The number of results folded in, with 1 for none: the divisor of every
    /// derived figure.
    pub open spec fn divisor(self) -> int {
        if self.wins + self.losses == 0 {
            1
        } else {
            self.wins + self.losses
        }
    }

    /// The running total of `t`.
    pub fn total_of(&self, t: Tally) -> (r: u64)
        ensures
            r == self.get(t),
    {
        match t {
            Tally::Wins => self.wins,
            Tally::Losses => self.losses,
            Tally::Damage => self.total_damage,
            Tally::Squirrels => self.total_squirrels,
            Tally::Returns => self.total_returns,
            Tally::Rolls => self.total_rolls,
        }
    }

    /// The number of results folded in, with 1 for none.
    pub fn runs(&self) -> (r: u128)
        ensures
            r == self.divisor(),
    {
        let n = self.wins as u128 + self.losses as u128;
        if n == 0 {
            1
        } else {
            n
        }
    }

    /// The average of `t` per result, in hundredths, rounded down:
    /// `100 * total / divisor`.
    pub fn average_hundredths(&self, t: Tally) -> (r: u128)
        ensures
            r == (100 * self.get(t)) / self.divisor(),
    {
        (100 * self.total_of(t) as u128) / self.runs()
    }

    /// The share of wins among the results, in hundredths of a percent, rounded
    /// down: `10000 * wins / divisor`. It is 0 for no results and at most 10000.
    pub fn win_percentage_hundredths(&self) -> (r: u128)
        ensures
            r == (10000 * self.wins) / self.divisor(),
            r <= 10000,
            self.wins + self.losses == 0 ==> r == 0,
    {
        let r = (10000 * self.wins as u128) / self.runs();
        proof {
            let w = self.wins as int;
            let d = self.divisor();
            assert(w <= d);
            assert((10000 * w) / d <= 10000) by (nonlinear_arith)
                requires 0 <= w <= d, d >= 1;
        }
        r
    }

    /// Empty totals.
    pub fn new() -> (r: Self)
        ensures
            forall|t: Tally| #[trigger] r.get(t) == 0,
    {
        Results {
            wins: 0,
            losses: 0,
            total_damage: 0,
            total_squirrels: 0,
            total_returns: 0,
            total_rolls: 0,
        }
    }

    /// Folds `new_results` into the totals, unless some total would pass
    /// `u64::MAX`: then nothing changes and the result is `false`.
    pub fn update_results(&mut self, new_results: &[GameResult]) -> (ok: bool)
        ensures
            ok == old(self).can_fold(new_results@),
            ok ==> forall|t: Tally| #[trigger] final(self).get(t) == old(self).get(t) + total(new_results@, t),
            !ok ==> *final(self) == *old(self),
    {
        let mut acc = *self;
        let mut i: usize = 0;
        assert(new_results@.take(0) =~= Seq::<GameResult>::empty());
        while i < new_results.len()
            invariant
                i <= new_results@.len(),
                forall|t: Tally| #[trigger] acc.get(t) == self.get(t) + total(new_results@.take(i as int), t),
            decreases new_results@.len() - i,
        {
            let r = new_results[i];
            let ghost pre = new_results@.take(i as int);
            let ghost post = new_results@.take(i + 1);
            proof {
                assert(post.drop_last() =~= pre);
                assert forall|t: Tally| #[trigger] total(post, t) == total(pre, t) + tally_of(r, t) by {}
            }
            if !acc.has_room_for(&r) {
                proof {
                    let t = choose|t: Tally| acc.get(t) + tally_of(r, t) > u64::MAX;
                    assert(total(post, t) == total(pre, t) + tally_of(r, t));
                    lemma_total_prefix_bound(new_results@, i as int + 1);
                    assert(total(post, t) <= total(new_results@, t));
                    assert(self.get(t) + total(new_results@, t) > u64::MAX);
                }
                return false;
            }
            let ghost prev = acc;
            acc.add(&r);
            proof {
                assert forall|t: Tally| #[trigger] acc.get(t) == self.get(t) + total(post, t) by {
                    assert(acc.get(t) == prev.get(t) + tally_of(r, t));
                }
            }
            i = i + 1;
        }
        assert(new_results@.take(i as int) =~= new_results@);
        assert forall|t: Tally| #[trigger] self.get(t) + total(new_results@, t) <= u64::MAX by {
            acc.lemma_get_bound(t);
        }
        *self = acc;
        true
    }

    /// Every total fits in `u64`.
    pub proof fn lemma_get_bound(self, t: Tally)
        ensures
            0 <= self.get(t) <= u64::MAX,
    {
        match t {
            Tally::Wins => {},
            Tally::Losses => {},
            Tally::Damage => {},
            Tally::Squirrels => {},
            Tally::Returns => {},
            Tally::Rolls => {},
        }
    }

    /// Each total has room for what `r` adds to it.
    fn has_room_for(&self, r: &GameResult) -> (b: bool)
        ensures
            b == forall|t: Tally| #[trigger] self.get(t) + tally_of(*r, t) <= u64::MAX,
    {
        let w = match r.outcome {
            Outcome::Win => self.wins < u64::MAX,
            Outcome::Lose => self.losses < u64::MAX,
        };
        let d = self.total_damage <= u64::MAX - r.damage as u64;
        let q = self.total_squirrels <= u64::MAX - r.squirrels as u64;
        let n = self.total_returns <= u64::MAX - r.returns as u64;
        let o = self.total_rolls <= u64::MAX - r.rolls as u64;
        let b = w && d && q && n && o;
        proof {
            if b {
                assert forall|t: Tally| #[trigger] self.get(t) + tally_of(*r, t) <= u64::MAX by {
                    match t {
                        Tally::Wins => {},
                        Tally::Losses => {},
                        Tally::Damage => {},
                        Tally::Squirrels => {},
                        Tally::Returns => {},
                        Tally::Rolls => {},
                    }
                }
            } else if !w {
                if r.outcome == Outcome::Win {
                    assert(self.get(Tally::Wins) + tally_of(*r, Tally::Wins) > u64::MAX);
                } else {
                    assert(self.get(Tally::Losses) + tally_of(*r, Tally::Losses) > u64::MAX);
                }
            } else if !d {
                assert(self.get(Tally::Damage) + tally_of(*r, Tally::Damage) > u64::MAX);
            } else if !q {
                assert(self.get(Tally::Squirrels) + tally_of(*r, Tally::Squirrels) > u64::MAX);
            } else if !n {
                assert(self.get(Tally::Returns) + tally_of(*r, Tally::Returns) > u64::MAX);
            } else {
                assert(self.get(Tally::Rolls) + tally_of(*r, Tally::Rolls) > u64::MAX);
            }
        }
        b
    }

    /// Adds what `r` contributes to each total.
    fn add(&mut self, r: &GameResult)
        requires
            forall|t: Tally| #[trigger] old(self).get(t) + tally_of(*r, t) <= u64::MAX,
        ensures
            forall|t: Tally| #[trigger] final(self).get(t) == old(self).get(t) + tally_of(*r, t),
    {
        assert(self.get(Tally::Wins) + tally_of(*r, Tally::Wins) <= u64::MAX);
        assert(self.get(Tally::Losses) + tally_of(*r, Tally::Losses) <= u64::MAX);
        assert(self.get(Tally::Damage) + tally_of(*r, Tally::Damage) <= u64::MAX);
        assert(self.get(Tally::Squirrels) + tally_of(*r, Tally::Squirrels) <= u64::MAX);
        assert(self.get(Tally::Returns) + tally_of(*r, Tally::Returns) <= u64::MAX);
        assert(self.get(Tally::Rolls) + tally_of(*r, Tally::Rolls) <= u64::MAX);
        match r.outcome {
            Outcome::Win => self.wins += 1,
            Outcome::Lose => self.losses += 1,
        }
        self.total_damage += r.damage as u64;
        self.total_squirrels += r.squirrels as u64;
        self.total_returns += r.returns as u64;
        self.total_rolls += r.rolls as u64;
    }
}

/// Folding results in chunks gives the totals of folding them in one go, in
/// either order of the chunks: every total over `a + b` is the total over `a`
/// plus the total over `b`.
pub proof fn lemma_fold_in_chunks(a: Seq<GameResult>, b: Seq<GameResult>)
    ensures
        forall|t: Tally| #[trigger] total(a + b, t) == total(a, t) + total(b, t),
        forall|t: Tally| #[trigger] total(a + b, t) == total(b + a, t),
{
    lemma_total_concat(a, b);
    lemma_total_concat(b, a);
}

proof fn lemma_total_concat(a: Seq<GameResult>, b: Seq<GameResult>)
    ensures
        forall|t: Tally| #[trigger] total(a + b, t) == total(a, t) + total(b, t),
    decreases b.len(),
{
    if b.len() == 0 {
        assert(a + b =~= a);
        assert forall|t: Tally| #[trigger] total(a + b, t) == total(a, t) + total(b, t) by {}
    } else {
        lemma_total_concat(a, b.drop_last());
        assert((a + b).drop_last() =~= a + b.drop_last());
        assert((a + b).last() == b.last());
        assert forall|t: Tally| #[trigger] total(a + b, t) == total(a, t) + total(b, t) by {
            assert(total(a + b, t) == total(a + b.drop_last(), t) + tally_of(b.last(), t));
        }
    }
}

/// A total over a prefix is at most the total over the whole.
pub proof fn lemma_total_prefix_bound(rs: Seq<GameResult>, n: int)
    requires
        0 <= n <= rs.len(),
    ensures
        forall|t: Tally| #[trigger] total(rs.take(n), t) <= total(rs, t),
    decreases rs.len(),
{
    if n < rs.len() {
        assert(rs.take(n) =~= rs.drop_last().take(n));
        lemma_total_prefix_bound(rs.drop_last(), n);
    } else {
        assert(rs.take(n) =~= rs);
    }
}

} // verus!
