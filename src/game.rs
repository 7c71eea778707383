//! One run of the ability: the per-activation state transition, the loop that
//! activates until the run is over, and the result record of a finished run.

use vstd::prelude::*;
use rand::rngs::StdRng;
use crate::dice::roll_die;

verus! {

/// Damage at which a run stops, whatever else remains.
pub const DAMAGE_CEILING: u32 = 10000;

#[derive(Debug, Clone, Copy, PartialEq, Eq, Structural)]
pub enum Outcome {
    Win,
    Lose,
}

/// The terminal record of one run.
#[derive(Debug, Clone, Copy, PartialEq, Eq, Structural)]
pub struct GameResult {
    pub outcome: Outcome,
    pub damage: u32,
    pub squirrels: u32,
    pub rolls: usize,
    pub returns: usize,
}

/// The counters of one run, with the configuration it was started with.
#[derive(Debug)]
pub struct Game {
    pub rolls: usize,
    pub damage: u32,
    pub squirrels: u32,
    pub loyalty: i32,
    pub activations_left: u32,
    pub returns: usize,
    pub roll_advantage: usize,
    pub include_squirrels: bool,
    pub target_dmg: u32,
}

/// The largest of the dice, 0 for none.
pub open spec fn max_roll(dice: Seq<u32>) -> int
    decreases dice.len(),
{
    if dice.len() == 0 {
        0
    } else {
        let m = max_roll(dice.drop_last());
        if dice.last() > m { dice.last() as int } else { m }
    }
}

/// Every die shows a face of a six-sided die.
pub open spec fn fair_faces(dice: Seq<u32>) -> bool {
    forall|i: int| 0 <= i < dice.len() ==> 1 <= #[trigger] dice[i] <= 6
}

/// A fresh run: one activation left, every counter at zero.
pub open spec fn fresh_game(include_squirrels: bool, roll_advantage: usize, loyalty: i32, target_dmg: u32) -> Game {
    Game {
        rolls: 0,
        damage: 0,
        squirrels: 0,
        loyalty,
        activations_left: 1,
        returns: 0,
        roll_advantage,
        include_squirrels,
        target_dmg,
    }
}

/// `r` is the record of a complete run of `g` on some fair dice.
pub open spec fn is_run_of(r: GameResult, g: Game) -> bool {
    exists|dice: Seq<u32>|
        #![trigger g.play(dice)]
        fair_faces(dice) && !g.play(dice).keeps_going() && r == g.play(dice).result_of()
}

impl Game {
    /// Dice rolled by one activation.
    pub open spec fn dice_per_activation(self) -> nat {
        (1 + self.roll_advantage) as nat
    }

    /// The guard of an activation: without it an activation does nothing.
    pub open spec fn can_activate(self) -> bool {
        self.loyalty > 0 && self.activations_left > 0
    }

    /// Every counter has room for the changes of one more activation.
    pub open spec fn has_room(self) -> bool {
        &&& self.rolls + self.dice_per_activation() <= usize::MAX
        &&& self.returns + 1 <= usize::MAX
        &&& self.loyalty + 2 <= i32::MAX
        &&& self.activations_left + 2 <= u32::MAX
        &&& self.squirrels + 2 <= u32::MAX
        &&& self.damage + self.loyalty <= u32::MAX
    }

    /// The loop condition of a run: activations and loyalty left, damage under
    /// the ceiling. A run also stops once a counter has no room left for
    /// another activation (near the limit of its integer type), so that no
    /// counter ever overflows.
    pub open spec fn keeps_going(self) -> bool {
        &&& self.activations_left > 0
        &&& self.loyalty > 0
        &&& self.damage < DAMAGE_CEILING
        &&& self.has_room()
    }

    /// Two values with the same configuration.
    pub open spec fn same_config(self, other: Game) -> bool {
        &&& self.roll_advantage == other.roll_advantage
        &&& self.include_squirrels == other.include_squirrels
        &&& self.target_dmg == other.target_dmg
    }

    /// The state after one activation of `self` that kept the roll `roll`.
    pub open spec fn step(self, roll: int) -> Game {
        let activations = (self.activations_left - 1) as u32;
        let rolls = (self.rolls + self.dice_per_activation()) as usize;
        if roll <= 2 {
            Game {
                activations_left: activations,
                rolls,
                loyalty: (self.loyalty + 2) as i32,
                squirrels: (self.squirrels + 2) as u32,
                ..self
            }
        } else if roll == 3 {
            Game {
                activations_left: activations,
                rolls,
                loyalty: (self.loyalty - 1) as i32,
                returns: (self.returns + 1) as usize,
                ..self
            }
        } else if roll <= 5 {
            Game {
                activations_left: activations,
                rolls,
                damage: (self.damage + if self.loyalty > 0 { self.loyalty as int } else { 0 }) as u32,
                loyalty: (self.loyalty - 2) as i32,
                ..self
            }
        } else {
            Game {
                activations_left: (activations + 2) as u32,
                rolls,
                loyalty: (self.loyalty + 1) as i32,
                ..self
            }
        }
    }

    /// The outcome of a run that ended with these counters.
    pub open spec fn outcome_of(self) -> Outcome {
        if self.damage >= self.target_dmg || (self.include_squirrels && self.damage
            + self.squirrels >= self.target_dmg) {
            Outcome::Win
        } else {
            Outcome::Lose
        }
    }

    /// The record of a run that ended with these counters.
    pub open spec fn result_of(self) -> GameResult {
        GameResult {
            outcome: self.outcome_of(),
            damage: self.damage,
            squirrels: self.squirrels,
            rolls: self.rolls,
            returns: self.returns,
        }
    }

    /// The state reached from `self` by a run that takes its dice from `dice`,
    /// one group of `dice_per_activation` for each activation, keeping the
    /// largest of each group. It stops when the loop condition fails or when no
    /// full group is left.
    pub open spec fn play(self, dice: Seq<u32>) -> Game
        decreases dice.len(),
    {
        let k = self.dice_per_activation() as int;
        if self.keeps_going() && k <= dice.len() {
            self.step(max_roll(dice.take(k))).play(dice.skip(k))
        } else {
            self
        }
    }

    /// The number of activations that `play` performs.
    pub open spec fn activations_in(self, dice: Seq<u32>) -> nat
        decreases dice.len(),
    {
        let k = self.dice_per_activation() as int;
        if self.keeps_going() && k <= dice.len() {
            1 + self.step(max_roll(dice.take(k))).activations_in(dice.skip(k))
        } else {
            0
        }
    }

    /// The number of activations in `play` whose kept roll is a 6.
    pub open spec fn sixes_in(self, dice: Seq<u32>) -> nat
        decreases dice.len(),
    {
        let k = self.dice_per_activation() as int;
        if self.keeps_going() && k <= dice.len() {
            let roll = max_roll(dice.take(k));
            (if roll == 6 { 1nat } else { 0nat }) + self.step(roll).sixes_in(dice.skip(k))
        } else {
            0
        }
    }

    pub fn new(include_squirrels: bool, roll_advantage: usize, loyalty: i32, target_dmg: u32) -> (g:
        Self)
        ensures
            g == fresh_game(include_squirrels, roll_advantage, loyalty, target_dmg),
    {
        Self {
            roll_advantage,
            activations_left: 1,
            squirrels: 0,
            damage: 0,
            rolls: 0,
            returns: 0,
            loyalty,
            include_squirrels,
            target_dmg,
        }
    }

    /// The loop condition of a run, `keeps_going`.
    pub fn keeps_going_exec(&self) -> (r: bool)
        ensures
            r == self.keeps_going(),
    {
        self.activations_left > 0 && self.loyalty > 0 && self.damage < DAMAGE_CEILING
            && self.roll_advantage < usize::MAX && self.rolls <= usize::MAX - 1
            - self.roll_advantage && self.returns < usize::MAX && self.loyalty <= i32::MAX - 2
            && self.activations_left <= u32::MAX - 2 && self.squirrels <= u32::MAX - 2
            && self.damage as i64 + self.loyalty as i64 <= u32::MAX as i64
    }

    /// Applies an activation that kept `roll`.
    fn take_roll(&mut self, roll: u32)
        requires
            1 <= roll <= 6,
            old(self).can_activate(),
            old(self).has_room(),
        ensures
            *final(self) == old(self).step(roll as int),
    {
        self.activations_left -= 1;
        self.rolls += 1 + self.roll_advantage;
        if roll == 1 || roll == 2 {
            self.loyalty += 2;
            self.squirrels += 2;
        } else if roll == 3 {
            self.loyalty -= 1;
            self.returns += 1;
        } else if roll == 4 || roll == 5 {
            self.damage += self.loyalty as u32;
            self.loyalty -= 2;
        } else {
            self.loyalty += 1;
            self.activations_left += 2;
        }
    }

    /// One activation that rolls `dice` and keeps the largest. Without the
    /// guard (`loyalty > 0`, `activations_left > 0`) it does nothing.
    pub fn activate_with_dice(&mut self, dice: &[u32])
        requires
            dice@.len() == old(self).dice_per_activation(),
            fair_faces(dice@),
            old(self).can_activate() ==> old(self).has_room(),
        ensures
            *final(self) == if old(self).can_activate() {
                old(self).step(max_roll(dice@))
            } else {
                *old(self)
            },
    {
        if self.loyalty <= 0 || self.activations_left == 0 {
            return;
        }
        let m = max_of(dice, 0, dice.len());
        proof {
            assert(dice@.subrange(0, dice@.len() as int) =~= dice@);
            lemma_max_roll_face(dice@);
        }
        self.take_roll(m);
    }

    /// One activation with fresh dice from `rng`. Without the guard
    /// (`loyalty > 0`, `activations_left > 0`) it does nothing.
    pub fn activate(&mut self, rng: &mut StdRng)
        requires
            old(self).can_activate() ==> old(self).has_room(),
        ensures
            !old(self).can_activate() ==> *final(self) == *old(self),
            old(self).can_activate() ==> exists|dice: Seq<u32>|
                #![trigger max_roll(dice)]
                dice.len() == old(self).dice_per_activation() && fair_faces(dice) && *final(self)
                    == old(self).step(max_roll(dice)),
    {
        if self.loyalty <= 0 || self.activations_left == 0 {
            return;
        }
        let dice = draw_dice(rng, 1 + self.roll_advantage);
        self.activate_with_dice(dice.as_slice());
    }

    /// Runs to the end, taking the dice from `dice` (see `play`), and returns
    /// the record of the run.
    pub fn run_with_dice(&mut self, dice: &[u32]) -> (r: GameResult)
        requires
            fair_faces(dice@),
        ensures
            *final(self) == old(self).play(dice@),
            r == final(self).result_of(),
    {
        let ghost start = *self;
        let mut i: usize = 0;
        assert(dice@.skip(0) =~= dice@);
        while self.keeps_going_exec() && dice.len() - i > self.roll_advantage
            invariant
                i <= dice@.len(),
                fair_faces(dice@),
                self.play(dice@.skip(i as int)) == start.play(dice@),
            decreases dice@.len() - i,
        {
            let k = 1 + self.roll_advantage;
            let ghost rest = dice@.skip(i as int);
            let m = max_of(dice, i, i + k);
            proof {
                assert(rest.take(k as int) =~= dice@.subrange(i as int, i + k));
                assert(rest.skip(k as int) =~= dice@.skip(i + k));
                let g = dice@.subrange(i as int, i + k);
                assert forall|j: int| 0 <= j < g.len() implies 1 <= #[trigger] g[j] <= 6 by {
                    assert(g[j] == dice@[i + j]);
                }
                lemma_max_roll_face(g);
            }
            self.take_roll(m);
            i = i + k;
        }
        self.finish()
    }

    /// Runs to the end with dice from `rng` and returns the record of the run.
    pub fn run(&mut self, rng: &mut StdRng) -> (r: GameResult)
        ensures
            !final(self).keeps_going(),
            r == final(self).result_of(),
            is_run_of(r, *old(self)),
            exists|dice: Seq<u32>|
                #![trigger old(self).play(dice)]
                fair_faces(dice) && *final(self) == old(self).play(dice),
    {
        let ghost start = *self;
        let ghost used: Seq<u32> = Seq::empty();
        proof {
            assert forall|more: Seq<u32>| start.play(used + more) == self.play(more) by {
                assert(used + more =~= more);
            }
        }
        while self.keeps_going_exec()
            invariant
                fair_faces(used),
                forall|more: Seq<u32>| #[trigger] start.play(used + more) == self.play(more),
            decreases usize::MAX - self.rolls,
        {
            let dice = draw_dice(rng, 1 + self.roll_advantage);
            let m = max_of(dice.as_slice(), 0, dice.len());
            let ghost before = *self;
            let ghost d = dice@;
            proof {
                assert(d.subrange(0, d.len() as int) =~= d);
                lemma_max_roll_face(d);
            }
            self.take_roll(m);
            proof {
                assert forall|more: Seq<u32>| start.play((used + d) + more) == self.play(more) by {
                    assert((used + d) + more =~= used + (d + more));
                    assert((d + more).take(d.len() as int) =~= d);
                    assert((d + more).skip(d.len() as int) =~= more);
                    assert(start.play(used + (d + more)) == before.play(d + more));
                }
                assert forall|j: int| 0 <= j < (used + d).len() implies 1 <= #[trigger] (used
                    + d)[j] <= 6 by {
                    if j >= used.len() {
                        assert((used + d)[j] == d[j - used.len()]);
                    }
                }
                used = used + d;
            }
        }
        proof {
            assert(used + Seq::<u32>::empty() =~= used);
            assert(start.play(used + Seq::<u32>::empty()) == self.play(Seq::<u32>::empty()));
        }
        self.finish()
    }

    /// The record of the run as it stands.
    fn finish(&self) -> (r: GameResult)
        ensures
            r == self.result_of(),
    {
        let outcome = if self.damage >= self.target_dmg || (self.include_squirrels && self.damage
            as u64 + self.squirrels as u64 >= self.target_dmg as u64) {
            Outcome::Win
        } else {
            Outcome::Lose
        };
        GameResult {
            outcome,
            damage: self.damage,
            squirrels: self.squirrels,
            rolls: self.rolls,
            returns: self.returns,
        }
    }
}

/// A fair, non-empty group of dice keeps a face of the die.
pub proof fn lemma_max_roll_face(dice: Seq<u32>)
    requires
        dice.len() > 0,
        fair_faces(dice),
    ensures
        1 <= max_roll(dice) <= 6,
    decreases dice.len(),
{
    assert(1 <= dice[dice.len() - 1] <= 6);
    if dice.len() > 1 {
        assert forall|i: int| 0 <= i < dice.drop_last().len() implies 1 <= #[trigger] dice.drop_last()[i]
            <= 6 by {
            assert(dice.drop_last()[i] == dice[i]);
        }
        lemma_max_roll_face(dice.drop_last());
    } else {
        assert(max_roll(dice.drop_last()) == 0);
    }
}

/// The largest of `dice[lo..hi]`.
fn max_of(dice: &[u32], lo: usize, hi: usize) -> (r: u32)
    requires
        lo <= hi <= dice@.len(),
    ensures
        r == max_roll(dice@.subrange(lo as int, hi as int)),
{
    let mut m: u32 = 0;
    let mut i: usize = lo;
    proof {
        assert(dice@.subrange(lo as int, lo as int) =~= Seq::<u32>::empty());
    }
    while i < hi
        invariant
            lo <= i <= hi <= dice@.len(),
            m == max_roll(dice@.subrange(lo as int, i as int)),
        decreases hi - i,
    {
        proof {
            assert(dice@.subrange(lo as int, i + 1).drop_last() =~= dice@.subrange(lo as int, i as int));
        }
        if dice[i] > m {
            m = dice[i];
        }
        i = i + 1;
    }
    m
}

/// `count` fresh dice from `rng`.
fn draw_dice(rng: &mut StdRng, count: usize) -> (v: Vec<u32>)
    ensures
        v@.len() == count,
        fair_faces(v@),
{
    let mut v: Vec<u32> = Vec::new();
    let mut i: usize = 0;
    while i < count
        invariant
            i <= count,
            v@.len() == i,
            fair_faces(v@),
        decreases count - i,
    {
        let d = roll_die(rng);
        v.push(d);
        i = i + 1;
    }
    v
}

} // verus!

verus! {

/// A run performs `dice_per_activation` rolls for each activation it performs,
/// keeps its configuration, and never loses damage.
pub proof fn lemma_rolls_per_activation(g: Game, dice: Seq<u32>)
    ensures
        g.play(dice).rolls == g.rolls + g.dice_per_activation() * g.activations_in(dice),
        g.play(dice).same_config(g),
        g.play(dice).damage >= g.damage,
    decreases dice.len(),
{
    let k = g.dice_per_activation() as int;
    if g.keeps_going() && k <= dice.len() {
        let h = g.step(max_roll(dice.take(k)));
        lemma_rolls_per_activation(h, dice.skip(k));
        let n = h.activations_in(dice.skip(k)) as int;
        assert(h.rolls == g.rolls + k);
        assert(h.dice_per_activation() == k);
        assert(k * (1 + n) == k + k * n) by (nonlinear_arith);
    } else {
        assert(k * 0 == 0);
    }
}

/// Every run ends within a bounded number of activations: the dice it rolls,
/// `dice_per_activation` for each activation, fit the room left in `rolls`;
/// and its damage never decreases.
pub proof fn lemma_run_bounded(g: Game, dice: Seq<u32>)
    ensures
        g.activations_in(dice) * g.dice_per_activation() <= usize::MAX - g.rolls,
        g.activations_in(dice) <= usize::MAX - g.rolls,
        g.play(dice).damage >= g.damage,
{
    lemma_rolls_per_activation(g, dice);
    let n = g.activations_in(dice) as int;
    let k = g.dice_per_activation() as int;
    assert(n * k == k * n && n <= n * k) by (nonlinear_arith)
        requires k >= 1, n >= 0;
}

/// A finished run is won exactly when its damage reaches the target, or, with
/// squirrels included, when damage and squirrels together reach it.
pub proof fn lemma_outcome_rule(g: Game)
    ensures
        (g.result_of().outcome == Outcome::Win) <==> (g.damage >= g.target_dmg || (
        g.include_squirrels && g.damage + g.squirrels >= g.target_dmg)),
        g.result_of().damage == g.damage,
        g.result_of().squirrels == g.squirrels,
{
}

/// Each activation uses up one activation and each kept 6 grants two more, so a
/// run performs its starting activations plus two for each 6, less those left
/// when it stops. Without sixes a run ends within its starting activations.
pub proof fn lemma_activation_budget(g: Game, dice: Seq<u32>)
    requires
        fair_faces(dice),
    ensures
        g.activations_in(dice) + g.play(dice).activations_left == g.activations_left + 2
            * g.sixes_in(dice),
        g.activations_in(dice) <= g.activations_left + 2 * g.sixes_in(dice),
    decreases dice.len(),
{
    let k = g.dice_per_activation() as int;
    if g.keeps_going() && k <= dice.len() {
        let group = dice.take(k);
        let rest = dice.skip(k);
        assert forall|i: int| 0 <= i < group.len() implies 1 <= #[trigger] group[i] <= 6 by {
            assert(group[i] == dice[i]);
        }
        assert forall|i: int| 0 <= i < rest.len() implies 1 <= #[trigger] rest[i] <= 6 by {
            assert(rest[i] == dice[i + k]);
        }
        lemma_max_roll_face(group);
        lemma_activation_budget(g.step(max_roll(group)), rest);
    }
}

} // verus!
