use vstd::prelude::*;

use rand::rngs::StdRng;

use crate::util::random::{rng_range_i32, rng_range_inclusive_u8};
use crate::world::coordinate_system::Direction;

verus! {

/// The size of a die: how many sides it has.
#[derive(Clone, Copy, Debug, PartialEq, Eq, Structural)]
pub enum DieSize {
    D4,
    D6,
    D8,
    D10,
    D12,
    D20,
    D100,
}

/// The number of sides of a die.
pub open spec fn spec_upper_bound(d: DieSize) -> u8 {
    match d {
        DieSize::D4 => 4,
        DieSize::D6 => 6,
        DieSize::D8 => 8,
        DieSize::D10 => 10,
        DieSize::D12 => 12,
        DieSize::D20 => 20,
        DieSize::D100 => 100,
    }
}

impl DieSize {
    /// The highest number the die shows.
    pub fn upper_bound(self) -> (n: u8)
        ensures
            n == spec_upper_bound(self),
            4 <= n <= 100,
    {
        match self {
            DieSize::D4 => 4,
            DieSize::D6 => 6,
            DieSize::D8 => 8,
            DieSize::D10 => 10,
            DieSize::D12 => 12,
            DieSize::D20 => 20,
            DieSize::D100 => 100,
        }
    }
}

/// A dice roll: a number of dice of the given size, summed, plus a modifier.
///
/// The roll is resolved by [Roll::roll] with a generator to draw from.
#[derive(Clone, Copy, Debug, PartialEq, Eq, Structural)]
pub struct Roll {
    /// Number of dice to be rolled.
    dice_amount: u8,
    /// Die size (number of sides) of the dice.
    dice_size: DieSize,
    /// Modifier to be applied to the result.
    modifier: i16,
}

impl Roll {
    pub closed spec fn spec_dice_amount(&self) -> u8 {
        self.dice_amount
    }

    pub closed spec fn spec_dice_size(&self) -> DieSize {
        self.dice_size
    }

    pub closed spec fn spec_modifier(&self) -> i16 {
        self.modifier
    }

    /// The roll of `dice_amount` dice of `dice_size` sides, plus `modifier`.
    pub closed spec fn spec_make(dice_amount: u8, dice_size: DieSize, modifier: i16) -> Roll {
        Roll { dice_amount, dice_size, modifier }
    }

    /// What a made roll consists of.
    pub proof fn lemma_make(dice_amount: u8, dice_size: DieSize, modifier: i16)
        ensures
            Roll::spec_make(dice_amount, dice_size, modifier).spec_dice_amount() == dice_amount,
            Roll::spec_make(dice_amount, dice_size, modifier).spec_dice_size() == dice_size,
            Roll::spec_make(dice_amount, dice_size, modifier).spec_modifier() == modifier,
    {
    }

    /// The least result of the roll: every die shows 1.
    pub open spec fn spec_least(&self) -> int {
        self.spec_dice_amount() + self.spec_modifier()
    }

    /// The greatest result of the roll: every die shows its highest side.
    pub open spec fn spec_most(&self) -> int {
        self.spec_dice_amount() * spec_upper_bound(self.spec_dice_size()) + self.spec_modifier()
    }

    /// Whether every result of the roll fits an `i16`.
    pub open spec fn fits(&self) -> bool {
        self.spec_most() <= i16::MAX
    }

    /// Whether `dice` is a showing of the roll's dice: one number per die,
    /// each between 1 and the die's size.
    pub open spec fn dice_shown(&self, dice: Seq<u8>) -> bool {
        &&& dice.len() == self.spec_dice_amount()
        &&& forall|i: int| 0 <= i < dice.len() ==> 1 <= #[trigger] dice[i] <= spec_upper_bound(self.spec_dice_size())
    }

    /// What a showing of the dice adds up to.
    pub proof fn lemma_dice_sum_bounds(dice: Seq<u8>, size: u8)
        requires
            forall|i: int| 0 <= i < dice.len() ==> 1 <= #[trigger] dice[i] <= size,
        ensures
            dice.len() <= dice_sum(dice) <= dice.len() * size,
        decreases dice.len(),
    {
        if dice.len() > 0 {
            let rest = dice.drop_last();
            assert forall|i: int| 0 <= i < rest.len() implies 1 <= #[trigger] rest[i] <= size by {
                assert(rest[i] == dice[i]);
            }
            Roll::lemma_dice_sum_bounds(rest, size);
            let n = dice.len() as int;
            assert((n - 1) * size + size == n * size) by (nonlinear_arith);
        }
    }

    pub fn new(dice_amount: u8, dice_size: DieSize) -> (r: Self)
        ensures
            r.spec_dice_amount() == dice_amount,
            r.spec_dice_size() == dice_size,
            r.spec_modifier() == 0,
            r == Roll::spec_make(dice_amount, dice_size, 0),
    {
        Self { dice_amount, modifier: 0, dice_size }
    }

    pub fn dice_amount(&self) -> (n: u8)
        ensures
            n == self.spec_dice_amount(),
    {
        self.dice_amount
    }

    pub fn dice_size(&self) -> (d: DieSize)
        ensures
            d == self.spec_dice_size(),
    {
        self.dice_size
    }

    pub fn modifier(&self) -> (m: i16)
        ensures
            m == self.spec_modifier(),
    {
        self.modifier
    }

    /// Adds to the modifier (modifiers stack).
    pub fn add_modifier(self, modifier: i16) -> (r: Self)
        requires
            i16::MIN <= self.spec_modifier() + modifier <= i16::MAX,
        ensures
            r.spec_dice_amount() == self.spec_dice_amount(),
            r.spec_dice_size() == self.spec_dice_size(),
            r.spec_modifier() == self.spec_modifier() + modifier,
            r == Roll::spec_make(self.spec_dice_amount(), self.spec_dice_size(), (self.spec_modifier() + modifier) as i16),
    {
        let mut r = self;
        r.modifier = self.modifier + modifier;
        r
    }

    /// The result of the roll when its dice show `dice`: their sum plus
    /// the modifier.
    pub fn roll_with(&self, dice: &Vec<u8>) -> (result: i16)
        requires
            self.dice_shown(dice@),
            self.fits(),
        ensures
            result == dice_sum(dice@) + self.spec_modifier(),
    {
        let mut sum: i32 = 0;
        let mut i: usize = 0;
        proof {
            Roll::lemma_dice_sum_bounds(dice@, spec_upper_bound(self.dice_size));
            assert(dice@.len() * spec_upper_bound(self.dice_size) <= 255 * 100) by (nonlinear_arith)
                requires dice@.len() <= 255, spec_upper_bound(self.dice_size) <= 100;
        }
        while i < dice.len()
            invariant
                i <= dice@.len(),
                dice@.len() <= 255,
                self.dice_shown(dice@),
                sum == dice_sum(dice@.take(i as int)),
                0 <= sum <= i * 100,
            decreases dice@.len() - i,
        {
            proof {
                assert(dice@.take(i + 1).drop_last() =~= dice@.take(i as int));
                assert(spec_upper_bound(self.dice_size) <= 100);
            }
            sum = sum + dice[i] as i32;
            i = i + 1;
        }
        proof {
            assert(dice@.take(i as int) =~= dice@);
        }
        (sum + self.modifier as i32) as i16
    }

    /// Rolls the roll's dice, each showing 1 to its size, and adds their sum
    /// to the modifier.
    pub fn roll(&self, rng: &mut StdRng) -> (result: i16)
        requires
            self.fits(),
        ensures
            exists|dice: Seq<u8>| self.dice_shown(dice) && result == dice_sum(dice) + self.spec_modifier(),
            self.spec_least() <= result <= self.spec_most(),
    {
        let size = self.dice_size.upper_bound();
        let mut dice: Vec<u8> = Vec::new();
        while dice.len() < self.dice_amount as usize
            invariant
                dice@.len() <= self.spec_dice_amount(),
                size == spec_upper_bound(self.spec_dice_size()),
                forall|i: int| 0 <= i < dice@.len() ==> 1 <= #[trigger] dice@[i] <= size,
            decreases self.spec_dice_amount() - dice@.len(),
        {
            let die = rng_range_inclusive_u8(rng, 1, size);
            dice.push(die);
        }
        proof {
            Roll::lemma_dice_sum_bounds(dice@, size);
        }
        self.roll_with(&dice)
    }
}

/// The sum of the numbers the dice show.
pub open spec fn dice_sum(dice: Seq<u8>) -> int
    decreases dice.len(),
{
    if dice.len() == 0 {
        0
    } else {
        dice_sum(dice.drop_last()) + dice.last()
    }
}

/// A check: a [Roll] that succeeds if its result is at least the difficulty.
#[derive(Clone, Copy, Debug, PartialEq, Eq, Structural)]
pub struct Check {
    roll: Roll,
    /// Target number that must be met for a success.
    difficulty: i16,
}

impl Check {
    pub closed spec fn spec_roll(&self) -> Roll {
        self.roll
    }

    pub closed spec fn spec_difficulty(&self) -> i16 {
        self.difficulty
    }

    pub fn new(roll: Roll) -> (c: Self)
        ensures
            c.spec_roll() == roll,
            c.spec_difficulty() == 0,
    {
        Self { roll, difficulty: 0 }
    }

    /// A standard d20 check against difficulty 0, meant for common checks
    /// and attacks.
    pub fn standard() -> (c: Self)
        ensures
            c.spec_roll().spec_dice_amount() == 1,
            c.spec_roll().spec_dice_size() == DieSize::D20,
            c.spec_roll().spec_modifier() == 0,
            c.spec_difficulty() == 0,
    {
        Self { roll: Roll { dice_amount: 1, dice_size: DieSize::D20, modifier: 0 }, difficulty: 0 }
    }

    /// Adds to the modifier of the check's roll (modifiers stack).
    pub fn add_modifier(self, modifier: i16) -> (c: Self)
        requires
            i16::MIN <= self.spec_roll().spec_modifier() + modifier <= i16::MAX,
        ensures
            c.spec_roll() == Roll::spec_make(
                self.spec_roll().spec_dice_amount(),
                self.spec_roll().spec_dice_size(),
                (self.spec_roll().spec_modifier() + modifier) as i16,
            ),
            c.spec_difficulty() == self.spec_difficulty(),
    {
        let mut c = self;
        c.roll = self.roll.add_modifier(modifier);
        c
    }

    pub fn set_difficulty(self, difficulty: i16) -> (c: Self)
        ensures
            c.spec_roll() == self.spec_roll(),
            c.spec_difficulty() == difficulty,
    {
        let mut c = self;
        c.difficulty = difficulty;
        c
    }

    /// Whether a roll result meets the difficulty.
    pub fn succeeds_with(&self, rolled_num: i16) -> (b: bool)
        ensures
            b == (rolled_num >= self.spec_difficulty()),
    {
        rolled_num >= self.difficulty
    }

    /// Rolls and compares the result with the difficulty.
    pub fn resolve(&self, rng: &mut StdRng) -> (success: bool)
        requires
            self.spec_roll().fits(),
        ensures
            success ==> self.spec_roll().spec_most() >= self.spec_difficulty(),
            !success ==> self.spec_roll().spec_least() < self.spec_difficulty(),
    {
        let rolled_num = self.roll.roll(rng);
        self.succeeds_with(rolled_num)
    }
}

impl Direction {
    /// A direction drawn uniformly from the four.
    pub fn random(rng: &mut StdRng) -> Direction {
        let n = rng_range_i32(rng, 0, 4);
        Direction::from_index(n)
    }
}

} // verus!
