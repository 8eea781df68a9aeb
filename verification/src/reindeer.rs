//! A herd of reindeer: its combined strength, and the winners of a contest
//! in four disciplines.
//!
//! A discipline is won by the reindeer with the greatest mark; of several
//! with the same greatest mark, by the one that stands last in the herd.

use vstd::prelude::*;

verus! {

/// A reindeer and what is known of it.
pub struct Reindeer {
    pub name: String,
    pub strength: u32,
    /// The speed, a single-precision number, as its 32 bits.
    pub speed: Option<u32>,
    pub height: Option<u32>,
    pub antler_width: Option<u32>,
    pub snow_magic_power: Option<u32>,
    pub favorite_food: Option<String>,
    pub candies_eaten_yesterday: Option<u32>,
}

impl Clone for Reindeer {
    fn clone(&self) -> (copy: Self)
        ensures
            copy == *self,
    {
        Reindeer {
            name: self.name.clone(),
            strength: self.strength,
            speed: self.speed,
            height: self.height,
            antler_width: self.antler_width,
            snow_magic_power: self.snow_magic_power,
            favorite_food: match &self.favorite_food {
                Some(food) => Some(food.clone()),
                None => None,
            },
            candies_eaten_yesterday: self.candies_eaten_yesterday,
        }
    }
}

/// The winners of a contest, one for each discipline; none where the herd
/// was empty.
pub struct ReindeerContestSummary {
    /// The winner by speed.
    pub fastest: Option<Reindeer>,
    /// The winner by height.
    pub tallest: Option<Reindeer>,
    /// The winner by snow magic power.
    pub magician: Option<Reindeer>,
    /// The winner by candies eaten.
    pub consumer: Option<Reindeer>,
}

/// The disciplines of a contest.
#[derive(Clone, Copy, PartialEq, Eq, Structural)]
pub enum Discipline {
    Speed,
    Height,
    SnowMagic,
    Candies,
}

/// Where the number with the bits `bits` stands in the total order of
/// single-precision numbers: the numbers with the sign bit set stand below
/// all others, and among them a greater magnitude stands lower.
pub open spec fn speed_rank(bits: u32) -> int {
    if bits < 0x8000_0000 {
        bits as int
    } else {
        -1 - (bits - 0x8000_0000)
    }
}

/// The mark of a reindeer in a discipline. An unknown mark is below every
/// known one.
pub open spec fn mark(reindeer: Reindeer, discipline: Discipline) -> int {
    match discipline {
        Discipline::Speed => match reindeer.speed {
            Some(bits) => speed_rank(bits),
            None => -0x8000_0001,
        },
        Discipline::Height => match reindeer.height {
            Some(height) => height as int,
            None => -1,
        },
        Discipline::SnowMagic => match reindeer.snow_magic_power {
            Some(power) => power as int,
            None => -1,
        },
        Discipline::Candies => match reindeer.candies_eaten_yesterday {
            Some(candies) => candies as int,
            None => -1,
        },
    }
}

/// The reindeer at `place` wins the discipline: none has a greater mark, and
/// none that stands after it has the same.
pub open spec fn wins(herd: Seq<Reindeer>, discipline: Discipline, place: int) -> bool {
    &&& 0 <= place < herd.len()
    &&& forall|other: int|
        0 <= other < herd.len() ==> mark(#[trigger] herd[other], discipline) <= mark(
            herd[place],
            discipline,
        )
    &&& forall|other: int|
        place < other < herd.len() ==> mark(#[trigger] herd[other], discipline) < mark(
            herd[place],
            discipline,
        )
}

/// A discipline has one winner at most.
pub proof fn lemma_one_winner(herd: Seq<Reindeer>, discipline: Discipline, place: int, other: int)
    requires
        wins(herd, discipline, place),
        wins(herd, discipline, other),
    ensures
        place == other,
{
    if place < other {
        assert(mark(herd[other], discipline) < mark(herd[place], discipline));
    }
    if other < place {
        assert(mark(herd[place], discipline) < mark(herd[other], discipline));
    }
}

/// `winner` is the winner of the discipline in `herd`, or nobody where the
/// herd is empty.
pub open spec fn crowned(herd: Seq<Reindeer>, discipline: Discipline, winner: Option<Reindeer>) -> bool {
    match winner {
        Some(reindeer) => exists|place: int| wins(herd, discipline, place) && herd[place] == reindeer,
        None => herd.len() == 0,
    }
}

/// `summary` names the winner of each discipline in `herd`.
pub open spec fn summarizes(herd: Seq<Reindeer>, summary: ReindeerContestSummary) -> bool {
    &&& crowned(herd, Discipline::Speed, summary.fastest)
    &&& crowned(herd, Discipline::Height, summary.tallest)
    &&& crowned(herd, Discipline::SnowMagic, summary.magician)
    &&& crowned(herd, Discipline::Candies, summary.consumer)
}

/// The speed of every reindeer is known, unless the herd has fewer than two
/// and nothing is there to compare.
pub open spec fn speeds_known(herd: Seq<Reindeer>) -> bool {
    herd.len() >= 2 ==> forall|place: int| 0 <= place < herd.len() ==> (#[trigger] herd[place]).speed is Some
}

/// The strengths of a herd, added up.
pub open spec fn total_strength(herd: Seq<Reindeer>) -> nat
    decreases herd.len(),
{
    if herd.len() == 0 {
        0
    } else {
        total_strength(herd.drop_last()) + herd.last().strength as nat
    }
}

/// The mark of `reindeer` in `discipline`.
fn mark_of(reindeer: &Reindeer, discipline: Discipline) -> (points: i64)
    ensures
        points == mark(*reindeer, discipline),
{
    match discipline {
        Discipline::Speed => match reindeer.speed {
            Some(bits) => if bits < 0x8000_0000 {
                bits as i64
            } else {
                -1 - ((bits - 0x8000_0000) as i64)
            },
            None => -0x8000_0001,
        },
        Discipline::Height => match reindeer.height {
            Some(height) => height as i64,
            None => -1,
        },
        Discipline::SnowMagic => match reindeer.snow_magic_power {
            Some(power) => power as i64,
            None => -1,
        },
        Discipline::Candies => match reindeer.candies_eaten_yesterday {
            Some(candies) => candies as i64,
            None => -1,
        },
    }
}

/// The winner of a discipline, or nobody where the herd is empty.
pub fn winner(herd: &Vec<Reindeer>, discipline: Discipline) -> (winner: Option<Reindeer>)
    ensures
        crowned(herd@, discipline, winner),
{
    if herd.len() == 0 {
        return None;
    }
    let mut best: usize = 0;
    let mut best_mark = mark_of(&herd[0], discipline);
    let mut i: usize = 1;
    while i < herd.len()
        invariant
            0 <= best < i <= herd@.len(),
            best_mark == mark(herd@[best as int], discipline),
            forall|other: int|
                0 <= other < i ==> mark(#[trigger] herd@[other], discipline) <= best_mark,
            forall|other: int|
                best < other < i ==> mark(#[trigger] herd@[other], discipline) < best_mark,
        decreases herd@.len() - i,
    {
        let points = mark_of(&herd[i], discipline);
        if points >= best_mark {
            best = i;
            best_mark = points;
        }
        i += 1;
    }
    assert(wins(herd@, discipline, best as int));
    Some(herd[best].clone())
}

/// What can run a contest among its reindeer.
pub trait IntoReindeerContestSummary: Sized {
    /// The reindeer that take part, in their order.
    spec fn herd(self) -> Seq<Reindeer>;

    /// Names the winner of each discipline.
    fn contest(self) -> (summary: ReindeerContestSummary)
        requires
            speeds_known(self.herd()),
        ensures
            summarizes(self.herd(), summary),
    ;
}

impl IntoReindeerContestSummary for Vec<Reindeer> {
    open spec fn herd(self) -> Seq<Reindeer> {
        self@
    }

    fn contest(self) -> (summary: ReindeerContestSummary) {
        ReindeerContestSummary {
            fastest: winner(&self, Discipline::Speed),
            tallest: winner(&self, Discipline::Height),
            magician: winner(&self, Discipline::SnowMagic),
            consumer: winner(&self, Discipline::Candies),
        }
    }
}

/// The combined strength of the herd, where it fits in 32 bits.
pub fn checked_strength_sum(reindeers: &Vec<Reindeer>) -> (sum: Option<u32>)
    ensures
        match sum {
            Some(total) => total == total_strength(reindeers@),
            None => total_strength(reindeers@) > u32::MAX,
        },
{
    let mut total: u128 = 0;
    let mut i: usize = 0;
    while i < reindeers.len()
        invariant
            i <= reindeers@.len(),
            total == total_strength(reindeers@.take(i as int)),
            total <= i * 0xffff_ffff,
        decreases reindeers@.len() - i,
    {
        assert(reindeers@.take(i + 1).drop_last() =~= reindeers@.take(i as int));
        total = total + reindeers[i].strength as u128;
        i += 1;
    }
    assert(reindeers@.take(reindeers@.len() as int) =~= reindeers@);
    if total <= 0xffff_ffff {
        Some(total as u32)
    } else {
        None
    }
}

/// The combined strength of the herd.
pub fn strength_sum(reindeers: Vec<Reindeer>) -> (sum: u32)
    requires
        total_strength(reindeers@) <= u32::MAX,
    ensures
        sum == total_strength(reindeers@),
{
    match checked_strength_sum(&reindeers) {
        Some(total) => total,
        None => unreached(),
    }
}

} // verus!
