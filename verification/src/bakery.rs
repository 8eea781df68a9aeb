//! The batch calculator: how many whole batches of a recipe a pantry
//! affords, and what is left in the pantry once they are baked.
//!
//! A recipe with no positive requirement asks for nothing, so nothing limits
//! the number of batches; the calculator then bakes none.

use vstd::prelude::*;
use crate::pantry::{distinct_names, entries_map, lemma_entry_in_map, names, Entry, Ingredients};

verus! {

/// How much of `name` the pantry holds; of an ingredient it lacks, none.
pub open spec fn on_hand(pantry: Map<Seq<char>, nat>, name: Seq<char>) -> nat {
    if pantry.dom().contains(name) {
        pantry[name]
    } else {
        0
    }
}

/// How much of `name` one batch needs; of an ingredient that the recipe does
/// not list, none.
pub open spec fn needed(recipe: Map<Seq<char>, nat>, name: Seq<char>) -> nat {
    if recipe.dom().contains(name) {
        recipe[name]
    } else {
        0
    }
}

/// The pantry holds enough of every ingredient for `batches` batches.
pub open spec fn affordable(
    recipe: Map<Seq<char>, nat>,
    pantry: Map<Seq<char>, nat>,
    batches: nat,
) -> bool {
    forall|name: Seq<char>| #[trigger]
        recipe.dom().contains(name) ==> batches * recipe[name] <= on_hand(pantry, name)
}

/// The recipe needs a positive amount of at least one ingredient.
pub open spec fn constrained(recipe: Map<Seq<char>, nat>) -> bool {
    exists|name: Seq<char>| #[trigger] recipe.dom().contains(name) && recipe[name] > 0
}

/// `batches` is the number of batches to bake: the largest number the pantry
/// affords, and none where the recipe needs nothing.
pub open spec fn is_batch_count(
    recipe: Map<Seq<char>, nat>,
    pantry: Map<Seq<char>, nat>,
    batches: nat,
) -> bool {
    if constrained(recipe) {
        affordable(recipe, pantry, batches) && !affordable(recipe, pantry, batches + 1)
    } else {
        batches == 0
    }
}

/// The pantry after `batches` batches: the same ingredients, each less what
/// the batches took of it.
pub open spec fn remaining(
    recipe: Map<Seq<char>, nat>,
    pantry: Map<Seq<char>, nat>,
    batches: nat,
) -> Map<Seq<char>, nat> {
    Map::new(
        |name: Seq<char>| pantry.dom().contains(name),
        |name: Seq<char>|
            if recipe.dom().contains(name) {
                (pantry[name] - batches * recipe[name]) as nat
            } else {
                pantry[name]
            },
    )
}

/// Baking `recipe` from `pantry` gives `cookies` batches and leaves `left`.
pub open spec fn baked(
    recipe: Map<Seq<char>, nat>,
    pantry: Map<Seq<char>, nat>,
    cookies: nat,
    left: Map<Seq<char>, nat>,
) -> bool {
    is_batch_count(recipe, pantry, cookies) && left == remaining(recipe, pantry, cookies)
}

/// What baking gives: the number of batches and the pantry afterwards.
pub struct BatchResult {
    /// The number of batches baked.
    pub cookies: u64,
    /// The pantry after baking.
    pub pantry: Ingredients,
}

proof fn lemma_share(available: nat, needed: nat)
    by (nonlinear_arith)
    requires
        needed > 0,
    ensures
        (available / needed) * needed <= available < (available / needed + 1) * needed,
{
}

proof fn lemma_fewer_batches_need_less(fewer: nat, more: nat, needed: nat)
    by (nonlinear_arith)
    requires
        fewer <= more,
    ensures
        fewer * needed <= more * needed,
{
}

/// The pantry holds enough for `batches` batches of the first `upto` needs.
spec fn allows(needs: Seq<Entry>, pantry: Map<Seq<char>, nat>, upto: int, batches: nat) -> bool {
    forall|k: int|
        0 <= k < upto ==> batches * (#[trigger] needs[k]).quantity <= on_hand(pantry, needs[k].name@)
}

/// One of the first `upto` needs is positive and not met for one batch more
/// than `batches`.
spec fn binds(needs: Seq<Entry>, pantry: Map<Seq<char>, nat>, upto: int, batches: nat) -> bool {
    exists|k: int|
        0 <= k < upto && (#[trigger] needs[k]).quantity > 0 && (batches + 1) * needs[k].quantity
            > on_hand(pantry, needs[k].name@)
}

/// None of the first `upto` needs is positive.
spec fn idle(needs: Seq<Entry>, upto: int) -> bool {
    forall|k: int| 0 <= k < upto ==> (#[trigger] needs[k]).quantity == 0
}

proof fn lemma_no_batch_allowed(needs: Seq<Entry>, pantry: Map<Seq<char>, nat>)
    ensures
        allows(needs, pantry, needs.len() as int, 0),
{
    assert forall|k: int| 0 <= k < needs.len() implies 0 * (#[trigger] needs[k]).quantity <= on_hand(
        pantry,
        needs[k].name@,
    ) by {
        assert(0 * needs[k].quantity == 0) by (nonlinear_arith);
    }
}

proof fn lemma_fewer_batches_allowed(
    needs: Seq<Entry>,
    pantry: Map<Seq<char>, nat>,
    upto: int,
    fewer: nat,
    more: nat,
)
    requires
        fewer <= more,
        allows(needs, pantry, upto, more),
    ensures
        allows(needs, pantry, upto, fewer),
{
    assert forall|k: int| 0 <= k < upto implies fewer * (#[trigger] needs[k]).quantity <= on_hand(
        pantry,
        needs[k].name@,
    ) by {
        lemma_fewer_batches_need_less(fewer, more, needs[k].quantity as nat);
    }
}

proof fn lemma_idle_allows(needs: Seq<Entry>, pantry: Map<Seq<char>, nat>, upto: int, batches: nat)
    requires
        idle(needs, upto),
    ensures
        allows(needs, pantry, upto, batches),
{
    assert forall|k: int| 0 <= k < upto implies batches * (#[trigger] needs[k]).quantity <= on_hand(
        pantry,
        needs[k].name@,
    ) by {
        assert(batches * 0 == 0) by (nonlinear_arith);
    }
}

/// The largest number of batches that the needs allow, or `None` where none
/// of them is positive. The search ends at the first positive need that the
/// pantry lacks.
fn batch_limit(needs: &Vec<Entry>, pantry: &Ingredients) -> (limit: Option<u64>)
    ensures
        match limit {
            Some(most) => allows(needs@, pantry@, needs@.len() as int, most as nat) && binds(
                needs@,
                pantry@,
                needs@.len() as int,
                most as nat,
            ),
            None => idle(needs@, needs@.len() as int),
        },
{
    let mut limit: Option<u64> = None;
    let mut i: usize = 0;
    while i < needs.len()
        invariant
            i <= needs@.len(),
            match limit {
                Some(most) => allows(needs@, pantry@, i as int, most as nat) && binds(
                    needs@,
                    pantry@,
                    i as int,
                    most as nat,
                ),
                None => idle(needs@, i as int),
            },
        decreases needs@.len() - i,
    {
        let needed = needs[i].quantity;
        if needed != 0 {
            match pantry.get(needs[i].name.as_str()) {
                None => {
                    proof {
                        lemma_no_batch_allowed(needs@, pantry@);
                        assert((0 + 1) * needs@[i as int].quantity > 0) by (nonlinear_arith)
                            requires
                                needs@[i as int].quantity > 0,
                        ;
                    }
                    return Some(0);
                },
                Some(available) => {
                    let share = available / needed;
                    proof {
                        lemma_share(available as nat, needed as nat);
                    }
                    match limit {
                        Some(most) if most <= share => {
                            proof {
                                lemma_fewer_batches_need_less(most as nat, share as nat, needed as nat);
                            }
                        },
                        _ => {
                            proof {
                                match limit {
                                    Some(most) => lemma_fewer_batches_allowed(
                                        needs@,
                                        pantry@,
                                        i as int,
                                        share as nat,
                                        most as nat,
                                    ),
                                    None => lemma_idle_allows(needs@, pantry@, i as int, share as nat),
                                }
                                assert(needs@[i as int].quantity > 0);
                            }
                            limit = Some(share);
                        },
                    }
                },
            }
        } else {
            proof {
                if let Some(most) = limit {
                    assert(most * 0 == 0) by (nonlinear_arith);
                }
            }
        }
        i += 1;
    }
    limit
}

/// The pantry's entries after `cookies` batches were taken from them.
fn take_batches(recipe: &Ingredients, pantry: &Vec<Entry>, cookies: u64) -> (left: Vec<Entry>)
    requires
        distinct_names(pantry@),
        affordable(recipe@, entries_map(pantry@), cookies as nat),
    ensures
        distinct_names(left@),
        entries_map(left@) == remaining(recipe@, entries_map(pantry@), cookies as nat),
{
    let mut left: Vec<Entry> = Vec::new();
    let mut j: usize = 0;
    while j < pantry.len()
        invariant
            j <= pantry@.len(),
            left@.len() == j,
            distinct_names(pantry@),
            affordable(recipe@, entries_map(pantry@), cookies as nat),
            forall|k: int| 0 <= k < j ==> (#[trigger] left@[k]).name@ == pantry@[k].name@,
            forall|k: int|
                0 <= k < j ==> (#[trigger] left@[k]).quantity as nat == remaining(
                    recipe@,
                    entries_map(pantry@),
                    cookies as nat,
                )[pantry@[k].name@],
        decreases pantry@.len() - j,
    {
        let name = pantry[j].name.clone();
        let available = pantry[j].quantity;
        proof {
            lemma_entry_in_map(pantry@, j as int);
        }
        let taken = if cookies == 0 {
            assert(0 * recipe@[name@] == 0) by (nonlinear_arith);
            0
        } else {
            match recipe.get(name.as_str()) {
                Some(needed) => {
                    assert(cookies * needed <= available);
                    cookies * needed
                },
                None => 0,
            }
        };
        left.push(Entry { name, quantity: available - taken });
        j += 1;
    }
    proof {
        let after = remaining(recipe@, entries_map(pantry@), cookies as nat);
        assert forall|name: Seq<char>| names(left@, name) <==> names(pantry@, name) by {
            if names(left@, name) {
                let k = choose|k: int| 0 <= k < left@.len() && (#[trigger] left@[k]).name@ == name;
                assert(pantry@[k].name@ == name);
            }
            if names(pantry@, name) {
                let k = choose|k: int|
                    0 <= k < pantry@.len() && (#[trigger] pantry@[k]).name@ == name;
                assert(left@[k].name@ == name);
            }
        }
        assert forall|name: Seq<char>| names(left@, name) implies #[trigger] entries_map(left@)[name]
            == after[name] by {
            let k = choose|k: int| 0 <= k < left@.len() && (#[trigger] left@[k]).name@ == name;
            lemma_entry_in_map(left@, k);
        }
        assert(entries_map(left@) =~= after);
    }
    left
}

/// Bakes as many whole batches of `recipe` as `pantry` affords.
///
/// An ingredient that the recipe needs in a positive amount and the pantry
/// lacks allows no batch. A recipe that needs nothing bakes no batch either.
/// The pantry that comes back holds the ingredients of `pantry`, each less
/// what the batches took of it.
pub fn bake_cookies(recipe: &Ingredients, pantry: &Ingredients) -> (result: BatchResult)
    ensures
        baked(recipe@, pantry@, result.cookies as nat, result.pantry@),
{
    let needs = recipe.entries();
    let cookies = match batch_limit(needs, pantry) {
        Some(limit) => {
            proof {
                assert forall|name: Seq<char>| #[trigger]
                    recipe@.dom().contains(name) implies limit * recipe@[name] <= on_hand(
                    pantry@,
                    name,
                ) by {
                    let k = choose|k: int|
                        0 <= k < needs@.len() && (#[trigger] needs@[k]).name@ == name;
                    lemma_entry_in_map(needs@, k);
                }
                let tight = choose|k: int|
                    0 <= k < needs@.len() && (#[trigger] needs@[k]).quantity > 0 && (limit + 1)
                        * needs@[k].quantity > on_hand(pantry@, needs@[k].name@);
                lemma_entry_in_map(needs@, tight);
                assert(recipe@.dom().contains(needs@[tight].name@));
                assert(recipe@[needs@[tight].name@] > 0);
            }
            limit
        },
        None => {
            proof {
                assert forall|name: Seq<char>| #[trigger]
                    recipe@.dom().contains(name) implies recipe@[name] == 0 by {
                    let k = choose|k: int|
                        0 <= k < needs@.len() && (#[trigger] needs@[k]).name@ == name;
                    lemma_entry_in_map(needs@, k);
                }
            }
            0
        },
    };
    proof {
        if !constrained(recipe@) {
            assert forall|name: Seq<char>| #[trigger]
                recipe@.dom().contains(name) implies cookies * recipe@[name] <= on_hand(
                pantry@,
                name,
            ) by {
                assert(0 * recipe@[name] == 0) by (nonlinear_arith);
            }
        }
    }
    let left = take_batches(recipe, pantry.entries(), cookies);
    BatchResult { cookies, pantry: Ingredients::from_distinct(left) }
}

/// A pantry that affords some number of batches affords every smaller number.
pub proof fn lemma_fewer_batches_affordable(
    recipe: Map<Seq<char>, nat>,
    pantry: Map<Seq<char>, nat>,
    fewer: nat,
    more: nat,
)
    requires
        fewer <= more,
        affordable(recipe, pantry, more),
    ensures
        affordable(recipe, pantry, fewer),
{
    assert forall|name: Seq<char>| #[trigger] recipe.dom().contains(name) implies fewer
        * recipe[name] <= on_hand(pantry, name) by {
        lemma_fewer_batches_need_less(fewer, more, recipe[name]);
    }
}

/// A recipe and a pantry have one batch count only.
pub proof fn lemma_batch_count_unique(
    recipe: Map<Seq<char>, nat>,
    pantry: Map<Seq<char>, nat>,
    one: nat,
    other: nat,
)
    requires
        is_batch_count(recipe, pantry, one),
        is_batch_count(recipe, pantry, other),
    ensures
        one == other,
{
    if constrained(recipe) {
        if one < other {
            lemma_fewer_batches_affordable(recipe, pantry, one + 1, other);
        }
        if other < one {
            lemma_fewer_batches_affordable(recipe, pantry, other + 1, one);
        }
    }
}

/// Baking is a function of the recipe and the pantry: whenever the same two
/// are baked, the same number of batches and the same pantry come back.
pub proof fn lemma_same_inputs_same_result(
    recipe: Map<Seq<char>, nat>,
    pantry: Map<Seq<char>, nat>,
    cookies: nat,
    left: Map<Seq<char>, nat>,
    cookies_again: nat,
    left_again: Map<Seq<char>, nat>,
)
    requires
        baked(recipe, pantry, cookies, left),
        baked(recipe, pantry, cookies_again, left_again),
    ensures
        cookies == cookies_again,
        left == left_again,
{
    lemma_batch_count_unique(recipe, pantry, cookies, cookies_again);
}

/// A recipe whose every quantity is zero bakes no batch and leaves the
/// pantry as it was.
pub proof fn lemma_nothing_needed_nothing_baked(
    recipe: Map<Seq<char>, nat>,
    pantry: Map<Seq<char>, nat>,
    cookies: nat,
    left: Map<Seq<char>, nat>,
)
    requires
        forall|name: Seq<char>| #[trigger] recipe.dom().contains(name) ==> recipe[name] == 0,
        baked(recipe, pantry, cookies, left),
    ensures
        cookies == 0,
        left == pantry,
{
    lemma_no_batch_leaves_pantry(recipe, pantry);
}

/// Where the pantry lacks an ingredient that the recipe needs in a positive
/// amount, no batch is baked and the pantry is left as it was.
pub proof fn lemma_missing_ingredient_nothing_baked(
    recipe: Map<Seq<char>, nat>,
    pantry: Map<Seq<char>, nat>,
    missing: Seq<char>,
    cookies: nat,
    left: Map<Seq<char>, nat>,
)
    requires
        recipe.dom().contains(missing),
        recipe[missing] > 0,
        !pantry.dom().contains(missing),
        baked(recipe, pantry, cookies, left),
    ensures
        cookies == 0,
        left == pantry,
{
    assert(constrained(recipe));
    assert(cookies * recipe[missing] <= 0);
    assert(cookies == 0) by (nonlinear_arith)
        requires
            cookies * recipe[missing] <= 0,
            recipe[missing] > 0,
    ;
    lemma_no_batch_leaves_pantry(recipe, pantry);
}

/// Taking no batch from a pantry leaves it as it was.
pub proof fn lemma_no_batch_leaves_pantry(recipe: Map<Seq<char>, nat>, pantry: Map<Seq<char>, nat>)
    ensures
        remaining(recipe, pantry, 0) == pantry,
{
    assert forall|name: Seq<char>| pantry.dom().contains(name) implies #[trigger] remaining(
        recipe,
        pantry,
        0,
    )[name] == pantry[name] by {
        assert(0 * recipe[name] == 0) by (nonlinear_arith);
    }
    assert(remaining(recipe, pantry, 0) =~= pantry);
}

/// Raising quantities in the pantry, or adding ingredients to it, never
/// lowers the number of batches of a recipe.
pub proof fn lemma_more_stock_no_fewer_batches(
    recipe: Map<Seq<char>, nat>,
    pantry: Map<Seq<char>, nat>,
    richer: Map<Seq<char>, nat>,
    cookies: nat,
    richer_cookies: nat,
)
    requires
        forall|name: Seq<char>| #[trigger] on_hand(pantry, name) <= on_hand(richer, name),
        is_batch_count(recipe, pantry, cookies),
        is_batch_count(recipe, richer, richer_cookies),
    ensures
        cookies <= richer_cookies,
{
    if constrained(recipe) && richer_cookies < cookies {
        lemma_fewer_batches_affordable(recipe, pantry, richer_cookies + 1, cookies);
        assert forall|name: Seq<char>| #[trigger] recipe.dom().contains(name) implies (
        richer_cookies + 1) * recipe[name] <= on_hand(richer, name) by {
            assert(on_hand(pantry, name) <= on_hand(richer, name));
        }
    }
}

/// Baking never takes more of an ingredient than the pantry holds: each
/// quantity left, with what the batches took, is the quantity that was there.
pub proof fn lemma_nothing_overdrawn(
    recipe: Map<Seq<char>, nat>,
    pantry: Map<Seq<char>, nat>,
    cookies: nat,
    left: Map<Seq<char>, nat>,
)
    requires
        baked(recipe, pantry, cookies, left),
    ensures
        left.dom() == pantry.dom(),
        forall|name: Seq<char>| #[trigger]
            pantry.dom().contains(name) ==> left[name] + cookies * needed(recipe, name)
                == pantry[name],
{
    assert(left.dom() =~= pantry.dom());
    if !constrained(recipe) {
        lemma_no_batch_leaves_pantry(recipe, pantry);
    }
    assert forall|name: Seq<char>| #[trigger] pantry.dom().contains(name) implies left[name]
        + cookies * needed(recipe, name) == pantry[name] by {
        if recipe.dom().contains(name) {
            if constrained(recipe) {
                assert(cookies * recipe[name] <= on_hand(pantry, name));
            } else {
                assert(0 * recipe[name] == 0) by (nonlinear_arith);
            }
        } else {
            assert(cookies * 0 == 0) by (nonlinear_arith);
        }
    }
}

/// The batch count is the least whole share: for every ingredient needed in
/// a positive amount it is at most the quantity on hand divided by the
/// quantity needed, rounded down, and for one of them it is exactly that.
pub proof fn lemma_batch_count_is_least_share(
    recipe: Map<Seq<char>, nat>,
    pantry: Map<Seq<char>, nat>,
    cookies: nat,
)
    requires
        constrained(recipe),
        is_batch_count(recipe, pantry, cookies),
    ensures
        forall|name: Seq<char>| #[trigger]
            recipe.dom().contains(name) && recipe[name] > 0 ==> cookies <= on_hand(pantry, name)
                / recipe[name],
        exists|name: Seq<char>| #[trigger]
            recipe.dom().contains(name) && recipe[name] > 0 && cookies == on_hand(pantry, name)
                / recipe[name],
{
    assert forall|name: Seq<char>| #[trigger]
        recipe.dom().contains(name) && recipe[name] > 0 implies cookies <= on_hand(pantry, name)
        / recipe[name] by {
        lemma_whole_share(cookies, on_hand(pantry, name), recipe[name]);
    }
    let tight = choose|name: Seq<char>| #[trigger]
        recipe.dom().contains(name) && !((cookies + 1) * recipe[name] <= on_hand(pantry, name));
    assert(recipe[tight] > 0) by (nonlinear_arith)
        requires
            (cookies + 1) * recipe[tight] > on_hand(pantry, tight),
    ;
    lemma_whole_share(cookies, on_hand(pantry, tight), recipe[tight]);
    lemma_share(on_hand(pantry, tight), recipe[tight]);
    assert(cookies >= on_hand(pantry, tight) / recipe[tight]) by (nonlinear_arith)
        requires
            (cookies + 1) * recipe[tight] > on_hand(pantry, tight),
            (on_hand(pantry, tight) / recipe[tight]) * recipe[tight] <= on_hand(pantry, tight),
            recipe[tight] > 0,
    ;
}

proof fn lemma_whole_share(batches: nat, available: nat, needed: nat)
    by (nonlinear_arith)
    requires
        needed > 0,
        batches * needed <= available,
    ensures
        batches <= available / needed,
{
}

} // verus!
