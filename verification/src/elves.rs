//! Counting elves and shelves in a text.

use vstd::prelude::*;
use crate::text::chars_of;

verus! {

/// How many times `word` is found in `text` by a search that runs from left
/// to right and, after each find, goes on behind it. An empty word is never
/// found.
pub open spec fn finds(text: Seq<char>, word: Seq<char>) -> nat
    decreases text.len(),
{
    if word.len() == 0 || text.len() < word.len() {
        0
    } else if text.take(word.len() as int) == word {
        1 + finds(text.skip(word.len() as int), word)
    } else {
        finds(text.drop_first(), word)
    }
}

/// The number of matches that the pattern `(?=(elf on a shelf))` has in
/// `text`: what the regular-expression engine reports for it.
pub uninterp spec fn shelf_sightings(text: Seq<char>) -> nat;

/// What was counted in a text.
#[derive(Clone, Copy, Debug, PartialEq, Eq, Structural)]
pub struct ElfCount {
    /// Finds of `elf`.
    pub elf: usize,
    /// Elves on shelves.
    pub elf_on_a_shelf: usize,
    /// Finds of `shelf`, less the elves on shelves; never below zero.
    pub shelf_with_no_elf: usize,
}

/// The counts for `text`, given the number of elves on shelves seen in it.
pub open spec fn tallied(text: Seq<char>, on_shelves: nat) -> (nat, nat, nat) {
    (
        finds(text, "elf"@),
        on_shelves,
        if finds(text, "shelf"@) >= on_shelves {
            (finds(text, "shelf"@) - on_shelves) as nat
        } else {
            0
        },
    )
}

/// Runs the pattern `(?=(elf on a shelf))` over `text` with
/// `fancy_regex::Regex::find_iter` and counts what the iterator yields. The
/// count depends on the text alone; nothing more is claimed of it.
#[verifier::external_body]
fn count_shelf_sightings(text: &str) -> (seen: usize)
    ensures
        seen == shelf_sightings(text@),
{
    fancy_regex::Regex::new("(?=(elf on a shelf))").unwrap().find_iter(text).count()
}

/// Whether `word` stands in `text` at `at`.
fn stands_at(text: &Vec<char>, word: &Vec<char>, at: usize) -> (found: bool)
    requires
        at + word@.len() <= text@.len(),
    ensures
        found == (text@.subrange(at as int, at + word@.len()) == word@),
{
    let n = text.len();
    let mut k: usize = 0;
    while k < word.len()
        invariant
            k <= word@.len(),
            at + word@.len() <= text@.len() == n,
            forall|j: int| 0 <= j < k ==> text@[at + j] == word@[j],
        decreases word@.len() - k,
    {
        if text[at + k] != word[k] {
            assert(text@.subrange(at as int, at + word@.len())[k as int] != word@[k as int]);
            return false;
        }
        k += 1;
    }
    assert(text@.subrange(at as int, at + word@.len()) =~= word@);
    true
}

/// How many times `word` is found in `text`.
pub fn count_finds(text: &str, word: &str) -> (found: usize)
    ensures
        found == finds(text@, word@),
{
    let text = chars_of(text);
    let word = chars_of(word);
    let n = text.len();
    let m = word.len();
    if m == 0 || n < m {
        return 0;
    }
    let mut found: usize = 0;
    let mut at: usize = 0;
    assert(text@.skip(0) =~= text@);
    while at <= n - m
        invariant
            0 < m <= n,
            n == text@.len(),
            m == word@.len(),
            at <= n,
            found <= at,
            found + finds(text@.skip(at as int), word@) == finds(text@, word@),
        decreases n - at,
    {
        let ghost rest = text@.skip(at as int);
        assert(rest.take(m as int) =~= text@.subrange(at as int, at + m));
        if stands_at(&text, &word, at) {
            assert(rest.skip(m as int) =~= text@.skip(at + m));
            found += 1;
            at += m;
        } else {
            assert(rest.drop_first() =~= text@.skip(at + 1));
            at += 1;
        }
    }
    found
}

/// Counts the elves and the shelves of `text`, given the number of elves on
/// shelves seen in it.
pub fn tally(text: &str, on_shelves: usize) -> (count: ElfCount)
    ensures
        (count.elf as nat, count.elf_on_a_shelf as nat, count.shelf_with_no_elf as nat) == tallied(
            text@,
            on_shelves as nat,
        ),
{
    let elf = count_finds(text, "elf");
    let shelf = count_finds(text, "shelf");
    ElfCount {
        elf,
        elf_on_a_shelf: on_shelves,
        shelf_with_no_elf: if shelf >= on_shelves {
            shelf - on_shelves
        } else {
            0
        },
    }
}

/// Counts the elves, the elves on shelves and the shelves without an elf
/// in `input_str`.
pub fn elf_counter(input_str: String) -> (count: ElfCount)
    ensures
        (count.elf as nat, count.elf_on_a_shelf as nat, count.shelf_with_no_elf as nat) == tallied(
            input_str@,
            shelf_sightings(input_str@),
        ),
{
    let seen = count_shelf_sightings(input_str.as_str());
    tally(input_str.as_str(), seen)
}

} // verus!
