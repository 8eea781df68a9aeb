//! Identifiers of 128 bits that are written as text, and whose upper 48 bits
//! hold the time of their making in milliseconds since the start of 1970.

use vstd::prelude::*;

verus! {

/// The identifier that `text` writes, as `ulid::Ulid::from_string` reads it;
/// none where it refuses the text.
pub uninterp spec fn ulid_number(text: Seq<char>) -> Option<u128>;

/// The month, from 1 to 12, that `chrono` gives the instant `ms`
/// milliseconds after the start of 1970 in universal time.
pub uninterp spec fn utc_month(ms: u64) -> u32;

/// The day of the month, from 1, that `chrono` gives the instant `ms`
/// milliseconds after the start of 1970 in universal time.
pub uninterp spec fn utc_day(ms: u64) -> u32;

/// The day of the week, in days since Monday, that `chrono` gives the
/// instant `ms` milliseconds after the start of 1970 in universal time.
pub uninterp spec fn utc_weekday(ms: u64) -> u32;

/// The time at which an identifier was made, in milliseconds since the
/// start of 1970: its upper 48 bits.
pub open spec fn made_at(ulid: u128) -> u64 {
    (ulid >> 80) as u64
}

/// The instant lies on a 24th of December in universal time.
pub open spec fn on_christmas_eve(ms: u64) -> bool {
    utc_month(ms) == 12 && utc_day(ms) == 24
}

/// What was counted among identifiers.
#[derive(Clone, Copy, Debug, PartialEq, Eq, Structural)]
pub struct UlidCount {
    /// Made on a 24th of December.
    pub christmas_eve: usize,
    /// Made on the day of the week that was asked for.
    pub weekday: usize,
    /// Made after the present instant.
    pub in_the_future: usize,
    /// With the lowest bit set.
    pub lsb_is_one: usize,
}

/// The counts for `ulids`, with `day` the day of the week asked for in days
/// since Monday, and `now_ms` the present instant.
pub open spec fn counted(day: u32, ulids: Seq<u128>, now_ms: u64) -> (nat, nat, nat, nat) {
    (
        ulids.filter(|ulid: u128| on_christmas_eve(made_at(ulid))).len(),
        ulids.filter(|ulid: u128| utc_weekday(made_at(ulid)) == day).len(),
        ulids.filter(|ulid: u128| made_at(ulid) > now_ms).len(),
        ulids.filter(|ulid: u128| ulid & 1 == 1).len(),
    )
}

/// The text writes an identifier.
pub open spec fn writes_ulid(text: String) -> bool {
    ulid_number(text@) is Some
}

/// Every text writes an identifier.
pub open spec fn all_ulids(texts: Seq<String>) -> bool {
    forall|i: int| 0 <= i < texts.len() ==> writes_ulid(#[trigger] texts[i])
}

/// The identifiers that the texts write, in the order of the texts.
pub open spec fn ulids_of(texts: Seq<String>) -> Seq<u128> {
    texts.map_values(|text: String| ulid_number(text@).unwrap())
}

/// The identifiers that the texts write, last text first; texts that write
/// none are passed over.
pub open spec fn uuids_of(texts: Seq<String>) -> Seq<u128> {
    texts.reverse().filter(|text: String| writes_ulid(text)).map_values(
        |text: String| ulid_number(text@).unwrap(),
    )
}

/// Reads `text` with `ulid::Ulid::from_string` and hands out the number of
/// the identifier, or nothing where the text was refused. What comes back
/// depends on the text alone; nothing more is claimed of it.
#[verifier::external_body]
fn parse(text: &str) -> (ulid: Option<u128>)
    ensures
        ulid == ulid_number(text@),
{
    ulid::Ulid::from_string(text).ok().map(|ulid| ulid.0)
}

/// The month that `chrono::Datelike::month` gives for the instant in
/// universal time. It depends on the instant alone; nothing more is claimed
/// of it. Instants that an identifier can hold are in the range of `chrono`.
#[verifier::external_body]
fn month(ms: u64) -> (month: u32)
    requires
        ms < 0x1_0000_0000_0000,
    ensures
        month == utc_month(ms),
{
    let instant = std::time::UNIX_EPOCH + std::time::Duration::from_millis(ms);
    chrono::Datelike::month(&chrono::DateTime::<chrono::Utc>::from(instant))
}

/// The day of the month that `chrono::Datelike::day` gives for the instant
/// in universal time. It depends on the instant alone; nothing more is
/// claimed of it.
#[verifier::external_body]
fn day_of_month(ms: u64) -> (day: u32)
    requires
        ms < 0x1_0000_0000_0000,
    ensures
        day == utc_day(ms),
{
    let instant = std::time::UNIX_EPOCH + std::time::Duration::from_millis(ms);
    chrono::Datelike::day(&chrono::DateTime::<chrono::Utc>::from(instant))
}

/// The day of the week that `chrono::Datelike::weekday` gives for the
/// instant in universal time, in days since Monday. It depends on the
/// instant alone; nothing more is claimed of it.
#[verifier::external_body]
fn weekday(ms: u64) -> (day: u32)
    requires
        ms < 0x1_0000_0000_0000,
    ensures
        day == utc_weekday(ms),
{
    let instant = std::time::UNIX_EPOCH + std::time::Duration::from_millis(ms);
    chrono::Datelike::weekday(&chrono::DateTime::<chrono::Utc>::from(instant)).num_days_from_monday()
}

/// The time at which `ulid` was made, in milliseconds since the start of
/// 1970.
pub fn timestamp_ms(ulid: u128) -> (ms: u64)
    ensures
        ms == made_at(ulid),
        ms < 0x1_0000_0000_0000,
{
    assert((ulid >> 80) < 0x1_0000_0000_0000) by (bit_vector);
    (ulid >> 80) as u64
}

/// The identifiers that the texts write, where every text writes one.
pub fn read_ulids(data: &Vec<String>) -> (ulids: Option<Vec<u128>>)
    ensures
        match ulids {
            Some(read) => all_ulids(data@) && read@ == ulids_of(data@),
            None => !all_ulids(data@),
        },
{
    let mut read: Vec<u128> = Vec::new();
    let mut i: usize = 0;
    while i < data.len()
        invariant
            i <= data@.len(),
            read@.len() == i,
            forall|k: int| 0 <= k < i ==> ulid_number((#[trigger] data@[k])@) == Some(read@[k]),
        decreases data@.len() - i,
    {
        match parse(data[i].as_str()) {
            Some(ulid) => {
                read.push(ulid);
            },
            None => {
                assert(!writes_ulid(data@[i as int]));
                return None;
            },
        }
        i += 1;
    }
    assert forall|k: int| 0 <= k < data@.len() implies writes_ulid(#[trigger] data@[k]) by {
        assert(ulid_number(data@[k]@) == Some(read@[k]));
    }
    assert(read@ =~= ulids_of(data@));
    Some(read)
}

/// Counts, among `ulids`, those made on a 24th of December, those made on
/// the day of the week `day` (in days since Monday), those made after
/// `now_ms`, and those with the lowest bit set. Days are days of universal
/// time.
pub fn decode_ulids(day: u32, ulids: &Vec<u128>, now_ms: u64) -> (count: UlidCount)
    ensures
        (
            count.christmas_eve as nat,
            count.weekday as nat,
            count.in_the_future as nat,
            count.lsb_is_one as nat,
        ) == counted(day, ulids@, now_ms),
{
    let mut count = UlidCount { christmas_eve: 0, weekday: 0, in_the_future: 0, lsb_is_one: 0 };
    let mut i: usize = 0;
    assert(ulids@.take(0) =~= Seq::<u128>::empty());
    while i < ulids.len()
        invariant
            i <= ulids@.len(),
            count.christmas_eve <= i,
            count.weekday <= i,
            count.in_the_future <= i,
            count.lsb_is_one <= i,
            (
                count.christmas_eve as nat,
                count.weekday as nat,
                count.in_the_future as nat,
                count.lsb_is_one as nat,
            ) == counted(day, ulids@.take(i as int), now_ms),
        decreases ulids@.len() - i,
    {
        let ulid = ulids[i];
        let made = timestamp_ms(ulid);
        proof {
            reveal(Seq::filter);
            assert(ulids@.take(i + 1).drop_last() =~= ulids@.take(i as int));
        }
        if month(made) == 12 && day_of_month(made) == 24 {
            count.christmas_eve += 1;
        }
        if weekday(made) == day {
            count.weekday += 1;
        }
        if made > now_ms {
            count.in_the_future += 1;
        }
        if ulid & 1 == 1 {
            count.lsb_is_one += 1;
        }
        i += 1;
    }
    assert(ulids@.take(ulids@.len() as int) =~= ulids@);
    count
}

/// The identifiers that `data` writes, as the 128-bit numbers of as many
/// UUIDs: last text first, without the texts that write none.
pub fn ulids_to_uuids(data: &Vec<String>) -> (uuids: Vec<u128>)
    ensures
        uuids@ == uuids_of(data@),
{
    let mut uuids: Vec<u128> = Vec::new();
    let n = data.len();
    let mut i: usize = n;
    assert(data@.subrange(n as int, n as int).reverse() =~= Seq::<String>::empty());
    while i > 0
        invariant
            i <= n == data@.len(),
            uuids@ == uuids_of(data@.subrange(i as int, n as int)),
        decreases i,
    {
        i -= 1;
        let ghost done = data@.subrange(i + 1, n as int).reverse();
        let ghost now = data@.subrange(i as int, n as int).reverse();
        let ghost kept = done.filter(|text: String| writes_ulid(text));
        proof {
            reveal(Seq::filter);
            assert(now =~= done.push(data@[i as int]));
            assert(now.drop_last() =~= done);
        }
        match parse(data[i].as_str()) {
            Some(ulid) => {
                uuids.push(ulid);
                assert(now.filter(|text: String| writes_ulid(text)) == kept.push(data@[i as int]));
                assert(uuids@ =~= uuids_of(data@.subrange(i as int, n as int)));
            },
            None => {
                assert(now.filter(|text: String| writes_ulid(text)) == kept);
            },
        }
    }
    assert(data@.subrange(0, n as int) =~= data@);
    uuids
}

} // verus!
