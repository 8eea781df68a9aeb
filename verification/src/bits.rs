//! Numbers written in a path, folded with exclusive or and cubed.
//!
//! A path such as `/4/8` is cut at every `/` into fields. A field that writes
//! a whole number in decimal, with or without a sign, counts as that number;
//! any other field counts as zero.

use vstd::prelude::*;
use crate::text::chars_of;

verus! {

/// `c` is one of the digits `0` to `9`.
pub open spec fn is_digit(c: char) -> bool {
    48 <= c as u32 <= 57
}

/// The value of the digit `c`.
pub open spec fn digit(c: char) -> nat {
    (c as u32 - 48) as nat
}

/// The number that a run of digits writes in decimal.
pub open spec fn decimal(digits: Seq<char>) -> nat
    decreases digits.len(),
{
    if digits.len() == 0 {
        0
    } else {
        decimal(digits.drop_last()) * 10 + digit(digits.last())
    }
}

/// Every character of `digits` is a digit.
pub open spec fn all_digits(digits: Seq<char>) -> bool {
    forall|i: int| 0 <= i < digits.len() ==> is_digit(#[trigger] digits[i])
}

/// `field` opens with a sign, `+` or `-`.
pub open spec fn has_sign(field: Seq<char>) -> bool {
    field.len() > 0 && (field[0] == '-' || field[0] == '+')
}

/// The digits of a field: what follows its sign, or all of it.
pub open spec fn digits_of(field: Seq<char>) -> Seq<char> {
    if has_sign(field) {
        field.drop_first()
    } else {
        field
    }
}

/// The number that a field writes, whether or not it fits a machine word.
pub open spec fn written(field: Seq<char>) -> int {
    if field.len() > 0 && field[0] == '-' {
        -(decimal(digits_of(field)) as int)
    } else {
        decimal(digits_of(field)) as int
    }
}

/// What a field counts as: the number it writes, where it is an optional
/// sign followed by at least one digit and the number fits in 64 bits, and
/// zero otherwise.
pub open spec fn field_value(field: Seq<char>) -> i64 {
    if digits_of(field).len() > 0 && all_digits(digits_of(field)) && i64::MIN <= written(field)
        <= i64::MAX {
        written(field) as i64
    } else {
        0
    }
}

/// The fields of a text: the pieces between its `/` characters, in order.
/// A text without `/` is one field; two `/` in a row hold an empty field.
pub open spec fn fields(text: Seq<char>) -> Seq<Seq<char>>
    decreases text.len(),
{
    if text.len() == 0 {
        seq![Seq::empty()]
    } else {
        let before = fields(text.drop_last());
        if text.last() == '/' {
            before.push(Seq::empty())
        } else {
            before.update(before.len() - 1, before.last().push(text.last()))
        }
    }
}

/// The exclusive or of all `values`; of none, zero.
pub open spec fn xor_all(values: Seq<i64>) -> i64
    decreases values.len(),
{
    if values.len() == 0 {
        0
    } else {
        xor_all(values.drop_last()) ^ values.last()
    }
}

/// What the fields of `text` count as, in order.
pub open spec fn field_values(text: Seq<char>) -> Seq<i64> {
    fields(text).map_values(|field: Seq<char>| field_value(field))
}

/// The exclusive or of what the fields of `text` count as.
pub open spec fn folded(text: Seq<char>) -> i64 {
    xor_all(field_values(text))
}

/// The third power of `x`.
pub open spec fn cube(x: int) -> int {
    x * x * x
}

/// The fields put together again, with a `/` between each two.
pub open spec fn joined(fields: Seq<Seq<char>>) -> Seq<char>
    decreases fields.len(),
{
    if fields.len() == 0 {
        Seq::empty()
    } else if fields.len() == 1 {
        fields[0]
    } else {
        joined(fields.drop_last()).push('/') + fields.last()
    }
}

/// The fields of a text are what lies between its `/` characters: none of
/// them holds a `/`, and joined by `/` they give the text back.
pub proof fn lemma_fields_rejoin(text: Seq<char>)
    ensures
        joined(fields(text)) == text,
        forall|i: int, j: int|
            0 <= i < fields(text).len() && 0 <= j < fields(text)[i].len() ==> #[trigger] fields(
                text,
            )[i][j] != '/',
    decreases text.len(),
{
    if text.len() == 0 {
        assert(joined(fields(text)) =~= text);
    } else {
        let before = fields(text.drop_last());
        lemma_fields_nonempty(text.drop_last());
        lemma_fields_rejoin(text.drop_last());
        if text.last() == '/' {
            let now = before.push(Seq::empty());
            assert(now.drop_last() =~= before);
            assert(joined(now) =~= text);
        } else {
            let now = before.update(before.len() - 1, before.last().push(text.last()));
            if before.len() == 1 {
                assert(joined(now) =~= text);
            } else {
                assert(now.drop_last() =~= before.drop_last());
                let head = joined(before.drop_last()).push('/');
                assert(joined(before) == head + before.last());
                assert(joined(now) == head + before.last().push(text.last()));
                assert(head + before.last().push(text.last()) =~= (head + before.last()).push(
                    text.last(),
                ));
                assert(text =~= text.drop_last().push(text.last()));
            }
        }
    }
}

/// A text has at least one field.
pub proof fn lemma_fields_nonempty(text: Seq<char>)
    ensures
        fields(text).len() >= 1,
    decreases text.len(),
{
    if text.len() > 0 {
        lemma_fields_nonempty(text.drop_last());
    }
}

proof fn lemma_decimal_prefix(digits: Seq<char>, k: int)
    requires
        0 <= k <= digits.len(),
    ensures
        decimal(digits.take(k)) <= decimal(digits),
    decreases digits.len(),
{
    if k == digits.len() {
        assert(digits.take(k) =~= digits);
    } else {
        assert(digits.drop_last().take(k) =~= digits.take(k));
        lemma_decimal_prefix(digits.drop_last(), k);
    }
}

/// What the field `chars[start..end]` counts as.
fn parse_field(chars: &Vec<char>, start: usize, end: usize) -> (value: i64)
    requires
        start <= end <= chars@.len(),
    ensures
        value == field_value(chars@.subrange(start as int, end as int)),
{
    let ghost field = chars@.subrange(start as int, end as int);
    let signed = start < end && (chars[start] == '-' || chars[start] == '+');
    let negative = start < end && chars[start] == '-';
    let first: usize = if signed {
        start + 1
    } else {
        start
    };
    let ghost digits = chars@.subrange(first as int, end as int);
    assert(digits =~= digits_of(field));
    if first == end {
        return 0;
    }
    let mut magnitude: u64 = 0;
    let mut i: usize = first;
    while i < end
        invariant
            first <= i <= end <= chars@.len(),
            digits == chars@.subrange(first as int, end as int),
            digits == digits_of(chars@.subrange(start as int, end as int)),
            all_digits(digits.take(i - first)),
            magnitude == decimal(digits.take(i - first)),
            magnitude <= 0x8000_0000_0000_0000,
        decreases end - i,
    {
        let c = chars[i];
        assert(c == digits[i - first]);
        let code = c as u32;
        if code < 48 || code > 57 {
            assert(!is_digit(digits[i - first]));
            return 0;
        }
        let d: u64 = (code - 48) as u64;
        proof {
            assert(digits.take(i - first + 1).drop_last() =~= digits.take(i - first));
            lemma_decimal_prefix(digits, i - first + 1);
        }
        if magnitude > (0x8000_0000_0000_0000 - d) / 10 {
            return 0;
        }
        magnitude = magnitude * 10 + d;
        i += 1;
    }
    assert(digits.take(end - first) =~= digits);
    if negative {
        if magnitude == 0x8000_0000_0000_0000 {
            i64::MIN
        } else {
            -(magnitude as i64)
        }
    } else {
        if magnitude > 0x7fff_ffff_ffff_ffff {
            0
        } else {
            magnitude as i64
        }
    }
}

/// The exclusive or of what the fields of `text` count as.
pub fn fold_fields(text: &str) -> (xor: i64)
    ensures
        xor == folded(text@),
{
    let chars = chars_of(text);
    let n = chars.len();
    let mut xor: i64 = 0;
    let mut start: usize = 0;
    let mut i: usize = 0;
    proof {
        assert(chars@.take(0) =~= Seq::<char>::empty());
        assert(fields(chars@.take(0)).drop_last().map_values(|field: Seq<char>| field_value(field))
            =~= Seq::<i64>::empty());
        assert(chars@.subrange(0, 0) =~= Seq::<char>::empty());
    }
    while i < n
        invariant
            start <= i <= n,
            n == chars@.len(),
            fields(chars@.take(i as int)).len() >= 1,
            fields(chars@.take(i as int)).last() == chars@.subrange(start as int, i as int),
            xor == xor_all(
                fields(chars@.take(i as int)).drop_last().map_values(
                    |field: Seq<char>| field_value(field),
                ),
            ),
        decreases n - i,
    {
        let ghost before = fields(chars@.take(i as int));
        let ghost now = fields(chars@.take(i + 1));
        proof {
            assert(chars@.take(i + 1).drop_last() =~= chars@.take(i as int));
            lemma_fields_nonempty(chars@.take(i + 1));
        }
        if chars[i] == '/' {
            let value = parse_field(&chars, start, i);
            proof {
                assert(now == before.push(Seq::empty()));
                assert(now.drop_last() =~= before);
                let values = before.map_values(|field: Seq<char>| field_value(field));
                assert(values.drop_last() =~= before.drop_last().map_values(
                    |field: Seq<char>| field_value(field),
                ));
                assert(values.last() == field_value(before.last()));
                assert(chars@.subrange(i + 1, i + 1) =~= Seq::<char>::empty());
            }
            xor = xor ^ value;
            start = i + 1;
        } else {
            proof {
                assert(now == before.update(before.len() - 1, before.last().push(chars@[i as int])));
                assert(now.drop_last() =~= before.drop_last());
                assert(chars@.subrange(start as int, i + 1) =~= chars@.subrange(
                    start as int,
                    i as int,
                ).push(chars@[i as int]));
            }
        }
        i += 1;
    }
    let value = parse_field(&chars, start, n);
    proof {
        assert(chars@.take(n as int) =~= chars@);
        let all = fields(text@);
        let values = all.map_values(|field: Seq<char>| field_value(field));
        assert(values.drop_last() =~= all.drop_last().map_values(
            |field: Seq<char>| field_value(field),
        ));
        assert(values.last() == field_value(all.last()));
    }
    xor ^ value
}

/// The cube of `x` fits in 64 bits.
pub open spec fn cube_fits(x: int) -> bool {
    i64::MIN <= cube(x) <= i64::MAX
}

proof fn lemma_square_too_large(x: int)
    by (nonlinear_arith)
    requires
        x * x > i64::MAX,
    ensures
        !cube_fits(x),
{
    assert(x >= 2 || x <= -2);
    if x >= 2 {
        assert((x * x) * x >= (x * x) * 2);
    } else {
        assert((x * x) * x <= (x * x) * (-2));
    }
}

/// The cube of `x`, where it fits in 64 bits.
pub fn checked_cube(x: i64) -> (cubed: Option<i64>)
    ensures
        match cubed {
            Some(c) => cube_fits(x as int) && c == cube(x as int),
            None => !cube_fits(x as int),
        },
{
    match x.checked_mul(x) {
        Some(square) => square.checked_mul(x),
        None => {
            proof {
                assert(x * x >= 0) by (nonlinear_arith);
                lemma_square_too_large(x as int);
            }
            None
        },
    }
}

/// The cube of the exclusive or of the numbers written in `num1220`, where
/// that cube fits in 64 bits.
pub fn checked_cubebits(num1220: &str) -> (cubed: Option<i64>)
    ensures
        match cubed {
            Some(c) => cube_fits(folded(num1220@) as int) && c == cube(folded(num1220@) as int),
            None => !cube_fits(folded(num1220@) as int),
        },
{
    checked_cube(fold_fields(num1220))
}

/// The cube of the exclusive or of the numbers written in `num1220`.
pub fn cubebits(num1220: String) -> (cubed: i64)
    requires
        cube_fits(folded(num1220@) as int),
    ensures
        cubed == cube(folded(num1220@) as int),
{
    match checked_cubebits(num1220.as_str()) {
        Some(cubed) => cubed,
        None => unreached(),
    }
}

} // verus!
