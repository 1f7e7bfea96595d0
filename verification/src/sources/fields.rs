//! The comma-separated attribute line of a comment: `time,mode,size,colour,...`.

use crate::danmaku::{DanmakuColor, DanmakuSize, DanmakuTime, DanmakuType};
use vstd::prelude::*;

verus! {

pub open spec fn is_digit(byte: u8) -> bool {
    48 <= byte <= 57
}

pub open spec fn all_digits(text: Seq<u8>) -> bool {
    forall|i: int| 0 <= i < text.len() ==> is_digit(#[trigger] text[i])
}

/// The number that decimal digits stand for.
pub open spec fn digits_value(text: Seq<u8>) -> nat
    decreases text.len(),
{
    if text.len() == 0 {
        0
    } else {
        digits_value(text.drop_last()) * 10 + (text.last() - 48) as nat
    }
}

/// The text without a sign in front.
pub open spec fn unsigned_part(text: Seq<u8>) -> Seq<u8> {
    if text.len() > 0 && (text[0] == 43 || text[0] == 45) {
        text.skip(1)
    } else {
        text
    }
}

/// An unsigned integer field: decimal digits, at least one, with `+` allowed
/// in front, and a value that fits 32 bits.
pub open spec fn unsigned_field(text: Seq<u8>) -> Option<u32> {
    let digits = if text.len() > 0 && text[0] == 43 {
        text.skip(1)
    } else {
        text
    };
    if digits.len() > 0 && all_digits(digits) && digits_value(digits) <= u32::MAX {
        Some(digits_value(digits) as u32)
    } else {
        None
    }
}

/// Where the decimal point of a number stands, or its length if it has none.
pub open spec fn point_at(text: Seq<u8>) -> int
    decreases text.len(),
{
    if text.len() == 0 || text[0] == 46 {
        0
    } else {
        1 + point_at(text.skip(1))
    }
}

/// Ten to the power of `n`.
pub open spec fn pow10(n: nat) -> nat
    decreases n,
{
    if n == 0 {
        1
    } else {
        10 * pow10((n - 1) as nat)
    }
}

/// The whole number that `digits` give once a decimal point is put behind the
/// first `point` of them: the digits behind the point are cut off, and where
/// the point lies past the last digit, zeros fill the gap.
pub open spec fn shifted(digits: Seq<u8>, point: int) -> nat {
    if point <= 0 {
        0
    } else if point <= digits.len() {
        digits_value(digits.take(point))
    } else {
        digits_value(digits) * pow10((point - digits.len()) as nat)
    }
}

/// A letter in lower case; any other byte as it is.
pub open spec fn lower(byte: u8) -> u8 {
    if 65 <= byte <= 90 {
        (byte + 32) as u8
    } else {
        byte
    }
}

/// Whether the text is `inf` or `infinity`, in letters of either case.
pub open spec fn spells_infinite(text: Seq<u8>) -> bool {
    ||| {
        &&& text.len() == 3
        &&& lower(text[0]) == 105
        &&& lower(text[1]) == 110
        &&& lower(text[2]) == 102
    }
    ||| {
        &&& text.len() == 8
        &&& lower(text[0]) == 105
        &&& lower(text[1]) == 110
        &&& lower(text[2]) == 102
        &&& lower(text[3]) == 105
        &&& lower(text[4]) == 110
        &&& lower(text[5]) == 105
        &&& lower(text[6]) == 116
        &&& lower(text[7]) == 121
    }
}

/// Whether the text is `nan`, in letters of either case.
pub open spec fn spells_nan(text: Seq<u8>) -> bool {
    &&& text.len() == 3
    &&& lower(text[0]) == 110
    &&& lower(text[1]) == 97
    &&& lower(text[2]) == 110
}

pub open spec fn is_exponent_mark(byte: u8) -> bool {
    byte == 101 || byte == 69
}

/// Where the exponent of a number begins: at its first `e` or `E`, or at its
/// end if it has none.
pub open spec fn exponent_at(text: Seq<u8>) -> int
    decreases text.len(),
{
    if text.len() == 0 || is_exponent_mark(text[0]) {
        0
    } else {
        1 + exponent_at(text.skip(1))
    }
}

/// The exponent that the end of a number gives: nothing, which stands for 0,
/// or the mark, an optional sign and decimal digits, at least one.
pub open spec fn exponent_field(text: Seq<u8>) -> Option<int> {
    if text.len() == 0 {
        Some(0)
    } else {
        let digits = unsigned_part(text.skip(1));
        if digits.len() > 0 && all_digits(digits) {
            if text[1] == 45 {
                Some(-(digits_value(digits) as int))
            } else {
                Some(digits_value(digits) as int)
            }
        } else {
            None
        }
    }
}

/// The digits of a number without its exponent, and how many of them stand
/// before the point: decimal digits, and optionally a point with more digits,
/// with a digit on at least one side of the point.
pub open spec fn mantissa_field(text: Seq<u8>) -> Option<(Seq<u8>, nat)> {
    let point = point_at(text);
    let whole = text.take(point);
    let fraction = if point < text.len() {
        text.skip(point + 1)
    } else {
        Seq::empty()
    };
    if whole.len() + fraction.len() > 0 && all_digits(whole) && all_digits(fraction) {
        Some((whole + fraction, whole.len()))
    } else {
        None
    }
}

/// A number of seconds without a sign, read as whole milliseconds: digits
/// with or without a point, and optionally an exponent, which moves the
/// point. The value is cut off behind the third decimal, and one past the last
/// timestamp counts as the last timestamp.
pub open spec fn number_field(text: Seq<u8>) -> Option<u32> {
    let mark = exponent_at(text);
    match (mantissa_field(text.take(mark)), exponent_field(text.skip(mark))) {
        (Some((digits, whole)), Some(exponent)) => {
            let millis = shifted(digits, whole + exponent + 3);
            if millis <= u32::MAX {
                Some(millis as u32)
            } else {
                Some(u32::MAX)
            }
        },
        _ => None,
    }
}

/// A field of seconds, read as whole milliseconds. It is an optional sign and
/// then either a word, `inf`, `infinity` or `nan` in letters of either case,
/// or a number. A negative number and `nan` count as 0, and `inf` counts as
/// the last timestamp.
pub open spec fn seconds_field(text: Seq<u8>) -> Option<u32> {
    let number = unsigned_part(text);
    let negative = text.len() > 0 && text[0] == 45;
    if spells_infinite(number) {
        if negative {
            Some(0)
        } else {
            Some(u32::MAX)
        }
    } else if spells_nan(number) {
        Some(0)
    } else {
        match number_field(number) {
            Some(millis) => if negative {
                Some(0)
            } else {
                Some(millis)
            },
            None => None,
        }
    }
}

pub open spec fn kind_of_mode(mode: int) -> DanmakuType {
    if 1 <= mode <= 3 {
        DanmakuType::Scroll
    } else if mode == 4 {
        DanmakuType::Bottom
    } else if mode == 5 {
        DanmakuType::Top
    } else {
        DanmakuType::Unknown
    }
}

pub open spec fn size_of_font(size: int) -> DanmakuSize {
    if size < 25 {
        DanmakuSize::Small
    } else if size == 25 {
        DanmakuSize::Regular
    } else {
        DanmakuSize::Large
    }
}

/// Where a comment is shown, from the number that the formats use for it.
pub fn kind_from_mode(mode: i64) -> (kind: DanmakuType)
    ensures
        kind == kind_of_mode(mode as int),
{
    if 1 <= mode && mode <= 3 {
        DanmakuType::Scroll
    } else if mode == 4 {
        DanmakuType::Bottom
    } else if mode == 5 {
        DanmakuType::Top
    } else {
        DanmakuType::Unknown
    }
}

/// The size class of a font size: 25 is regular.
pub fn size_from_font(size: i64) -> (class: DanmakuSize)
    ensures
        class == size_of_font(size as int),
{
    if size < 25 {
        DanmakuSize::Small
    } else if size == 25 {
        DanmakuSize::Regular
    } else {
        DanmakuSize::Large
    }
}

/// Where the first field of `text` ends: at its first comma, or at its end.
pub open spec fn field_end(text: Seq<u8>) -> int
    decreases text.len(),
{
    if text.len() == 0 || text[0] == 44 {
        0
    } else {
        1 + field_end(text.skip(1))
    }
}

/// Field `number` of a comma-separated line, if the line has that many fields.
/// The empty line has one field, which is empty.
pub open spec fn field(text: Seq<u8>, number: nat) -> Option<Seq<u8>>
    decreases number,
{
    let end = field_end(text);
    if number == 0 {
        Some(text.take(end))
    } else if end < text.len() {
        field(text.skip(end + 1), (number - 1) as nat)
    } else {
        None
    }
}

/// The first position at or after `from` that holds `mark`, or the length.
fn find_byte(text: &[u8], from: usize, mark: u8) -> (at: usize)
    requires
        from <= text@.len(),
    ensures
        from <= at <= text@.len(),
        forall|i: int| from <= i < at ==> text@[i] != mark,
        at < text@.len() ==> text@[at as int] == mark,
{
    let mut at: usize = from;
    while at < text.len() && text[at] != mark
        invariant
            from <= at <= text@.len(),
            forall|i: int| from <= i < at ==> text@[i] != mark,
        decreases text@.len() - at,
    {
        at += 1;
    }
    at
}

/// The first of the first positions that end a field is where the field ends.
proof fn lemma_field_end_is(text: Seq<u8>, at: int)
    requires
        0 <= at <= text.len(),
        forall|i: int| 0 <= i < at ==> text[i] != 44,
        at < text.len() ==> text[at] == 44,
    ensures
        field_end(text) == at,
    decreases text.len(),
{
    if at > 0 {
        assert(text[0] != 44);
        assert forall|i: int| 0 <= i < at - 1 implies text.skip(1)[i] != 44 by {
            assert(text.skip(1)[i] == text[i + 1]);
        }
        lemma_field_end_is(text.skip(1), at - 1);
    }
}

proof fn lemma_point_at_is(text: Seq<u8>, at: int)
    requires
        0 <= at <= text.len(),
        forall|i: int| 0 <= i < at ==> text[i] != 46,
        at < text.len() ==> text[at] == 46,
    ensures
        point_at(text) == at,
    decreases text.len(),
{
    if at > 0 {
        assert(text[0] != 46);
        assert forall|i: int| 0 <= i < at - 1 implies text.skip(1)[i] != 46 by {
            assert(text.skip(1)[i] == text[i + 1]);
        }
        lemma_point_at_is(text.skip(1), at - 1);
    }
}

/// The bounds of field `number`: where it begins and where it ends.
pub fn find_field(text: &[u8], number: usize) -> (bounds: Option<(usize, usize)>)
    ensures
        match bounds {
            Some((from, to)) => from <= to <= text@.len() && field(text@, number as nat) == Some(
                text@.subrange(from as int, to as int),
            ),
            None => field(text@, number as nat) is None,
        },
{
    let mut from: usize = 0;
    let mut left: usize = number;
    assert(text@.skip(0) =~= text@);
    loop
        invariant
            from <= text@.len(),
            left <= number,
            field(text@, number as nat) == field(text@.skip(from as int), left as nat),
        decreases left,
    {
        let to = find_byte(text, from, 44);
        proof {
            let rest = text@.skip(from as int);
            assert forall|i: int| 0 <= i < to - from implies rest[i] != 44 by {
                assert(rest[i] == text@[from + i]);
            }
            lemma_field_end_is(rest, to - from);
            assert(rest.take(to - from) =~= text@.subrange(from as int, to as int));
            if to < text@.len() {
                assert(rest.skip(to - from + 1) =~= text@.skip(to + 1));
            }
        }
        if left == 0 {
            return Some((from, to));
        }
        if to >= text.len() {
            return None;
        }
        from = to + 1;
        left -= 1;
    }
}

/// No exponent that matters is larger: past it, any number that is not 0 is
/// out of every range, whatever its digits.
pub const EXPONENT_LIMIT: u128 = 0xFFFF_FFFF_FFFF_FFFF_FFFF_FFFF;

/// Adding a digit at the end.
proof fn lemma_digits_step(text: Seq<u8>, n: int)
    requires
        0 <= n < text.len(),
    ensures
        digits_value(text.take(n + 1)) == digits_value(text.take(n)) * 10 + (text[n] - 48) as nat,
{
    assert(text.take(n + 1).drop_last() =~= text.take(n));
}

/// Reads decimal digits. The value is `None` when it is past `limit`.
fn read_digits(text: &[u8], from: usize, to: usize, limit: u128) -> (value: Option<Option<u128>>)
    requires
        from <= to <= text@.len(),
        limit <= EXPONENT_LIMIT,
    ensures
        match value {
            Some(Some(value)) => all_digits(text@.subrange(from as int, to as int)) && value
                == digits_value(text@.subrange(from as int, to as int)) && value <= limit,
            Some(None) => all_digits(text@.subrange(from as int, to as int)) && digits_value(
                text@.subrange(from as int, to as int),
            ) > limit,
            None => !all_digits(text@.subrange(from as int, to as int)),
        },
{
    let ghost digits = text@.subrange(from as int, to as int);
    let mut value: u128 = 0;
    let mut over: bool = false;
    let mut at: usize = from;
    assert(digits.take(0) =~= Seq::<u8>::empty());
    while at < to
        invariant
            from <= at <= to <= text@.len(),
            digits == text@.subrange(from as int, to as int),
            limit <= EXPONENT_LIMIT,
            all_digits(digits.take(at - from)),
            !over ==> value == digits_value(digits.take(at - from)) && value <= limit,
            over ==> digits_value(digits.take(at - from)) > limit,
        decreases to - at,
    {
        let byte: u8 = text[at];
        proof {
            assert(digits[at - from] == byte);
            lemma_digits_step(digits, at - from);
        }
        if byte < 48 || byte > 57 {
            assert(!is_digit(digits[at - from]));
            return None;
        }
        assert forall|i: int| 0 <= i < at - from + 1 implies is_digit(
            #[trigger] digits.take(at - from + 1)[i],
        ) by {
            if i < at - from {
                assert(digits.take(at - from)[i] == digits.take(at - from + 1)[i]);
            }
        }
        if !over {
            let next: u128 = value * 10 + (byte - 48) as u128;
            if next > limit {
                over = true;
            } else {
                value = next;
            }
        }
        at += 1;
    }
    assert(digits.take(to - from) =~= digits);
    if over {
        Some(None)
    } else {
        Some(Some(value))
    }
}

/// Reads an unsigned integer field.
pub fn parse_unsigned(text: &[u8], from: usize, to: usize) -> (value: Option<u32>)
    requires
        from <= to <= text@.len(),
    ensures
        value == unsigned_field(text@.subrange(from as int, to as int)),
{
    let ghost whole = text@.subrange(from as int, to as int);
    let start: usize = if from < to && text[from] == 43 {
        from + 1
    } else {
        from
    };
    proof {
        if from < to {
            assert(whole[0] == text@[from as int]);
        }
        if start > from {
            assert(whole.skip(1) =~= text@.subrange(start as int, to as int));
        }
    }
    if start == to {
        return None;
    }
    match read_digits(text, start, to, 0xFFFF_FFFF) {
        Some(Some(value)) => Some(value as u32),
        _ => None,
    }
}

proof fn lemma_exponent_at_is(text: Seq<u8>, at: int)
    requires
        0 <= at <= text.len(),
        forall|i: int| 0 <= i < at ==> !is_exponent_mark(text[i]),
        at < text.len() ==> is_exponent_mark(text[at]),
    ensures
        exponent_at(text) == at,
    decreases text.len(),
{
    if at > 0 {
        assert(!is_exponent_mark(text[0]));
        assert forall|i: int| 0 <= i < at - 1 implies !is_exponent_mark(text.skip(1)[i]) by {
            assert(text.skip(1)[i] == text[i + 1]);
        }
        lemma_exponent_at_is(text.skip(1), at - 1);
    }
}

/// Powers of ten grow.
proof fn lemma_pow10_grows(low: nat, high: nat)
    requires
        low <= high,
    ensures
        1 <= pow10(low) <= pow10(high),
    decreases high,
{
    if low < high {
        lemma_pow10_grows(low, (high - 1) as nat);
    } else if low > 0 {
        lemma_pow10_grows((low - 1) as nat, (low - 1) as nat);
    }
}

/// The first position from `from` to `to` that holds an exponent mark, or `to`.
fn find_exponent(text: &[u8], from: usize, to: usize) -> (at: usize)
    requires
        from <= to <= text@.len(),
    ensures
        from <= at <= to,
        forall|i: int| from <= i < at ==> !is_exponent_mark(text@[i]),
        at < to ==> is_exponent_mark(text@[at as int]),
{
    let mut at: usize = from;
    while at < to && text[at] != 101 && text[at] != 69
        invariant
            from <= at <= to <= text@.len(),
            forall|i: int| from <= i < at ==> !is_exponent_mark(text@[i]),
        decreases to - at,
    {
        at += 1;
    }
    at
}

fn lower_case(byte: u8) -> (low: u8)
    ensures
        low == lower(byte),
{
    if 65 <= byte && byte <= 90 {
        byte + 32
    } else {
        byte
    }
}

fn is_infinite_word(text: &[u8], from: usize, to: usize) -> (found: bool)
    requires
        from <= to <= text@.len(),
    ensures
        found == spells_infinite(text@.subrange(from as int, to as int)),
{
    if to - from != 3 && to - from != 8 {
        return false;
    }
    let short: bool = lower_case(text[from]) == 105 && lower_case(text[from + 1]) == 110
        && lower_case(text[from + 2]) == 102;
    if to - from == 3 {
        short
    } else {
        short && lower_case(text[from + 3]) == 105 && lower_case(text[from + 4]) == 110
            && lower_case(text[from + 5]) == 105 && lower_case(text[from + 6]) == 116
            && lower_case(text[from + 7]) == 121
    }
}

fn is_nan_word(text: &[u8], from: usize, to: usize) -> (found: bool)
    requires
        from <= to <= text@.len(),
    ensures
        found == spells_nan(text@.subrange(from as int, to as int)),
{
    to - from == 3 && lower_case(text[from]) == 110 && lower_case(text[from + 1]) == 97
        && lower_case(text[from + 2]) == 110
}

/// Reads the exponent of a number, which begins at `mark`: whether it is
/// negative, and how large it is, if that is within the limit.
fn read_exponent(text: &[u8], mark: usize, to: usize) -> (exponent: Option<(bool, Option<u128>)>)
    requires
        mark <= to <= text@.len(),
    ensures
        match exponent {
            None => exponent_field(text@.subrange(mark as int, to as int)) is None,
            Some((negative, Some(size))) => size <= EXPONENT_LIMIT && exponent_field(
                text@.subrange(mark as int, to as int),
            ) == Some(
                if negative {
                    -(size as int)
                } else {
                    size as int
                },
            ),
            Some((negative, None)) => exponent_field(text@.subrange(mark as int, to as int))
                matches Some(exponent) && if negative {
                exponent < -(EXPONENT_LIMIT as int)
            } else {
                exponent > EXPONENT_LIMIT
            },
        },
{
    let ghost tail = text@.subrange(mark as int, to as int);
    if mark == to {
        return Some((false, Some(0)));
    }
    let first: usize = mark + 1;
    let signed: bool = first < to && (text[first] == 43 || text[first] == 45);
    let negative: bool = first < to && text[first] == 45;
    let start: usize = if signed {
        first + 1
    } else {
        first
    };
    proof {
        assert(tail.skip(1) =~= text@.subrange(first as int, to as int));
        if first < to {
            assert(tail[1] == text@[first as int]);
            assert(tail.skip(1)[0] == text@[first as int]);
        }
        assert(unsigned_part(tail.skip(1)) =~= text@.subrange(start as int, to as int));
    }
    if start == to {
        return None;
    }
    match read_digits(text, start, to, EXPONENT_LIMIT) {
        None => None,
        Some(size) => Some((negative, size)),
    }
}

/// The outcome of reading an exponent, held against the exponent itself.
spec fn exponent_read(read: (bool, Option<u128>), exponent: int) -> bool {
    match read.1 {
        Some(size) => size <= EXPONENT_LIMIT && exponent == if read.0 {
            -(size as int)
        } else {
            size as int
        },
        None => if read.0 {
            exponent < -(EXPONENT_LIMIT as int)
        } else {
            exponent > EXPONENT_LIMIT
        },
    }
}

/// How many of `total` digits stand before a point at `place`, and how many
/// zeros follow them; ten zeros are as good as any number of them.
fn digits_to_take(whole_len: usize, total: usize, exponent: (bool, Option<u128>), Ghost(place): Ghost<
    int,
>) -> (found: (usize, u8))
    requires
        whole_len <= total,
        exists|shift: int| exponent_read(exponent, shift) && place == whole_len + shift + 3,
    ensures
        found.0 == if place <= 0 {
            0
        } else if place <= total {
            place
        } else {
            total as int
        },
        found.1 == if place <= total {
            0
        } else if place - total >= 10 {
            10
        } else {
            place - total
        },
{
    match exponent {
        (true, None) => (0, 0),
        (false, None) => (total, 10),
        (sign, Some(size)) => {
            let shift: i128 = if sign {
                -(size as i128)
            } else {
                size as i128
            };
            let place: i128 = whole_len as i128 + shift + 3;
            if place <= 0 {
                (0, 0)
            } else if place <= total as i128 {
                (place as usize, 0)
            } else if place - total as i128 >= 10 {
                (total, 10)
            } else {
                (total, (place - total as i128) as u8)
            }
        },
    }
}

/// Ten zeros behind a number take it past the last timestamp, unless it is 0:
/// more of them change nothing.
proof fn lemma_shifted(all: Seq<u8>, place: int, take: int, zeros: nat)
    requires
        take == if place <= 0 {
            0
        } else if place <= all.len() {
            place
        } else {
            all.len() as int
        },
        zeros == if place <= all.len() {
            0
        } else if place - all.len() >= 10 {
            10
        } else {
            place - all.len()
        },
    ensures
        ({
            let cut = digits_value(all.take(take)) * pow10(zeros);
            if cut <= u32::MAX {
                shifted(all, place) == cut
            } else {
                shifted(all, place) > u32::MAX
            }
        }),
{
    let base = digits_value(all.take(take));
    assert(all.take(0) =~= Seq::<u8>::empty());
    assert(all.take(all.len() as int) =~= all);
    assert(pow10(0) == 1);
    assert(base * 1 == base) by (nonlinear_arith);
    if place > all.len() {
        let gap = (place - all.len()) as nat;
        if gap > 10 {
            lemma_pow10_grows(10, gap);
            reveal_with_fuel(pow10, 11);
            assert(pow10(10) == 10_000_000_000);
            assert(base * pow10(gap) >= base * pow10(10)) by (nonlinear_arith)
                requires
                    pow10(gap) >= pow10(10),
                    base >= 0,
            ;
            if base * pow10(10) <= u32::MAX {
                assert(base == 0) by (nonlinear_arith)
                    requires
                        base * 10_000_000_000 <= 0xFFFF_FFFF,
                        base >= 0,
                ;
                assert(base * pow10(gap) == 0) by (nonlinear_arith)
                    requires
                        base == 0,
                ;
            }
        }
    }
}

/// The number that the first `take` digits of a whole part and a fraction
/// give, with `zeros` zeros behind them; `None` when it is past 32 bits.
fn read_shifted(
    text: &[u8],
    start: usize,
    point: usize,
    after: usize,
    mark: usize,
    take: usize,
    zeros: u8,
) -> (value: Option<u32>)
    requires
        start <= point <= after <= mark <= text@.len(),
        take <= (point - start) + (mark - after),
        zeros <= 10,
        all_digits(text@.subrange(start as int, point as int)),
        all_digits(text@.subrange(after as int, mark as int)),
    ensures
        ({
            let all = text@.subrange(start as int, point as int) + text@.subrange(
                after as int,
                mark as int,
            );
            let cut = digits_value(all.take(take as int)) * pow10(zeros as nat);
            match value {
                Some(value) => value == cut,
                None => cut > u32::MAX,
            }
        }),
{
    let ghost whole = text@.subrange(start as int, point as int);
    let ghost fraction = text@.subrange(after as int, mark as int);
    let ghost all = whole + fraction;
    let whole_len: usize = point - start;
    let mut value: u64 = 0;
    let mut over: bool = false;
    let mut k: usize = 0;
    assert(all.take(0) =~= Seq::<u8>::empty());
    assert forall|i: int| 0 <= i < all.len() implies is_digit(#[trigger] all[i]) by {
        if i < whole.len() {
            assert(all[i] == whole[i]);
        } else {
            assert(all[i] == fraction[i - whole.len()]);
        }
    }
    while k < take
        invariant
            k <= take <= (point - start) + (mark - after),
            start <= point <= after <= mark <= text@.len(),
            whole_len == point - start,
            whole == text@.subrange(start as int, point as int),
            fraction == text@.subrange(after as int, mark as int),
            all == whole + fraction,
            all_digits(all),
            !over ==> value == digits_value(all.take(k as int)) && value <= 0xFFFF_FFFF,
            over ==> digits_value(all.take(k as int)) > 0xFFFF_FFFF,
        decreases take - k,
    {
        let at: usize = if k < whole_len {
            start + k
        } else {
            after + (k - whole_len)
        };
        let byte: u8 = text[at];
        proof {
            if k < whole_len {
                assert(all[k as int] == whole[k as int]);
            } else {
                assert(all[k as int] == fraction[k - whole_len]);
            }
            assert(all[k as int] == byte);
            assert(is_digit(all[k as int]));
            lemma_digits_step(all, k as int);
        }
        if !over {
            let next: u64 = value * 10 + (byte - 48) as u64;
            if next > 0xFFFF_FFFF {
                over = true;
            } else {
                value = next;
            }
        }
        k += 1;
    }
    let ghost base = digits_value(all.take(take as int));
    let mut j: u8 = 0;
    assert(pow10(0) == 1);
    assert(base * 1 == base) by (nonlinear_arith);
    while j < zeros
        invariant
            j <= zeros <= 10,
            !over ==> value == base * pow10(j as nat) && value <= 0xFFFF_FFFF,
            over ==> base * pow10(j as nat) > 0xFFFF_FFFF,
        decreases zeros - j,
    {
        proof {
            let now = pow10(j as nat);
            assert(pow10((j + 1) as nat) == 10 * now);
            assert(base * (10 * now) == base * now * 10) by (nonlinear_arith);
        }
        if !over {
            let next: u64 = value * 10;
            if next > 0xFFFF_FFFF {
                over = true;
            } else {
                value = next;
            }
        }
        j += 1;
    }
    if over {
        None
    } else {
        Some(value as u32)
    }
}

/// Finds the point of a number without exponent that fills `start..mark`:
/// where the point stands and where the digits behind it begin.
fn find_mantissa(text: &[u8], start: usize, mark: usize) -> (found: Option<(usize, usize)>)
    requires
        start <= mark <= text@.len(),
    ensures
        match found {
            Some((point, after)) => {
                &&& start <= point <= after <= mark
                &&& all_digits(text@.subrange(start as int, point as int))
                &&& all_digits(text@.subrange(after as int, mark as int))
                &&& mantissa_field(text@.subrange(start as int, mark as int)) == Some(
                    (
                        text@.subrange(start as int, point as int) + text@.subrange(
                            after as int,
                            mark as int,
                        ),
                        (point - start) as nat,
                    ),
                )
            },
            None => mantissa_field(text@.subrange(start as int, mark as int)) is None,
        },
{
    let ghost mantissa = text@.subrange(start as int, mark as int);
    let point: usize = find_byte(text, start, 46);
    let point: usize = if point > mark {
        mark
    } else {
        point
    };
    proof {
        assert forall|i: int| 0 <= i < point - start implies mantissa[i] != 46 by {
            assert(mantissa[i] == text@[start + i]);
        }
        if point < mark {
            assert(mantissa[point - start] == text@[point as int]);
        }
        lemma_point_at_is(mantissa, point - start);
        assert(mantissa.take(point - start) =~= text@.subrange(start as int, point as int));
    }
    let after: usize = if point < mark {
        point + 1
    } else {
        mark
    };
    proof {
        if point < mark {
            assert(mantissa.skip(point - start + 1) =~= text@.subrange(after as int, mark as int));
        } else {
            assert(text@.subrange(after as int, mark as int) =~= Seq::<u8>::empty());
        }
    }
    if (point - start) + (mark - after) == 0 {
        return None;
    }
    match read_digits(text, start, point, 0) {
        None => {
            return None;
        },
        _ => {},
    }
    match read_digits(text, after, mark, 0) {
        None => {
            return None;
        },
        _ => {},
    }
    Some((point, after))
}

/// Reads a number of seconds without a sign as whole milliseconds.
fn parse_number(text: &[u8], start: usize, to: usize) -> (millis: Option<u32>)
    requires
        start <= to <= text@.len(),
    ensures
        millis == number_field(text@.subrange(start as int, to as int)),
{
    let ghost number = text@.subrange(start as int, to as int);
    let mark: usize = find_exponent(text, start, to);
    proof {
        assert forall|i: int| 0 <= i < mark - start implies !is_exponent_mark(number[i]) by {
            assert(number[i] == text@[start + i]);
        }
        if mark < to {
            assert(number[mark - start] == text@[mark as int]);
        }
        lemma_exponent_at_is(number, mark - start);
        assert(number.take(mark - start) =~= text@.subrange(start as int, mark as int));
        assert(number.skip(mark - start) =~= text@.subrange(mark as int, to as int));
    }
    let (point, after) = match find_mantissa(text, start, mark) {
        Some(found) => found,
        None => {
            return None;
        },
    };
    let exponent = match read_exponent(text, mark, to) {
        Some(exponent) => exponent,
        None => {
            return None;
        },
    };
    let whole_len: usize = point - start;
    let total: usize = whole_len + (mark - after);
    let ghost shift: int = exponent_field(text@.subrange(mark as int, to as int))->0;
    let ghost place: int = whole_len + shift + 3;
    assert(exponent_read(exponent, shift));
    let (take, zeros) = digits_to_take(whole_len, total, exponent, Ghost(place));
    proof {
        lemma_shifted(
            text@.subrange(start as int, point as int) + text@.subrange(after as int, mark as int),
            place,
            take as int,
            zeros as nat,
        );
    }
    match read_shifted(text, start, point, after, mark, take, zeros) {
        Some(millis) => Some(millis),
        None => Some(0xFFFF_FFFF),
    }
}

/// Reads a field of seconds as whole milliseconds.
pub fn parse_seconds(text: &[u8], from: usize, to: usize) -> (millis: Option<u32>)
    requires
        from <= to <= text@.len(),
    ensures
        millis == seconds_field(text@.subrange(from as int, to as int)),
{
    let ghost whole_text = text@.subrange(from as int, to as int);
    let signed: bool = from < to && (text[from] == 43 || text[from] == 45);
    let negative: bool = from < to && text[from] == 45;
    let start: usize = if signed {
        from + 1
    } else {
        from
    };
    proof {
        if from < to {
            assert(whole_text[0] == text@[from as int]);
        }
        assert(unsigned_part(whole_text) =~= text@.subrange(start as int, to as int));
    }
    if is_infinite_word(text, start, to) {
        return Some(if negative { 0 } else { 0xFFFF_FFFF });
    }
    if is_nan_word(text, start, to) {
        return Some(0);
    }
    match parse_number(text, start, to) {
        Some(millis) => Some(if negative { 0 } else { millis }),
        None => None,
    }
}

/// What the first four fields of an attribute line say of a comment.
#[derive(PartialEq, Eq, Structural, Clone, Copy, Debug)]
pub struct DanmakuAttributes {
    pub time: DanmakuTime,
    pub kind: DanmakuType,
    pub size: DanmakuSize,
    pub color: DanmakuColor,
}

/// Why an attribute line could not be read.
#[derive(PartialEq, Eq, Structural, Clone, Copy, Debug)]
pub enum FieldError {
    /// The line has fewer than four fields.
    BadAttribute,
    /// The mode, the size or the colour is no unsigned integer.
    InvalidInteger,
    /// The time is no number of seconds.
    InvalidFloat,
}

/// The outcome of reading an attribute line. The fields are read in order, and
/// the first that cannot be read decides the error; only when all that are
/// there can be read is the line found too short.
pub open spec fn attributes_of(line: Seq<u8>) -> Result<DanmakuAttributes, FieldError> {
    match field(line, 0) {
        None => Err(FieldError::BadAttribute),
        Some(time) => match seconds_field(time) {
            None => Err(FieldError::InvalidFloat),
            Some(time) => match field(line, 1) {
                None => Err(FieldError::BadAttribute),
                Some(mode) => match unsigned_field(mode) {
                    None => Err(FieldError::InvalidInteger),
                    Some(mode) => match field(line, 2) {
                        None => Err(FieldError::BadAttribute),
                        Some(size) => match unsigned_field(size) {
                            None => Err(FieldError::InvalidInteger),
                            Some(size) => match field(line, 3) {
                                None => Err(FieldError::BadAttribute),
                                Some(color) => match unsigned_field(color) {
                                    None => Err(FieldError::InvalidInteger),
                                    Some(color) => Ok(
                                        DanmakuAttributes {
                                            time: DanmakuTime(time),
                                            kind: kind_of_mode(mode as int),
                                            size: size_of_font(size as int),
                                            color: color_of(color),
                                        },
                                    ),
                                },
                            },
                        },
                    },
                },
            },
        },
    }
}

/// The colour that a code stands for: its low 24 bits.
pub open spec fn color_of(code: u32) -> DanmakuColor {
    DanmakuColor::of_code((code % 0x100_0000) as nat)
}

/// Reads the attribute line of a comment.
pub fn parse_attributes(line: &[u8]) -> (read: Result<DanmakuAttributes, FieldError>)
    ensures
        read == attributes_of(line@),
{
    let time = match find_field(line, 0) {
        Some((from, to)) => match parse_seconds(line, from, to) {
            Some(millis) => DanmakuTime::from_millis(millis),
            None => {
                return Err(FieldError::InvalidFloat);
            },
        },
        None => {
            return Err(FieldError::BadAttribute);
        },
    };
    let kind = match find_field(line, 1) {
        Some((from, to)) => match parse_unsigned(line, from, to) {
            Some(mode) => kind_from_mode(mode as i64),
            None => {
                return Err(FieldError::InvalidInteger);
            },
        },
        None => {
            return Err(FieldError::BadAttribute);
        },
    };
    let size = match find_field(line, 2) {
        Some((from, to)) => match parse_unsigned(line, from, to) {
            Some(size) => size_from_font(size as i64),
            None => {
                return Err(FieldError::InvalidInteger);
            },
        },
        None => {
            return Err(FieldError::BadAttribute);
        },
    };
    let color = match find_field(line, 3) {
        Some((from, to)) => match parse_unsigned(line, from, to) {
            Some(code) => DanmakuColor::from_code_cast(code),
            None => {
                return Err(FieldError::InvalidInteger);
            },
        },
        None => {
            return Err(FieldError::BadAttribute);
        },
    };
    Ok(DanmakuAttributes { time, kind, size, color })
}

/// A number written in decimal digits, as bytes.
pub open spec fn digits_of(number: nat) -> Seq<u8>
    decreases number,
{
    if number < 10 {
        seq![(48 + number) as u8]
    } else {
        digits_of(number / 10).push((48 + number % 10) as u8)
    }
}

/// Milliseconds written as seconds with three decimals.
pub open spec fn seconds_text(millis: u32) -> Seq<u8> {
    let part = millis % 1000;
    digits_of((millis / 1000) as nat) + seq![46u8] + seq![
        (48 + part / 100) as u8,
        (48 + (part / 10) % 10) as u8,
        (48 + part % 10) as u8,
    ]
}

/// The attribute line that stands for a comment: its time in seconds, and
/// the numbers of its mode, its font size and its colour.
pub open spec fn line_of(millis: u32, mode: u32, font: u32, code: u32) -> Seq<u8> {
    seconds_text(millis) + seq![44u8] + (digits_of(mode as nat) + seq![44u8] + (digits_of(
        font as nat,
    ) + seq![44u8] + digits_of(code as nat)))
}

/// The digits of a number are digits, and they stand for the number.
pub proof fn lemma_digits_of(number: nat)
    ensures
        digits_of(number).len() > 0,
        all_digits(digits_of(number)),
        digits_value(digits_of(number)) == number,
    decreases number,
{
    reveal_with_fuel(digits_value, 2);
    if number < 10 {
        assert(digits_of(number).drop_last() =~= Seq::<u8>::empty());
    } else {
        lemma_digits_of(number / 10);
        let text = digits_of(number);
        assert(text.drop_last() =~= digits_of(number / 10));
        assert forall|i: int| 0 <= i < text.len() implies is_digit(#[trigger] text[i]) by {
            if i < text.len() - 1 {
                assert(text[i] == digits_of(number / 10)[i]);
            }
        }
    }
}

/// A number that is written out is read back.
pub proof fn lemma_unsigned_round_trip(number: u32)
    ensures
        unsigned_field(digits_of(number as nat)) == Some(number),
{
    lemma_digits_of(number as nat);
    assert(is_digit(digits_of(number as nat)[0]));
}

/// The parts of a time in seconds: the digits before the point, and the
/// three behind it.
proof fn lemma_seconds_text(millis: u32)
    ensures
        mantissa_field(seconds_text(millis)) == Some(
            (
                digits_of((millis / 1000) as nat) + seconds_text(millis).skip(
                    (digits_of((millis / 1000) as nat).len() + 1) as int,
                ),
                digits_of((millis / 1000) as nat).len(),
            ),
        ),
        seconds_text(millis).len() == digits_of((millis / 1000) as nat).len() + 4,
        forall|i: int|
            0 <= i < seconds_text(millis).len() ==> is_digit(#[trigger] seconds_text(millis)[i])
                || seconds_text(millis)[i] == 46,
        is_digit(seconds_text(millis)[0]),
{
    let whole = digits_of((millis / 1000) as nat);
    let text = seconds_text(millis);
    lemma_digits_of((millis / 1000) as nat);
    assert forall|i: int| 0 <= i < text.len() implies is_digit(#[trigger] text[i]) || text[i]
        == 46 by {
        if i < whole.len() {
            assert(text[i] == whole[i]);
            assert(is_digit(whole[i]));
        }
    }
    assert(text[0] == whole[0]);
    assert(is_digit(whole[0]));
    assert forall|i: int| 0 <= i < whole.len() implies text[i] != 46 by {
        assert(text[i] == whole[i]);
        assert(is_digit(whole[i]));
    }
    assert(text[whole.len() as int] == 46);
    lemma_point_at_is(text, whole.len() as int);
    assert(text.take(whole.len() as int) =~= whole);
    let fraction = text.skip((whole.len() + 1) as int);
    assert forall|i: int| 0 <= i < fraction.len() implies is_digit(#[trigger] fraction[i]) by {
        assert(fraction[i] == text[whole.len() + 1 + i]);
    }
}

/// A time that is written out in seconds is read back to the millisecond.
pub proof fn lemma_seconds_round_trip(millis: u32)
    ensures
        seconds_field(seconds_text(millis)) == Some(millis),
{
    let whole = digits_of((millis / 1000) as nat);
    let text = seconds_text(millis);
    lemma_digits_of((millis / 1000) as nat);
    lemma_seconds_text(millis);
    let fraction = text.skip((whole.len() + 1) as int);
    let all = whole + fraction;
    assert(unsigned_part(text) == text);
    assert(lower(text[0]) == text[0]);
    assert(!spells_infinite(text));
    assert(!spells_nan(text));
    assert forall|i: int| 0 <= i < text.len() implies !is_exponent_mark(text[i]) by {
        assert(is_digit(text[i]) || text[i] == 46);
    }
    lemma_exponent_at_is(text, text.len() as int);
    assert(text.take(text.len() as int) =~= text);
    assert(text.skip(text.len() as int) =~= Seq::<u8>::empty());
    assert(exponent_field(text.skip(text.len() as int)) == Some(0int));
    // The value of the digits, the last three taken off one by one.
    let part = millis % 1000;
    assert(all.len() == whole.len() + 3);
    assert(all.take(all.len() as int) =~= all);
    let two = all.drop_last();
    let one = two.drop_last();
    assert(one.drop_last() =~= whole);
    assert(all.last() == (48 + part % 10) as u8);
    assert(two.last() == (48 + (part / 10) % 10) as u8);
    assert(one.last() == (48 + part / 100) as u8);
    assert(digits_value(one) == digits_value(whole) * 10 + part / 100);
    assert(digits_value(two) == digits_value(one) * 10 + (part / 10) % 10);
    assert(digits_value(all) == digits_value(two) * 10 + part % 10);
    assert(digits_value(all) == millis);
    assert(shifted(all, (whole.len() + 0 + 3) as int) == millis);
}

/// A line whose first field holds no comma: the field is the first, and the
/// fields behind it are the fields of the rest.
proof fn lemma_first_field(first: Seq<u8>, rest: Seq<u8>, number: nat)
    requires
        forall|i: int| 0 <= i < first.len() ==> first[i] != 44,
    ensures
        field(first + seq![44u8] + rest, 0) == Some(first),
        field(first + seq![44u8] + rest, number + 1) == field(rest, number),
{
    let line = first + seq![44u8] + rest;
    assert forall|i: int| 0 <= i < first.len() implies line[i] != 44 by {
        assert(line[i] == first[i]);
    }
    assert(line[first.len() as int] == 44);
    lemma_field_end_is(line, first.len() as int);
    assert(line.take(first.len() as int) =~= first);
    assert(line.skip((first.len() + 1) as int) =~= rest);
}

/// A line that holds no comma is one field.
proof fn lemma_only_field(line: Seq<u8>)
    requires
        forall|i: int| 0 <= i < line.len() ==> line[i] != 44,
    ensures
        field(line, 0) == Some(line),
{
    lemma_field_end_is(line, line.len() as int);
    assert(line.take(line.len() as int) =~= line);
}

/// Digits hold no comma.
proof fn lemma_digits_hold_no_comma(number: nat)
    ensures
        forall|i: int| 0 <= i < digits_of(number).len() ==> digits_of(number)[i] != 44,
{
    lemma_digits_of(number);
    assert forall|i: int| 0 <= i < digits_of(number).len() implies digits_of(number)[i] != 44 by {
        assert(is_digit(digits_of(number)[i]));
    }
}

/// The attribute line of a comment is read back: the time to the millisecond,
/// the kind and the size that the numbers stand for, and the low 24 bits of
/// the colour.
pub proof fn lemma_line_round_trip(millis: u32, mode: u32, font: u32, code: u32)
    ensures
        attributes_of(line_of(millis, mode, font, code)) == Ok::<DanmakuAttributes, FieldError>(
            DanmakuAttributes {
                time: DanmakuTime(millis),
                kind: kind_of_mode(mode as int),
                size: size_of_font(font as int),
                color: color_of(code),
            },
        ),
{
    let time = seconds_text(millis);
    let third = digits_of(font as nat) + seq![44u8] + digits_of(code as nat);
    let second = digits_of(mode as nat) + seq![44u8] + third;
    lemma_seconds_text(millis);
    lemma_seconds_round_trip(millis);
    lemma_unsigned_round_trip(mode);
    lemma_unsigned_round_trip(font);
    lemma_unsigned_round_trip(code);
    lemma_digits_hold_no_comma(mode as nat);
    lemma_digits_hold_no_comma(font as nat);
    lemma_digits_hold_no_comma(code as nat);
    assert forall|i: int| 0 <= i < time.len() implies time[i] != 44 by {
        assert(is_digit(time[i]) || time[i] == 46);
    }
    lemma_first_field(time, second, 0);
    lemma_first_field(time, second, 1);
    lemma_first_field(time, second, 2);
    lemma_first_field(digits_of(mode as nat), third, 0);
    lemma_first_field(digits_of(mode as nat), third, 1);
    lemma_first_field(digits_of(font as nat), digits_of(code as nat), 0);
    lemma_only_field(digits_of(code as nat));
}

} // verus!
