//! Decoders for the primitive encodings of the source, colours and pivots,
//! and what is needed to copy and collect strings.

use vstd::prelude::*;
use crate::canvas::Rgba;

verus! {

/// Why a colour string could not be read.
#[derive(Clone, Copy, Debug, PartialEq, Eq, Structural)]
pub enum ColorParseError {
    /// The string is not seven characters long.
    BadLength,
    /// The string does not begin with `#`.
    MissingHash,
    /// The character at this position is not a hexadecimal digit.
    BadDigit(usize),
}

/// The value of a hexadecimal digit, if `c` is one.
pub open spec fn hex_value(c: char) -> Option<int> {
    if '0' <= c <= '9' {
        Some(c as int - '0' as int)
    } else if 'a' <= c <= 'f' {
        Some(c as int - 'a' as int + 10)
    } else if 'A' <= c <= 'F' {
        Some(c as int - 'A' as int + 10)
    } else {
        None
    }
}

/// The first position from 1 to 6 of `s` that holds no hexadecimal digit,
/// or 7 if there is none.
pub open spec fn first_bad_digit(s: Seq<char>, from: int) -> int
    decreases 7 - from,
{
    if from >= 7 {
        7
    } else if hex_value(s[from]) is None {
        from
    } else {
        first_bad_digit(s, from + 1)
    }
}

/// The byte that the two digits at `at` and `at + 1` spell.
pub open spec fn hex_byte(s: Seq<char>, at: int) -> int {
    16 * hex_value(s[at]).unwrap() + hex_value(s[at + 1]).unwrap()
}

/// What a colour string means: `#` and six hexadecimal digits, two each for
/// red, green and blue. The colour is opaque.
pub open spec fn color_of(s: Seq<char>) -> Result<Rgba, ColorParseError> {
    if s.len() != 7 {
        Err(ColorParseError::BadLength)
    } else if s[0] != '#' {
        Err(ColorParseError::MissingHash)
    } else if first_bad_digit(s, 1) < 7 {
        Err(ColorParseError::BadDigit(first_bad_digit(s, 1) as usize))
    } else {
        Ok(
            Rgba {
                r: hex_byte(s, 1) as u8,
                g: hex_byte(s, 3) as u8,
                b: hex_byte(s, 5) as u8,
                a: 255,
            },
        )
    }
}

/// The value of the hexadecimal digit `c`.
pub fn hex_digit(c: char) -> (v: Option<u8>)
    ensures
        v is Some == hex_value(c) is Some,
        v is Some ==> v.unwrap() == hex_value(c).unwrap() && v.unwrap() < 16,
{
    if '0' <= c && c <= '9' {
        Some((c as u32 - '0' as u32) as u8)
    } else if 'a' <= c && c <= 'f' {
        Some((c as u32 - 'a' as u32 + 10) as u8)
    } else if 'A' <= c && c <= 'F' {
        Some((c as u32 - 'A' as u32 + 10) as u8)
    } else {
        None
    }
}

/// Reads a colour of the form `#RRGGBB`.
pub fn color_from_ldtk(text: &str) -> (out: Result<Rgba, ColorParseError>)
    ensures
        out == color_of(text@),
{
    if text.unicode_len() != 7 {
        return Err(ColorParseError::BadLength);
    }
    if text.get_char(0) != '#' {
        return Err(ColorParseError::MissingHash);
    }
    let mut digits: Vec<u8> = Vec::new();
    let mut i: usize = 1;
    while i < 7
        invariant
            1 <= i <= 7,
            text@.len() == 7,
            text@[0] == '#',
            digits@.len() == i - 1,
            first_bad_digit(text@, 1) == first_bad_digit(text@, i as int),
            forall|k: int|
                0 <= k < i - 1 ==> hex_value(text@[k + 1]) == Some(#[trigger] digits@[k] as int),
        decreases 7 - i,
    {
        match hex_digit(text.get_char(i)) {
            Some(v) => {
                digits.push(v);
            },
            None => {
                assert(first_bad_digit(text@, i as int) == i);
                return Err(ColorParseError::BadDigit(i));
            },
        }
        i += 1;
    }
    assert(first_bad_digit(text@, 7) == 7);
    assert(forall|k: int| 0 <= k < 6 ==> 0 <= #[trigger] digits@[k] < 16 && hex_value(text@[k + 1]) == Some(digits@[k] as int)) by {
        assert forall|k: int| 0 <= k < 6 implies 0 <= #[trigger] digits@[k] < 16 && hex_value(text@[k + 1]) == Some(digits@[k] as int) by {
            assert(hex_value(text@[k + 1]) == Some(digits@[k] as int));
        }
    }
    Ok(
        Rgba {
            r: 16 * digits[0] + digits[1],
            g: 16 * digits[2] + digits[3],
            b: 16 * digits[4] + digits[5],
            a: 255,
        },
    )
}

/// Where an entity is held: the offset of its pivot from its centre, in
/// thousandths of its size, to the right and upwards.
#[derive(Clone, Copy, Debug, PartialEq, Eq, Structural)]
pub struct Anchor {
    pub x: i64,
    pub y: i64,
}

/// Why a pivot could not be read.
#[derive(Clone, Copy, Debug, PartialEq, Eq, Structural)]
pub enum AnchorIntoError {
    /// The pivot does not have two components.
    NotAPair,
    /// A component lies outside the entity: below 0 or above 1000.
    OutOfRange,
}

/// What a pivot means. The source counts from the top-left corner, in
/// thousandths of the size, to the right and downwards.
pub open spec fn anchor_of(pivot: Seq<i64>) -> Result<Anchor, AnchorIntoError> {
    if pivot.len() != 2 {
        Err(AnchorIntoError::NotAPair)
    } else if !(0 <= pivot[0] <= 1000 && 0 <= pivot[1] <= 1000) {
        Err(AnchorIntoError::OutOfRange)
    } else {
        Ok(Anchor { x: (pivot[0] - 500) as i64, y: (500 - pivot[1]) as i64 })
    }
}

/// Reads a pivot.
pub fn anchor_from_ldtk(pivot: &Vec<i64>) -> (out: Result<Anchor, AnchorIntoError>)
    ensures
        out == anchor_of(pivot@),
{
    if pivot.len() != 2 {
        return Err(AnchorIntoError::NotAPair);
    }
    let x = pivot[0];
    let y = pivot[1];
    if x < 0 || x > 1000 || y < 0 || y > 1000 {
        return Err(AnchorIntoError::OutOfRange);
    }
    Ok(Anchor { x: x - 500, y: 500 - y })
}

/// The texts that a list of strings holds.
pub open spec fn texts(list: Seq<String>) -> Seq<Seq<char>> {
    list.map_values(|s: String| s@)
}

/// The text of an optional string.
pub open spec fn text_of(s: Option<String>) -> Option<Seq<char>> {
    match s {
        Some(s) => Some(s@),
        None => None,
    }
}

/// A copy of a list of strings.
pub fn clone_strings(list: &Vec<String>) -> (out: Vec<String>)
    ensures
        texts(out@) == texts(list@),
{
    let mut out: Vec<String> = Vec::new();
    let mut i: usize = 0;
    while i < list.len()
        invariant
            i <= list.len(),
            out@.len() == i,
            forall|k: int| 0 <= k < i ==> out@[k]@ == list@[k]@,
        decreases list.len() - i,
    {
        out.push(list[i].clone());
        i += 1;
    }
    assert(texts(out@) =~= texts(list@));
    out
}

/// A copy of an optional string.
pub fn clone_text(s: &Option<String>) -> (out: Option<String>)
    ensures
        text_of(out) == text_of(*s),
{
    match s {
        Some(s) => Some(s.clone()),
        None => None,
    }
}

/// A copy of a list of numbers.
pub fn clone_numbers(list: &Vec<i64>) -> (out: Vec<i64>)
    ensures
        out@ == list@,
{
    let mut out: Vec<i64> = Vec::new();
    let mut i: usize = 0;
    while i < list.len()
        invariant
            i <= list.len(),
            out@ == list@.take(i as int),
        decreases list.len() - i,
    {
        out.push(list[i]);
        assert(list@.take(i + 1) =~= list@.take(i as int).push(list@[i as int]));
        i += 1;
    }
    assert(list@.take(list.len() as int) =~= list@);
    out
}

/// Whether `list` holds the text of `s`.
pub fn has_text(list: &Vec<String>, s: &String) -> (found: bool)
    ensures
        found == texts(list@).contains(s@),
{
    let mut i: usize = 0;
    while i < list.len()
        invariant
            i <= list.len(),
            forall|k: int| 0 <= k < i ==> texts(list@)[k] != s@,
        decreases list.len() - i,
    {
        if list[i] == *s {
            assert(texts(list@)[i as int] == s@);
            return true;
        }
        i += 1;
    }
    false
}

/// Adds a copy of `s` to `list` unless `list` holds its text already.
pub fn add_text(list: &mut Vec<String>, s: &String)
    ensures
        texts(final(list)@) == if texts(old(list)@).contains(s@) {
            texts(old(list)@)
        } else {
            texts(old(list)@).push(s@)
        },
{
    if !has_text(list, s) {
        list.push(s.clone());
        assert(texts(list@) =~= texts(old(list)@).push(s@));
    }
}

/// What adding `x` to a list without repetition, unless it is there, gives:
/// a list without repetition that holds what the list held, and `x`.
pub proof fn lemma_added<A>(before: Seq<A>, after: Seq<A>, x: A)
    requires
        before.no_duplicates(),
        after == if before.contains(x) {
            before
        } else {
            before.push(x)
        },
    ensures
        after.no_duplicates(),
        forall|y: A| #[trigger] after.contains(y) <==> before.contains(y) || y == x,
{
    if !before.contains(x) {
        assert forall|i: int, j: int| 0 <= i < after.len() && 0 <= j < after.len() && i
            != j implies after[i] != after[j] by {
            if i == before.len() {
                assert(before.contains(before[j]));
            } else if j == before.len() {
                assert(before.contains(before[i]));
            }
        }
        assert forall|y: A| #[trigger] after.contains(y) <==> before.contains(y) || y == x by {
            if after.contains(y) {
                let i = choose|i: int| 0 <= i < after.len() && after[i] == y;
                if i < before.len() {
                    assert(before[i] == y);
                }
            }
            if before.contains(y) {
                let i = choose|i: int| 0 <= i < before.len() && before[i] == y;
                assert(after[i] == y);
            }
            if y == x {
                assert(after[before.len() as int] == x);
            }
        }
    }
}

/// Whether `list` holds `number`.
pub fn has_number(list: &Vec<u64>, number: u64) -> (found: bool)
    ensures
        found == list@.contains(number),
{
    let mut i: usize = 0;
    while i < list.len()
        invariant
            i <= list.len(),
            forall|k: int| 0 <= k < i ==> list@[k] != number,
        decreases list.len() - i,
    {
        if list[i] == number {
            return true;
        }
        i += 1;
    }
    false
}

} // verus!
