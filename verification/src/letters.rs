//! Where the letters of a text stand: side by side, kerned, centred at a column.

use crate::arith::negated;
use crate::arith::number;
use crate::arith::quotient;
use crate::arith::rounded_away;
use crate::arith::sum;
use crate::canvas::fits;
use crate::canvas::Glyph;
use crate::value::clamped;
use crate::value::Value;
use crate::value::INFINITE;
use crate::value::SIGN;
use vstd::prelude::*;

verus! {

/// One letter as the font draws it: its strength at each point of a small grid, row by row,
/// where the grid lies against the pen and the base line, how far the pen moves on, and
/// by how much the pen moves before it because of the letter in front of it.
pub struct Letter {
    pub kern: Option<Value>,
    pub xmin: i32,
    pub ymin: i32,
    pub width: u16,
    pub height: u16,
    pub advance: Value,
    pub bitmap: Vec<u8>,
}

impl Letter {
    /// Whether an `i32` can hold the upper edge of the letter.
    pub open spec fn wf(self) -> bool {
        fits(-self.ymin) && fits(-self.ymin - self.height)
    }

    /// Whether an `i32` can hold the upper edge of the letter.
    pub fn is_placeable(&self) -> (yes: bool)
        ensures
            yes == self.wf(),
    {
        self.ymin > i32::MIN && -self.ymin >= i32::MIN + self.height as i32
    }
}

/// The smaller of two numbers; the other one where one is not a number.
pub open spec fn lesser(a: Value, b: Value) -> Value {
    if a.is_nan() || a.above(b) {
        b
    } else {
        a
    }
}

/// The larger of two numbers; the other one where one is not a number.
pub open spec fn greater(a: Value, b: Value) -> Value {
    if a.is_nan() || b.above(a) {
        b
    } else {
        a
    }
}

/// How far the pen moves before a letter that stands behind another.
pub open spec fn kern_of(letter: Letter) -> Value {
    match letter.kern {
        Some(kern) => kern,
        None => number(0),
    }
}

/// Where the pen is when letter `i` is drawn.
pub open spec fn pen(text: Seq<Letter>, i: int) -> Value
    decreases i,
{
    if i <= 0 {
        number(0)
    } else {
        sum(sum(pen(text, i - 1), text[i - 1].advance), kern_of(text[i]))
    }
}

/// The left edge of letter `i`.
pub open spec fn left_edge(text: Seq<Letter>, i: int) -> Value {
    sum(pen(text, i), number(text[i].xmin as int))
}

/// The right edge of letter `i`.
pub open spec fn right_edge(text: Seq<Letter>, i: int) -> Value {
    sum(left_edge(text, i), number(text[i].width as int))
}

/// The leftmost edge of the first `n` letters.
pub open spec fn leftmost(text: Seq<Letter>, n: int) -> Value
    decreases n,
{
    if n <= 0 {
        Value { bits: INFINITE }
    } else {
        lesser(leftmost(text, n - 1), left_edge(text, n - 1))
    }
}

/// The rightmost edge of the first `n` letters.
pub open spec fn rightmost(text: Seq<Letter>, n: int) -> Value
    decreases n,
{
    if n <= 0 {
        Value { bits: (SIGN + INFINITE) as u32 }
    } else {
        greater(rightmost(text, n - 1), right_edge(text, n - 1))
    }
}

/// By how much a text moves to be centred at a column.
pub open spec fn shift_of(text: Seq<Letter>, center_x: int) -> Value {
    let n = text.len() as int;
    sum(
        number(center_x),
        negated(quotient(sum(leftmost(text, n), rightmost(text, n)), number(2))),
    )
}

/// The column where letter `i` begins in a text that is centred at a column.
pub open spec fn column_of(text: Seq<Letter>, center_x: int, i: int) -> int {
    clamped(
        rounded_away(sum(shift_of(text, center_x), left_edge(text, i))),
        i32::MIN as int,
        i32::MAX as int,
    )
}

/// The letter `i` of a text that is centred at a column, ready to be drawn.
pub open spec fn placed(text: Seq<Letter>, center_x: int, i: int, glyph: Glyph) -> bool {
    &&& glyph.bitmap@ == text[i].bitmap@
    &&& glyph.start_x == column_of(text, center_x, i)
    &&& glyph.top == -text[i].ymin - text[i].height
    &&& glyph.width == text[i].width
    &&& glyph.height == text[i].height
}

fn copy(bytes: &Vec<u8>) -> (twin: Vec<u8>)
    ensures
        twin@ == bytes@,
{
    let mut twin: Vec<u8> = Vec::new();
    let mut i: usize = 0;
    while i < bytes.len()
        invariant
            i <= bytes.len(),
            twin@ == bytes@.take(i as int),
        decreases bytes.len() - i,
    {
        assert(bytes@.take(i + 1) =~= bytes@.take(i as int).push(bytes@[i as int]));
        twin.push(bytes[i]);
        i += 1;
    }
    assert(bytes@.take(i as int) =~= bytes@);
    twin
}

fn least(a: Value, b: Value) -> (r: Value)
    ensures
        r == lesser(a, b),
{
    if a.not_a_number() || a.exceeds(b) {
        b
    } else {
        a
    }
}

fn most(a: Value, b: Value) -> (r: Value)
    ensures
        r == greater(a, b),
{
    if a.not_a_number() || b.exceeds(a) {
        b
    } else {
        a
    }
}

/// Places the letters of a text so that the text is centred at the column `center_x`.
pub fn place(text: &Vec<Letter>, center_x: i32) -> (glyphs: Vec<Glyph>)
    requires
        forall|i: int| 0 <= i < text@.len() ==> (#[trigger] text@[i]).wf(),
    ensures
        glyphs@.len() == text@.len(),
        forall|i: int|
            0 <= i < text@.len() ==> placed(text@, center_x as int, i, #[trigger] glyphs@[i]),
{
    let n: usize = text.len();
    let mut edges: Vec<Value> = Vec::new();
    let mut at = Value::of_int(0);
    let mut min_x = Value { bits: INFINITE };
    let mut max_x = Value { bits: SIGN + INFINITE };
    let mut i: usize = 0;
    while i < n
        invariant
            i <= n,
            n == text@.len(),
            edges@.len() == i,
            forall|j: int| 0 <= j < i ==> #[trigger] edges@[j] == left_edge(text@, j),
            i == 0 ==> at == number(0),
            i > 0 ==> at == sum(pen(text@, i - 1), text@[i - 1].advance),
            min_x == leftmost(text@, i as int),
            max_x == rightmost(text@, i as int),
        decreases n - i,
    {
        if i > 0 {
            let kern = match text[i].kern {
                Some(kern) => kern,
                None => Value::of_int(0),
            };
            at = at.plus(kern);
        }
        assert(at == pen(text@, i as int));
        let left = at.plus(Value::of_int(text[i].xmin));
        min_x = least(min_x, left);
        max_x = most(max_x, left.plus(Value::of_int(text[i].width as i32)));
        edges.push(left);
        at = at.plus(text[i].advance);
        i += 1;
    }
    let middle = min_x.plus(max_x).over(Value::of_int(2));
    let shift = Value::of_int(center_x).minus(middle);
    let mut glyphs: Vec<Glyph> = Vec::new();
    let mut k: usize = 0;
    while k < n
        invariant
            k <= n,
            n == text@.len(),
            forall|i: int| 0 <= i < text@.len() ==> (#[trigger] text@[i]).wf(),
            edges@.len() == n,
            forall|j: int| 0 <= j < n ==> #[trigger] edges@[j] == left_edge(text@, j),
            shift == shift_of(text@, center_x as int),
            glyphs@.len() == k,
            forall|j: int|
                0 <= j < k ==> placed(text@, center_x as int, j, #[trigger] glyphs@[j]),
        decreases n - k,
    {
        let letter = &text[k];
        let glyph = Glyph {
            bitmap: copy(&letter.bitmap),
            start_x: shift.plus(edges[k]).round_to_int(),
            top: -letter.ymin - letter.height as i32,
            width: letter.width,
            height: letter.height,
        };
        glyphs.push(glyph);
        k += 1;
    }
    glyphs
}

} // verus!
