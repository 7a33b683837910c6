use vstd::prelude::*;

verus! {

/// The longest line table, in bytes, that is decoded: two to the power
/// fifty-four, the largest power of two for which every running sum of
/// offsets and lines stays within a 64-bit signed integer.
pub const MAX_LINE_TABLE_BYTES: u64 = 0x40_0000_0000_0000;

/// A line delta byte read as a signed value.
pub open spec fn line_delta(b: u8) -> int {
    if b < 128 {
        b as int
    } else {
        b as int - 256
    }
}

/// Line decoding from byte `i` of table `t`, with the instruction offset and
/// the line reached so far: pairs are taken while the offset is short of
/// `target` and a whole pair remains.
pub open spec fn line_from(t: Seq<u8>, i: int, addr: int, line: int, target: int) -> int
    decreases t.len() - i,
{
    if addr >= target || i < 0 || i + 1 >= t.len() {
        line
    } else {
        line_from(t, i + 2, addr + t[i], line + line_delta(t[i + 1]), target)
    }
}

/// The line of instruction offset `target` in a code object whose first line
/// is `first` and whose line table is `t`.
pub open spec fn line_spec(t: Seq<u8>, first: int, target: int) -> int {
    line_from(t, 0, 0, first, target)
}

/// The sum of the backward steps of the pairs from byte `i` on.
pub open spec fn backward_from(t: Seq<u8>, i: int) -> int
    decreases t.len() - i,
{
    if i < 0 || i + 1 >= t.len() {
        0
    } else {
        backward_from(t, i + 2) + backward_step(t[i + 1])
    }
}

/// The line of instruction offset `target`, from the line table and the first
/// line of its code object. A trailing half pair is ignored.
pub fn decode_line(table: &Vec<u8>, first_line: i32, target: i32) -> (r: i64)
    requires
        table@.len() <= MAX_LINE_TABLE_BYTES,
    ensures
        r == line_spec(table@, first_line as int, target as int),
{
    let n = table.len();
    let mut i: usize = 0;
    let mut addr: i64 = 0;
    let mut line: i64 = first_line as i64;
    while addr < target as i64 && i + 1 < n
        invariant
            n == table@.len() <= MAX_LINE_TABLE_BYTES,
            i <= n + 1,
            i % 2 == 0,
            0 <= addr <= 256 * i,
            first_line - 128 * i <= line <= first_line + 128 * i,
            line_spec(table@, first_line as int, target as int) == line_from(
                table@,
                i as int,
                addr as int,
                line as int,
                target as int,
            ),
        decreases n + 1 - i,
    {
        let off = table[i];
        let d = table[i + 1];
        addr = addr + off as i64;
        line = if d < 128 {
            line + d as i64
        } else {
            line + d as i64 - 256
        };
        i = i + 2;
    }
    line
}

/// Offset zero lies before every instruction: its line is the first line.
pub proof fn lemma_offset_zero_first_line(t: Seq<u8>, first: int)
    ensures
        line_spec(t, first, 0) == first,
{
}

proof fn lemma_backward_nonneg(t: Seq<u8>, i: int)
    ensures
        backward_from(t, i) >= 0,
    decreases t.len() - i,
{
    if !(i < 0 || i + 1 >= t.len()) {
        lemma_backward_nonneg(t, i + 2);
    }
}

/// The backward step of the pair whose line byte is `b`, as a positive
/// number, or zero.
pub open spec fn backward_step(b: u8) -> int {
    if line_delta(b) < 0 {
        -line_delta(b)
    } else {
        0
    }
}

/// The sum of the backward steps of the pairs that decoding `target` takes
/// from byte `i` on.
pub open spec fn backward_taken(t: Seq<u8>, i: int, addr: int, target: int) -> int
    decreases t.len() - i,
{
    if addr >= target || i < 0 || i + 1 >= t.len() {
        0
    } else {
        backward_step(t[i + 1]) + backward_taken(t, i + 2, addr + t[i], target)
    }
}

proof fn lemma_taken_bounds(t: Seq<u8>, i: int, addr: int, target: int, later: int)
    requires
        i >= 0,
        target <= later,
    ensures
        0 <= backward_taken(t, i, addr, target) <= backward_taken(t, i, addr, later),
        backward_taken(t, i, addr, later) <= backward_from(t, i),
    decreases t.len() - i,
{
    lemma_backward_nonneg(t, i);
    if !(addr >= later || i + 1 >= t.len()) {
        lemma_taken_bounds(t, i + 2, addr + t[i], target, later);
    }
}

proof fn lemma_line_from_lower(t: Seq<u8>, i: int, addr: int, line: int, target: int)
    requires
        i >= 0,
    ensures
        line_from(t, i, addr, line, target) >= line - backward_taken(t, i, addr, target),
    decreases t.len() - i,
{
    if !(addr >= target || i + 1 >= t.len()) {
        lemma_line_from_lower(t, i + 2, addr + t[i], line + line_delta(t[i + 1]), target);
    }
}

/// Backward steps are reflected, not clamped: the line of an offset is at
/// least the first line less the backward steps of the pairs taken before
/// it; a larger offset takes all of those steps and maybe more, and none
/// takes more than the whole table holds.
pub proof fn lemma_line_lower_bound(t: Seq<u8>, first: int, target: int, later: int)
    requires
        target <= later,
    ensures
        line_spec(t, first, target) >= first - backward_taken(t, 0, 0, target),
        0 <= backward_taken(t, 0, 0, target) <= backward_taken(t, 0, 0, later),
        backward_taken(t, 0, 0, later) <= backward_from(t, 0),
{
    lemma_line_from_lower(t, 0, 0, first, target);
    lemma_taken_bounds(t, 0, 0, target, later);
}

} // verus!
