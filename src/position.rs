use vstd::prelude::*;

verus! {

/// A location in a byte buffer: `row` counts the newlines before it, `column`
/// the bytes since the last newline.
#[derive(Clone, Copy, Debug, PartialEq, Eq, Structural)]
pub struct Point {
    pub row: usize,
    pub column: usize,
}

/// The position reached after scanning every byte of `s` from (0, 0).
pub open spec fn pos_after(s: Seq<u8>) -> (int, int)
    decreases s.len(),
{
    if s.len() == 0 {
        (0, 0)
    } else {
        let p = pos_after(s.drop_last());
        if s.last() == 10u8 {
            (p.0 + 1, 0)
        } else {
            (p.0, p.1 + 1)
        }
    }
}

/// The position of byte offset `o` in `buf`.
pub open spec fn pos_at(buf: Seq<u8>, o: int) -> (int, int) {
    pos_after(buf.take(o))
}

/// Lexicographic "strictly after" on (row, column) pairs.
pub open spec fn point_gt(a: (int, int), b: (int, int)) -> bool {
    a.0 > b.0 || (a.0 == b.0 && a.1 > b.1)
}

pub open spec fn view_point(p: Point) -> (int, int) {
    (p.row as int, p.column as int)
}

/// The first offset `i >= from` whose byte carries the running position
/// strictly past `target`, or the buffer length if there is none.
pub open spec fn first_exceeding(buf: Seq<u8>, target: (int, int), from: int) -> int
    decreases buf.len() - from,
{
    if from < 0 || from >= buf.len() {
        buf.len() as int
    } else if point_gt(pos_at(buf, from + 1), target) {
        from
    } else {
        first_exceeding(buf, target, from + 1)
    }
}

/// The offset that a position designates in `buf`.
pub open spec fn offset_at(buf: Seq<u8>, target: (int, int)) -> int {
    first_exceeding(buf, target, 0)
}

pub proof fn lemma_pos_bounded(s: Seq<u8>)
    ensures
        0 <= pos_after(s).0,
        0 <= pos_after(s).1,
        pos_after(s).0 + pos_after(s).1 <= s.len(),
    decreases s.len(),
{
    if s.len() > 0 {
        lemma_pos_bounded(s.drop_last());
    }
}

proof fn lemma_pos_step(buf: Seq<u8>, i: int)
    requires
        0 <= i < buf.len(),
    ensures
        pos_at(buf, i + 1) == (if buf[i] == 10u8 {
            (pos_at(buf, i).0 + 1, 0)
        } else {
            (pos_at(buf, i).0, pos_at(buf, i).1 + 1)
        }),
        point_gt(pos_at(buf, i + 1), pos_at(buf, i)),
{
    assert(buf.take(i + 1).drop_last() =~= buf.take(i));
}

/// Positions never move backwards as the offset grows.
proof fn lemma_pos_monotone(buf: Seq<u8>, j: int, k: int)
    requires
        0 <= j <= k <= buf.len(),
    ensures
        !point_gt(pos_at(buf, j), pos_at(buf, k)),
    decreases k - j,
{
    if j < k {
        lemma_pos_monotone(buf, j, k - 1);
        lemma_pos_step(buf, k - 1);
    }
}

proof fn lemma_first_exceeding_is(buf: Seq<u8>, o: int, i: int)
    requires
        0 <= i <= o <= buf.len(),
        forall|j: int| i <= j < o ==> !point_gt(#[trigger] pos_at(buf, j + 1), pos_at(buf, o)),
        o < buf.len() ==> point_gt(pos_at(buf, o + 1), pos_at(buf, o)),
    ensures
        first_exceeding(buf, pos_at(buf, o), i) == o,
    decreases o - i,
{
    if i < o {
        lemma_first_exceeding_is(buf, o, i + 1);
    }
}

/// Converting an offset to a position and back gives the offset again, for
/// every offset from 0 to the buffer's length.
pub proof fn law_offset_position_round_trip(buf: Seq<u8>, o: int)
    requires
        0 <= o <= buf.len(),
    ensures
        offset_at(buf, pos_at(buf, o)) == o,
{
    assert forall|j: int| 0 <= j < o implies !point_gt(#[trigger] pos_at(buf, j + 1), pos_at(buf, o)) by {
        lemma_pos_monotone(buf, j + 1, o);
    }
    if o < buf.len() {
        lemma_pos_step(buf, o);
    }
    lemma_first_exceeding_is(buf, o, 0);
}

/// The offset in `input` that `position` designates: the first byte that
/// carries the running position past it, or the length of `input`.
pub fn offset_for_position(input: &Vec<u8>, position: Point) -> (r: usize)
    ensures
        r == offset_at(input@, view_point(position)),
{
    let mut row: usize = 0;
    let mut column: usize = 0;
    let mut i: usize = 0;
    while i < input.len()
        invariant
            0 <= i <= input@.len(),
            (row as int, column as int) == pos_at(input@, i as int),
            first_exceeding(input@, view_point(position), i as int) == offset_at(
                input@,
                view_point(position),
            ),
        decreases input.len() - i,
    {
        proof {
            lemma_pos_step(input@, i as int);
            lemma_pos_bounded(input@.take(i as int + 1));
        }
        if input[i] == 10u8 {
            row = row + 1;
            column = 0;
        } else {
            column = column + 1;
        }
        if row > position.row || (row == position.row && column > position.column) {
            return i;
        }
        i = i + 1;
    }
    input.len()
}

/// The position of byte offset `offset` in `input`.
pub fn position_for_offset(input: &Vec<u8>, offset: usize) -> (r: Point)
    requires
        offset <= input@.len(),
    ensures
        view_point(r) == pos_at(input@, offset as int),
{
    let mut row: usize = 0;
    let mut column: usize = 0;
    let mut i: usize = 0;
    while i < offset
        invariant
            0 <= i <= offset <= input@.len(),
            (row as int, column as int) == pos_at(input@, i as int),
        decreases offset - i,
    {
        proof {
            lemma_pos_step(input@, i as int);
            lemma_pos_bounded(input@.take(i as int + 1));
        }
        if input[i] == 10u8 {
            row = row + 1;
            column = 0;
        } else {
            column = column + 1;
        }
        i = i + 1;
    }
    Point { row, column }
}

} // verus!
