use vstd::prelude::*;
use vstd::utf8::encode_utf8;

use crate::decimal::{is_usize_numeral, numeral_value, parse_usize};
use crate::position::{offset_at, offset_for_position, pos_at, position_for_offset, Point};

verus! {

#[verifier::external_type_specification]
#[verifier::external_body]
pub struct ExTree(tree_sitter::Tree);

/// One textual change: at `position`, remove `deleted_length` bytes and put
/// `inserted_text` in their place.
#[derive(Debug)]
pub struct Edit {
    pub position: usize,
    pub deleted_length: usize,
    pub inserted_text: Vec<u8>,
}

/// What a tree is told of an edit: the byte offsets and positions of its
/// start and of its old and new ends.
#[derive(Clone, Copy, Debug, PartialEq, Eq, Structural)]
pub struct InputEdit {
    pub start_byte: usize,
    pub old_end_byte: usize,
    pub new_end_byte: usize,
    pub start_position: Point,
    pub old_end_position: Point,
    pub new_end_position: Point,
}

#[derive(Debug)]
pub enum EditError {
    /// The edit text, as given, does not have the shape
    /// `<position> <deleted length> <inserted text>`.
    MalformedEditSpec(String),
}

impl EditError {
    /// The message shown for the error, quoting the edit text.
    pub fn message(&self) -> (r: String)
        ensures
            self matches EditError::MalformedEditSpec(flag) ==> r@ == "Invalid edit string '"@
                + flag@ + "'. Edit strings must match the pattern '<START_BYTE_OR_POSITION> <REMOVED_LENGTH> <NEW_TEXT>'"@,
    {
        match self {
            EditError::MalformedEditSpec(flag) => {
                let mut r = String::new();
                r.append("Invalid edit string '");
                r.append(flag.as_str());
                r.append(
                    "'. Edit strings must match the pattern '<START_BYTE_OR_POSITION> <REMOVED_LENGTH> <NEW_TEXT>'",
                );
                r
            },
        }
    }
}

pub open spec fn point_of(p: (int, int)) -> Point {
    Point { row: p.0 as usize, column: p.1 as usize }
}

/// The first index in `[from, to)` holding `c`, or `to`.
pub open spec fn find_between(s: Seq<char>, c: char, from: int, to: int) -> int
    decreases to - from,
{
    if from >= to {
        to
    } else if s[from] == c {
        from
    } else {
        find_between(s, c, from + 1, to)
    }
}

/// The offset named by the position field `s[0..end]` of an edit text.
pub open spec fn spec_edit_position(buf: Seq<u8>, s: Seq<char>, end: int) -> Option<int> {
    let f = s.subrange(0, end);
    let c1 = find_between(s, ',', 0, end);
    let c2 = find_between(s, ',', c1 + 1, end);
    let row = s.subrange(0, c1);
    let column = s.subrange(c1 + 1, c2);
    if f == seq!['$'] {
        Some(buf.len() as int)
    } else if c1 < end {
        if is_usize_numeral(row) && is_usize_numeral(column) {
            Some(offset_at(buf, (numeral_value(row), numeral_value(column))))
        } else {
            None
        }
    } else if is_usize_numeral(f) {
        Some(numeral_value(f))
    } else {
        None
    }
}

/// The edit that the text `s` describes against `buf`, as (position,
/// deleted length, inserted bytes); `None` where `s` is malformed.
pub open spec fn spec_parse_edit(buf: Seq<u8>, s: Seq<char>) -> Option<(int, int, Seq<u8>)> {
    let i1 = find_between(s, ' ', 0, s.len() as int);
    let i2 = find_between(s, ' ', i1 + 1, s.len() as int);
    let deleted = s.subrange(i1 + 1, i2);
    let inserted = if i2 < s.len() {
        encode_utf8(s.subrange(i2 + 1, s.len() as int))
    } else {
        Seq::empty()
    };
    if i1 >= s.len() {
        None
    } else {
        match spec_edit_position(buf, s, i1) {
            Some(p) => if is_usize_numeral(deleted) {
                Some((p, numeral_value(deleted), inserted))
            } else {
                None
            },
            None => None,
        }
    }
}

/// The edit can be made on `buf` and its results have `usize` offsets.
pub open spec fn edit_fits(buf: Seq<u8>, e: Edit) -> bool {
    &&& e.position + e.deleted_length <= buf.len()
    &&& buf.len() - e.deleted_length + e.inserted_text@.len() <= usize::MAX
}

/// `buf` with the edited range replaced by the inserted bytes.
pub open spec fn spliced(buf: Seq<u8>, e: Edit) -> Seq<u8> {
    buf.take(e.position as int) + e.inserted_text@ + buf.skip(e.position + e.deleted_length)
}

/// The descriptor of `e` made on `buf`: start and old end measured before the
/// change, new end measured after it.
pub open spec fn descriptor(buf: Seq<u8>, e: Edit) -> InputEdit {
    let new_end = e.position + e.inserted_text@.len();
    InputEdit {
        start_byte: e.position,
        old_end_byte: (e.position + e.deleted_length) as usize,
        new_end_byte: new_end as usize,
        start_position: point_of(pos_at(buf, e.position as int)),
        old_end_position: point_of(pos_at(buf, e.position + e.deleted_length)),
        new_end_position: point_of(pos_at(spliced(buf, e), new_end)),
    }
}

fn find_char(s: &str, c: char, from: usize, to: usize) -> (r: usize)
    requires
        from <= to <= s@.len(),
    ensures
        r as int == find_between(s@, c, from as int, to as int),
        from <= r <= to,
{
    let mut i = from;
    while i < to
        invariant
            from <= i <= to <= s@.len(),
            find_between(s@, c, i as int, to as int) == find_between(s@, c, from as int, to as int),
        decreases to - i,
    {
        if s.get_char(i) == c {
            return i;
        }
        i = i + 1;
    }
    i
}

fn malformed(flag: &str) -> (r: EditError)
    ensures
        r matches EditError::MalformedEditSpec(m) && m@ == flag@,
{
    EditError::MalformedEditSpec(String::from_str(flag))
}

fn parse_edit_position(source_code: &Vec<u8>, flag: &str, end: usize) -> (r: Option<usize>)
    requires
        end <= flag@.len(),
    ensures
        match r {
            Some(p) => spec_edit_position(source_code@, flag@, end as int) == Some(p as int),
            None => spec_edit_position(source_code@, flag@, end as int) is None,
        },
{
    let ghost f = flag@.subrange(0, end as int);
    if end == 1 && flag.get_char(0) == '$' {
        assert(f =~= seq!['$']);
        return Some(source_code.len());
    }
    assert(f != seq!['$']) by {
        if f == seq!['$'] {
            assert(f.len() == 1 && f[0] == '$');
        }
    }
    let c1 = find_char(flag, ',', 0, end);
    if c1 < end {
        let c2 = find_char(flag, ',', c1 + 1, end);
        let row = parse_usize(flag, 0, c1);
        let column = parse_usize(flag, c1 + 1, c2);
        match (row, column) {
            (Some(row), Some(column)) => Some(offset_for_position(source_code, Point { row, column })),
            _ => None,
        }
    } else {
        parse_usize(flag, 0, end)
    }
}

/// Reads an edit text `<position> <deleted length> <inserted text>`, where
/// the position is `$` (the end of `source_code`), a byte offset, or
/// `row,column`, and the inserted text is all that follows the second space.
pub fn parse_edit_flag(source_code: &Vec<u8>, flag: &str) -> (r: Result<Edit, EditError>)
    ensures
        r is Ok <==> spec_parse_edit(source_code@, flag@) is Some,
        r matches Ok(e) ==> spec_parse_edit(source_code@, flag@) == Some(
            (e.position as int, e.deleted_length as int, e.inserted_text@),
        ),
        r matches Err(EditError::MalformedEditSpec(m)) ==> m@ == flag@,
{
    let n = flag.unicode_len();
    let i1 = find_char(flag, ' ', 0, n);
    if i1 >= n {
        return Err(malformed(flag));
    }
    let i2 = find_char(flag, ' ', i1 + 1, n);
    let position = match parse_edit_position(source_code, flag, i1) {
        Some(p) => p,
        None => {
            return Err(malformed(flag));
        },
    };
    let deleted_length = match parse_usize(flag, i1 + 1, i2) {
        Some(d) => d,
        None => {
            return Err(malformed(flag));
        },
    };
    let inserted_text = if i2 < n {
        flag.substring_char(i2 + 1, n).as_bytes_vec()
    } else {
        Vec::new()
    };
    Ok(Edit { position, deleted_length, inserted_text })
}

/// Makes `edit` on `input` and returns its descriptor: the start and old end
/// are measured on the buffer before the change, the new end after it.
pub fn edit_buffer(input: &mut Vec<u8>, edit: &Edit) -> (r: InputEdit)
    requires
        edit_fits(old(input)@, *edit),
    ensures
        final(input)@ == spliced(old(input)@, *edit),
        r == descriptor(old(input)@, *edit),
{
    let start_byte = edit.position;
    let _len = input.len();
    let old_end_byte = edit.position + edit.deleted_length;
    let new_end_byte = edit.position + edit.inserted_text.len();
    let start_position = position_for_offset(input, start_byte);
    let old_end_position = position_for_offset(input, old_end_byte);
    let mut out: Vec<u8> = Vec::new();
    let mut i: usize = 0;
    while i < start_byte
        invariant
            i <= start_byte <= old(input)@.len(),
            *input == *old(input),
            out@ == input@.take(i as int),
        decreases start_byte - i,
    {
        out.push(input[i]);
        i = i + 1;
        assert(out@ =~= input@.take(i as int));
    }
    let mut j: usize = 0;
    while j < edit.inserted_text.len()
        invariant
            j <= edit.inserted_text@.len(),
            *input == *old(input),
            out@ == input@.take(start_byte as int) + edit.inserted_text@.take(j as int),
        decreases edit.inserted_text.len() - j,
    {
        out.push(edit.inserted_text[j]);
        j = j + 1;
        assert(out@ =~= input@.take(start_byte as int) + edit.inserted_text@.take(j as int));
    }
    let mut k: usize = old_end_byte;
    while k < input.len()
        invariant
            old_end_byte <= k <= input@.len(),
            *input == *old(input),
            out@ == input@.take(start_byte as int) + edit.inserted_text@ + input@.subrange(
                old_end_byte as int,
                k as int,
            ),
        decreases input.len() - k,
    {
        out.push(input[k]);
        k = k + 1;
        assert(out@ =~= input@.take(start_byte as int) + edit.inserted_text@ + input@.subrange(
            old_end_byte as int,
            k as int,
        ));
    }
    assert(edit.inserted_text@.take(edit.inserted_text@.len() as int) =~= edit.inserted_text@);
    assert(out@ =~= spliced(old(input)@, *edit));
    *input = out;
    let new_end_position = position_for_offset(input, new_end_byte);
    proof {
        crate::position::lemma_pos_bounded(old(input)@.take(start_byte as int));
        crate::position::lemma_pos_bounded(old(input)@.take(old_end_byte as int));
        crate::position::lemma_pos_bounded(input@.take(new_end_byte as int));
    }
    InputEdit {
        start_byte,
        old_end_byte,
        new_end_byte,
        start_position,
        old_end_position,
        new_end_position,
    }
}

/// Relies on tree_sitter::Tree::edit, which shifts the tree's node ranges to
/// follow the edit and reads nothing back.
#[verifier::external_body]
fn notify_tree(tree: &mut tree_sitter::Tree, e: &InputEdit) {
    let (a, b, c) = (e.start_position, e.old_end_position, e.new_end_position);
    tree.edit(&tree_sitter::InputEdit {
        start_byte: e.start_byte,
        old_end_byte: e.old_end_byte,
        new_end_byte: e.new_end_byte,
        start_position: tree_sitter::Point { row: a.row, column: a.column },
        old_end_position: tree_sitter::Point { row: b.row, column: b.column },
        new_end_position: tree_sitter::Point { row: c.row, column: c.column },
    });
}

/// Makes `edit` on both the buffer and the tree, and returns the descriptor
/// that the tree was given.
pub fn perform_edit(tree: &mut tree_sitter::Tree, input: &mut Vec<u8>, edit: &Edit) -> (r: InputEdit)
    requires
        edit_fits(old(input)@, *edit),
    ensures
        final(input)@ == spliced(old(input)@, *edit),
        r == descriptor(old(input)@, *edit),
{
    let r = edit_buffer(input, edit);
    notify_tree(tree, &r);
    r
}

/// Each edit of a sequence fits the buffer as the edits before it left it.
pub open spec fn edits_fit(buf: Seq<u8>, edits: Seq<Edit>) -> bool
    decreases edits.len(),
{
    edits.len() > 0 ==> {
        &&& edits_fit(buf, edits.drop_last())
        &&& edit_fits(buffer_after(buf, edits.drop_last()), edits.last())
    }
}

/// The buffer after the edits, made in order.
pub open spec fn buffer_after(buf: Seq<u8>, edits: Seq<Edit>) -> Seq<u8>
    decreases edits.len(),
{
    if edits.len() == 0 {
        buf
    } else {
        spliced(buffer_after(buf, edits.drop_last()), edits.last())
    }
}

/// The descriptors of the edits, each measured on the buffer that the edits
/// before it left.
pub open spec fn descriptors(buf: Seq<u8>, edits: Seq<Edit>) -> Seq<InputEdit>
    decreases edits.len(),
{
    if edits.len() == 0 {
        Seq::empty()
    } else {
        descriptors(buf, edits.drop_last()).push(
            descriptor(buffer_after(buf, edits.drop_last()), edits.last()),
        )
    }
}

/// Makes the edits on `input` one after another, and returns their
/// descriptors in the same order.
pub fn edit_buffer_in_order(input: &mut Vec<u8>, edits: &Vec<Edit>) -> (r: Vec<InputEdit>)
    requires
        edits_fit(old(input)@, edits@),
    ensures
        final(input)@ == buffer_after(old(input)@, edits@),
        r@ == descriptors(old(input)@, edits@),
{
    let mut r: Vec<InputEdit> = Vec::new();
    let mut i: usize = 0;
    proof {
        assert(edits@.take(0) =~= Seq::<Edit>::empty());
    }
    while i < edits.len()
        invariant
            i <= edits@.len(),
            edits_fit(old(input)@, edits@),
            input@ == buffer_after(old(input)@, edits@.take(i as int)),
            r@ == descriptors(old(input)@, edits@.take(i as int)),
        decreases edits.len() - i,
    {
        proof {
            let t = edits@.take(i as int + 1);
            assert(t.drop_last() =~= edits@.take(i as int));
            lemma_edits_fit_prefix(old(input)@, edits@, i as int + 1);
        }
        let d = edit_buffer(input, &edits[i]);
        r.push(d);
        i = i + 1;
    }
    proof {
        assert(edits@.take(edits@.len() as int) =~= edits@);
    }
    r
}

proof fn lemma_edits_fit_prefix(buf: Seq<u8>, edits: Seq<Edit>, k: int)
    requires
        0 <= k <= edits.len(),
        edits_fit(buf, edits),
    ensures
        edits_fit(buf, edits.take(k)),
    decreases edits.len() - k,
{
    if k < edits.len() {
        assert(edits.drop_last().take(k) =~= edits.take(k));
        lemma_edits_fit_prefix(buf, edits.drop_last(), k);
    } else {
        assert(edits.take(k) =~= edits);
    }
}

/// The new end position that an edit reports is the position of its new end
/// offset, measured on the buffer after the edit.
pub proof fn law_new_end_measured_after(buf: Seq<u8>, e: Edit)
    requires
        edit_fits(buf, e),
    ensures
        (descriptor(buf, e).new_end_position.row as int, descriptor(
            buf,
            e,
        ).new_end_position.column as int) == pos_at(
            spliced(buf, e),
            descriptor(buf, e).new_end_byte as int,
        ),
{
    let n = e.position + e.inserted_text@.len();
    assert(spliced(buf, e).len() >= n);
    crate::position::lemma_pos_bounded(spliced(buf, e).take(n));
}

/// Two edits made in order: the second is measured on the buffer that the
/// first left, not on the one it started from.
pub proof fn law_edits_apply_in_sequence(buf: Seq<u8>, e1: Edit, e2: Edit)
    requires
        edit_fits(buf, e1),
        edit_fits(spliced(buf, e1), e2),
    ensures
        edits_fit(buf, seq![e1, e2]),
        buffer_after(buf, seq![e1, e2]) == spliced(spliced(buf, e1), e2),
        descriptors(buf, seq![e1, e2]) == seq![
            descriptor(buf, e1),
            descriptor(spliced(buf, e1), e2),
        ],
{
    let s = seq![e1, e2];
    assert(s.drop_last() =~= seq![e1]);
    assert(seq![e1].drop_last() =~= Seq::<Edit>::empty());
    let z = Seq::<Edit>::empty();
    assert(buffer_after(buf, z) == buf);
    assert(edits_fit(buf, z));
    assert(descriptors(buf, z) == Seq::<InputEdit>::empty());
    assert(seq![e1].last() == e1);
    assert(buffer_after(buf, seq![e1]) == spliced(buf, e1));
    assert(edits_fit(buf, seq![e1]));
    assert(descriptors(buf, seq![e1]) =~= seq![descriptor(buf, e1)]);
    assert(s.last() == e2);
    assert(descriptors(buf, s) =~= seq![descriptor(buf, e1), descriptor(spliced(buf, e1), e2)]);
}

} // verus!
