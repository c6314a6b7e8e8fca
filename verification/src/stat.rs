//! The layout of a process's `stat` record.
//!
//! A record is one line: the process id, a space, the name of the executable
//! in parentheses, a space, and fifty more fields with single spaces between
//! them. The name may itself hold spaces and parentheses, so it is taken to
//! begin after the first `(` of the line and to end before the last `)`.
//!
//! Fields are known by their position in the record, counted from zero: the
//! process id is field 0, the name field 1, the status letter field 2, and
//! the last of the fifty, the exit code, field 51.

use crate::decimal::{
    parse_i32, parse_i64, parse_u32, parse_u64, signed_fits, signed_value, unsigned_fits,
    unsigned_value,
};
use crate::state::State;
use crate::text::{
    covered, find_first, find_last, first_of, last_of, lemma_first_of, lemma_last_of, pieces,
    split, trim_newline, without_newline, Span,
};
use vstd::prelude::*;
use vstd::slice::slice_subrange;

verus! {

/// The number of fields of a record.
pub const FIELDS: usize = 52;

/// The number of fields that follow the name.
pub const TRAILING: usize = 50;

/// How a field is read.
#[derive(Clone, Copy, Debug, PartialEq, Eq, Structural)]
pub enum Kind {
    /// Free text: the name of the executable.
    Text,
    /// A status letter.
    State,
    /// A field that is carried by the record and not read.
    Unused,
    /// A signed number of 32 bits.
    I32,
    /// An unsigned number of 32 bits.
    U32,
    /// A signed number of 64 bits.
    I64,
    /// An unsigned number of 64 bits.
    U64,
    /// A signed number of pages, of 64 bits, whose size in bytes fits 64
    /// bits too.
    Pages,
}

/// How the field at a position is read.
pub open spec fn kind(position: int) -> Kind {
    if position == 0 {
        Kind::I32
    } else if position == 1 {
        Kind::Text
    } else if position == 2 {
        Kind::State
    } else if 3 <= position <= 7 {
        Kind::I32
    } else if position == 8 {
        Kind::U32
    } else if 9 <= position <= 14 {
        Kind::U64
    } else if 15 <= position <= 19 {
        Kind::I64
    } else if position == 20 {
        Kind::Unused
    } else if 21 <= position <= 22 {
        Kind::U64
    } else if position == 23 {
        Kind::Pages
    } else if 24 <= position <= 29 {
        Kind::U64
    } else if 30 <= position <= 33 {
        Kind::Unused
    } else if position == 34 {
        Kind::U64
    } else if 35 <= position <= 36 {
        Kind::Unused
    } else if 37 <= position <= 38 {
        Kind::I32
    } else if 39 <= position <= 40 {
        Kind::U32
    } else if 41 <= position <= 42 {
        Kind::U64
    } else if position == 43 {
        Kind::I64
    } else if 44 <= position <= 50 {
        Kind::U64
    } else if position == 51 {
        Kind::I32
    } else {
        Kind::Unused
    }
}

/// The text before the first space of the record: the process id.
pub open spec fn head(stat: Seq<char>) -> Seq<char> {
    stat.take(first_of(stat, set![' ']))
}

/// What follows the first space of the record.
pub open spec fn rest(stat: Seq<char>) -> Seq<char> {
    stat.skip(first_of(stat, set![' ']) + 1)
}

/// Where, in `rest`, the first `(` stands.
pub open spec fn name_open(stat: Seq<char>) -> int {
    first_of(rest(stat), set!['('])
}

/// Where, in `rest`, the last `)` stands.
pub open spec fn name_close(stat: Seq<char>) -> int {
    last_of(rest(stat), ')')
}

/// The name of the executable: what stands between the first `(` and the
/// last `)`.
pub open spec fn name(stat: Seq<char>) -> Seq<char> {
    rest(stat).subrange(name_open(stat) + 1, name_close(stat))
}

/// The fields that follow the name. The closing parenthesis and the one
/// character behind it are passed over, a newline at the end of the record
/// is dropped, and what is left is cut at every single space.
pub open spec fn trailing(stat: Seq<char>) -> Seq<Seq<char>> {
    pieces(without_newline(rest(stat).skip(name_close(stat) + 2)), set![' '])
}

/// Whether the record has the layout of its format: a space after the
/// process id, a `(` with a `)` somewhere behind it, a character behind the
/// last `)`, and exactly fifty fields after that.
pub open spec fn framed(stat: Seq<char>) -> bool {
    &&& first_of(stat, set![' ']) < stat.len()
    &&& name_open(stat) < name_close(stat)
    &&& name_close(stat) + 2 <= rest(stat).len()
    &&& trailing(stat).len() == TRAILING
}

/// The fields of a record by position.
pub open spec fn fields(stat: Seq<char>) -> Seq<Seq<char>> {
    seq![head(stat), name(stat)] + trailing(stat)
}

/// Whether a number is one that a field of a kind can hold; a field that
/// holds no number counts as zero.
pub open spec fn holds(kind: Kind, v: int) -> bool {
    match kind {
        Kind::I32 => i32::MIN <= v <= i32::MAX,
        Kind::U32 => 0 <= v <= u32::MAX,
        Kind::I64 | Kind::Pages => i64::MIN <= v <= i64::MAX,
        Kind::U64 => 0 <= v <= u64::MAX,
        Kind::Text | Kind::State | Kind::Unused => v == 0,
    }
}

/// Whether a field's text is a value of the field's kind.
pub open spec fn field_ok(text: Seq<char>, kind: Kind, page_size: int) -> bool {
    match kind {
        Kind::Text | Kind::Unused => true,
        Kind::State => State::of_text(text) is Ok,
        Kind::I32 => signed_fits(text, i32::MIN as int, i32::MAX as int),
        Kind::U32 => unsigned_fits(text, u32::MAX as int),
        Kind::I64 => signed_fits(text, i64::MIN as int, i64::MAX as int),
        Kind::U64 => unsigned_fits(text, u64::MAX as int),
        Kind::Pages => signed_fits(text, i64::MIN as int, i64::MAX as int) && i64::MIN
            <= signed_value(text) * page_size <= i64::MAX,
    }
}

/// The number that a field holds: what its text writes, in bytes where the
/// text counts pages, and zero for a field that holds no number.
pub open spec fn field_value(text: Seq<char>, kind: Kind, page_size: int) -> int {
    match kind {
        Kind::Text | Kind::State | Kind::Unused => 0,
        Kind::I32 | Kind::I64 => signed_value(text),
        Kind::U32 | Kind::U64 => unsigned_value(text) as int,
        Kind::Pages => signed_value(text) * page_size,
    }
}

/// The number that the field at a position of the record holds.
pub open spec fn value(stat: Seq<char>, position: int, page_size: int) -> int {
    field_value(fields(stat)[position], kind(position), page_size)
}

/// The first position, from `from` on, whose field is no value of its
/// kind, or the number of fields where every field is one.
pub open spec fn first_bad(stat: Seq<char>, page_size: int, from: int) -> int
    decreases FIELDS - from,
{
    if from >= FIELDS {
        FIELDS as int
    } else if !field_ok(fields(stat)[from], kind(from), page_size) {
        from
    } else {
        first_bad(stat, page_size, from + 1)
    }
}

/// Where the fields from `from` up to `to` are values of their kinds, the
/// first bad field from `from` on is the first from `to` on.
pub proof fn lemma_first_bad_skips(stat: Seq<char>, page_size: int, from: int, to: int)
    requires
        0 <= from <= to <= FIELDS,
        forall|j: int|
            from <= j < to ==> field_ok(#[trigger] fields(stat)[j], kind(j), page_size),
    ensures
        first_bad(stat, page_size, from) == first_bad(stat, page_size, to),
    decreases to - from,
{
    if from < to {
        assert(field_ok(fields(stat)[from], kind(from), page_size));
        lemma_first_bad_skips(stat, page_size, from + 1, to);
    }
}

/// The first bad field is a position of the record or the number of fields;
/// the fields before it are good and the field at it is not.
pub proof fn lemma_first_bad(stat: Seq<char>, page_size: int, from: int)
    requires
        0 <= from <= FIELDS,
    ensures
        from <= first_bad(stat, page_size, from) <= FIELDS,
        forall|j: int|
            from <= j < first_bad(stat, page_size, from) ==> field_ok(
                #[trigger] fields(stat)[j],
                kind(j),
                page_size,
            ),
        first_bad(stat, page_size, from) < FIELDS ==> !field_ok(
            fields(stat)[first_bad(stat, page_size, from)],
            kind(first_bad(stat, page_size, from)),
            page_size,
        ),
    decreases FIELDS - from,
{
    if from < FIELDS && field_ok(fields(stat)[from], kind(from), page_size) {
        lemma_first_bad(stat, page_size, from + 1);
    }
}

/// How the field at a position is read.
pub fn kind_of(position: usize) -> (k: Kind)
    ensures
        k == kind(position as int),
{
    if position == 0 {
        Kind::I32
    } else if position == 1 {
        Kind::Text
    } else if position == 2 {
        Kind::State
    } else if position <= 7 {
        Kind::I32
    } else if position == 8 {
        Kind::U32
    } else if position <= 14 {
        Kind::U64
    } else if position <= 19 {
        Kind::I64
    } else if position == 20 {
        Kind::Unused
    } else if position <= 22 {
        Kind::U64
    } else if position == 23 {
        Kind::Pages
    } else if position <= 29 {
        Kind::U64
    } else if position <= 33 {
        Kind::Unused
    } else if position == 34 {
        Kind::U64
    } else if position <= 36 {
        Kind::Unused
    } else if position <= 38 {
        Kind::I32
    } else if position <= 40 {
        Kind::U32
    } else if position <= 42 {
        Kind::U64
    } else if position == 43 {
        Kind::I64
    } else if position <= 50 {
        Kind::U64
    } else if position == 51 {
        Kind::I32
    } else {
        Kind::Unused
    }
}

/// A number of pages of at most 64 bits, times a page size of at most 64
/// bits, fits 128 bits.
proof fn lemma_pages_product(pages: int, page_size: int)
    by (nonlinear_arith)
    requires
        i64::MIN <= pages <= i64::MAX,
        0 <= page_size <= u64::MAX,
    ensures
        i128::MIN <= pages * page_size <= i128::MAX,
{
}

/// Reads a field of a kind: the number that it holds, if its text is a
/// value of the kind.
pub fn decode_field(text: &[char], kind: Kind, page_size: u64) -> (r: Option<i128>)
    ensures
        r is Some <==> field_ok(text@, kind, page_size as int),
        r matches Some(v) ==> v == field_value(text@, kind, page_size as int) && holds(
            kind,
            v as int,
        ),
{
    match kind {
        Kind::Text | Kind::Unused => Some(0),
        Kind::State => match State::from_chars(text) {
            Ok(_) => Some(0),
            Err(_) => None,
        },
        Kind::I32 => match parse_i32(text) {
            Some(v) => Some(v as i128),
            None => None,
        },
        Kind::U32 => match parse_u32(text) {
            Some(v) => Some(v as i128),
            None => None,
        },
        Kind::I64 => match parse_i64(text) {
            Some(v) => Some(v as i128),
            None => None,
        },
        Kind::U64 => match parse_u64(text) {
            Some(v) => Some(v as i128),
            None => None,
        },
        Kind::Pages => match parse_i64(text) {
            Some(v) => {
                proof {
                    lemma_pages_product(v as int, page_size as int);
                }
                let bytes: i128 = v as i128 * page_size as i128;
                if -0x8000_0000_0000_0000 <= bytes && bytes <= 0x7fff_ffff_ffff_ffff {
                    Some(bytes)
                } else {
                    None
                }
            },
            None => None,
        },
    }
}

/// Reads the fields of a record in the order of the record, up to the first
/// that is no value of its kind: the numbers that the fields hold, or the
/// position of that field.
pub fn decode_fields(text: &[char], spans: &Vec<Span>, page_size: u64) -> (r: Result<
    Vec<i128>,
    usize,
>)
    requires
        framed(text@),
        covered(spans@, text@) == fields(text@),
        forall|i: int| 0 <= i < spans@.len() ==> (#[trigger] spans@[i]).within(text@.len()),
    ensures
        match r {
            Ok(values) => first_bad(text@, page_size as int, 0) == FIELDS && values@.len()
                == FIELDS && forall|k: int|
                0 <= k < FIELDS ==> #[trigger] values@[k] == value(text@, k, page_size as int)
                    && holds(kind(k), values@[k] as int),
            Err(k) => k < FIELDS && first_bad(text@, page_size as int, 0) == k,
        },
{
    let mut values: Vec<i128> = Vec::new();
    let mut k: usize = 0;
    proof {
        assert(covered(spans@, text@).len() == spans@.len());
    }
    while k < FIELDS
        invariant
            k <= FIELDS,
            spans@.len() == FIELDS,
            values@.len() == k,
            covered(spans@, text@) == fields(text@),
            forall|i: int| 0 <= i < spans@.len() ==> (#[trigger] spans@[i]).within(text@.len()),
            forall|j: int|
                0 <= j < k ==> field_ok(#[trigger] fields(text@)[j], kind(j), page_size as int),
            forall|j: int|
                0 <= j < k ==> #[trigger] values@[j] == value(text@, j, page_size as int) && holds(
                    kind(j),
                    values@[j] as int,
                ),
        decreases FIELDS - k,
    {
        let span = spans[k];
        assert(span.within(text@.len()));
        let piece = slice_subrange(text, span.start, span.end);
        proof {
            assert(covered(spans@, text@)[k as int] == span.of(text@));
            lemma_first_bad_skips(text@, page_size as int, 0, k as int);
        }
        match decode_field(piece, kind_of(k), page_size) {
            Some(v) => {
                values.push(v);
            },
            None => {
                return Err(k);
            },
        }
        k += 1;
    }
    proof {
        lemma_first_bad_skips(text@, page_size as int, 0, FIELDS as int);
    }
    Ok(values)
}

/// Finds the fields of a record: one stretch of `text` for each position,
/// if the record has the layout of its format.
pub fn frame(text: &[char]) -> (r: Option<Vec<Span>>)
    ensures
        r is Some <==> framed(text@),
        r matches Some(spans) ==> covered(spans@, text@) == fields(text@) && spans@.len() == FIELDS
            && forall|i: int| 0 <= i < spans@.len() ==> (#[trigger] spans@[i]).within(text@.len()),
{
    let n = text.len();
    let space = find_first(text, ' ');
    if space >= n {
        return None;
    }
    let base = space + 1;
    let rest_of = slice_subrange(text, base, n);
    proof {
        assert(rest_of@ =~= rest(text@));
    }
    let open = find_first(rest_of, '(');
    let close = match find_last(rest_of, ')') {
        Some(c) => c,
        None => {
            proof {
                lemma_first_of(rest_of@, set!['(']);
            }
            return None;
        },
    };
    proof {
        lemma_last_of(rest_of@, ')');
    }
    if open >= close || rest_of.len() - close < 2 {
        return None;
    }
    let offset = base + close + 2;
    let tail = trim_newline(slice_subrange(rest_of, close + 2, rest_of.len()));
    proof {
        assert(rest_of@.subrange(close + 2, rest_of@.len() as int) =~= rest(text@).skip(
            name_close(text@) + 2,
        ));
    }
    let found = split(tail, ' ');
    if found.len() != TRAILING {
        assert(covered(found@, tail@).len() == found@.len());
        return None;
    }
    let mut spans: Vec<Span> = Vec::new();
    spans.push(Span { start: 0, end: space });
    spans.push(Span { start: base + open + 1, end: base + close });
    proof {
        assert(spans@[0].of(text@) =~= head(text@));
        assert(spans@[1].of(text@) =~= name(text@));
        assert(covered(found@, tail@).len() == found@.len());
    }
    let mut i: usize = 0;
    while i < found.len()
        invariant
            i <= found@.len(),
            n == text@.len(),
            found@.len() == TRAILING,
            spans@.len() == i + 2,
            offset + tail@.len() <= text@.len(),
            covered(found@, tail@) == trailing(text@),
            forall|k: int| 0 <= k < found@.len() ==> (#[trigger] found@[k]).within(tail@.len()),
            forall|k: int| 0 <= k < tail@.len() ==> tail@[k] == text@[offset + k],
            spans@[0].of(text@) == head(text@),
            spans@[1].of(text@) == name(text@),
            forall|k: int| 0 <= k < spans@.len() ==> (#[trigger] spans@[k]).within(text@.len()),
            forall|k: int|
                2 <= k < i + 2 ==> (#[trigger] spans@[k]).of(text@) == trailing(text@)[k - 2],
        decreases found@.len() - i,
    {
        let piece = found[i];
        assert(piece.within(tail@.len()));
        let span = Span { start: offset + piece.start, end: offset + piece.end };
        proof {
            assert(covered(found@, tail@)[i as int] == piece.of(tail@));
            assert(span.of(text@) =~= piece.of(tail@));
        }
        spans.push(span);
        i += 1;
    }
    proof {
        assert forall|k: int| 0 <= k < FIELDS implies covered(spans@, text@)[k] == fields(
            text@,
        )[k] by {
            if k >= 2 {
                assert(spans@[k].of(text@) == trailing(text@)[k - 2]);
            }
        }
        assert(covered(spans@, text@) =~= fields(text@));
    }
    Some(spans)
}

} // verus!
