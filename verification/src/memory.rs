//! The memory of a process as its `statm` record counts it.
//!
//! A record is one line of page counts with single spaces between them:
//! the program size, the resident set, the shared pages, the text, the
//! library, data and stack together, and the dirty pages. Fields are known
//! by their position in the record, counted from zero.

use crate::constants::Constants;
use crate::decimal::{is_unsigned, parse_u64, parse_u64_wrapping, unsigned_value};
use crate::error::Error;
use crate::text::{chars_of, covered, pieces, split, trim_newline, without_newline, Span};
use vstd::arithmetic::div_mod::{lemma_mod_multiples_basic, lemma_mul_mod_noop_left};
use vstd::prelude::*;
use vstd::slice::slice_subrange;

verus! {

/// The least number of fields of a record.
pub const COUNTS: usize = 6;

/// The position of the last field that must fit 64 bits once it is in bytes.
/// The fields behind it are brought to 64 bits by dropping what is above.
pub const LAST_CHECKED: usize = 3;

/// The memory that a process uses, in bytes.
#[derive(Clone, Copy, Debug, PartialEq, Eq, Structural)]
pub struct Memory {
    /// The size of the program.
    pub size: u64,
    /// The resident set size.
    pub resident: u64,
    /// The shared pages.
    pub share: u64,
    /// The text.
    pub text: u64,
    /// Data and stack.
    pub data: u64,
}

/// The memory of a process with unbounded numbers.
pub struct MemoryView {
    pub size: int,
    pub resident: int,
    pub share: int,
    pub text: int,
    pub data: int,
}

impl View for Memory {
    type V = MemoryView;

    open spec fn view(&self) -> MemoryView {
        MemoryView {
            size: self.size as int,
            resident: self.resident as int,
            share: self.share as int,
            text: self.text as int,
            data: self.data as int,
        }
    }
}

/// The fields of a record: a newline at the end of the record is dropped,
/// and what is left is cut at every single space.
pub open spec fn counts(statm: Seq<char>) -> Seq<Seq<char>> {
    pieces(without_newline(statm), set![' '])
}

/// Whether the field at a position is good: it writes an unsigned number,
/// and in the first four positions that number of pages is a number of
/// bytes that fits 64 bits.
pub open spec fn count_ok(text: Seq<char>, position: int, page_size: int) -> bool {
    is_unsigned(text) && (position <= LAST_CHECKED ==> unsigned_value(text) * page_size
        <= u64::MAX)
}

/// The bytes that the field at a position stands for: its pages times the
/// page size, in full in the first four positions and cut to the low 64
/// bits behind them.
pub open spec fn bytes(text: Seq<char>, position: int, page_size: int) -> int {
    if position <= LAST_CHECKED {
        unsigned_value(text) * page_size
    } else {
        (unsigned_value(text) * page_size) % 0x1_0000_0000_0000_0000
    }
}

/// The first position, from `from` on, whose field is not good, or the
/// number of fields where every field is.
pub open spec fn first_bad(fields: Seq<Seq<char>>, page_size: int, from: int) -> int
    decreases fields.len() - from,
{
    if from >= fields.len() {
        fields.len() as int
    } else if !count_ok(fields[from], from, page_size) {
        from
    } else {
        first_bad(fields, page_size, from + 1)
    }
}

/// What decoding a record gives. A record of fewer than six fields is
/// refused for its layout. Then the fields are judged in the order of the
/// record, and the first that is not good is reported by its position.
/// Otherwise the record gives the memory in bytes.
pub open spec fn decoded(statm: Seq<char>, page_size: int) -> Result<MemoryView, Error> {
    let fields = counts(statm);
    if fields.len() < COUNTS {
        Err(Error::Structure)
    } else if first_bad(fields, page_size, 0) < fields.len() {
        Err(Error::Parse { field: first_bad(fields, page_size, 0) as usize })
    } else {
        Ok(
            MemoryView {
                size: bytes(fields[0], 0, page_size),
                resident: bytes(fields[1], 1, page_size),
                share: bytes(fields[2], 2, page_size),
                text: bytes(fields[3], 3, page_size),
                data: bytes(fields[5], 5, page_size),
            },
        )
    }
}

/// Where the fields from `from` up to `to` are good, the first bad field
/// from `from` on is the first from `to` on.
pub proof fn lemma_first_bad_skips(fields: Seq<Seq<char>>, page_size: int, from: int, to: int)
    requires
        0 <= from <= to <= fields.len(),
        forall|j: int| from <= j < to ==> count_ok(#[trigger] fields[j], j, page_size),
    ensures
        first_bad(fields, page_size, from) == first_bad(fields, page_size, to),
    decreases to - from,
{
    if from < to {
        assert(count_ok(fields[from], from, page_size));
        lemma_first_bad_skips(fields, page_size, from + 1, to);
    }
}

/// The sizes of a decoded record, but for data and stack, are whole numbers
/// of pages, and none is negative.
pub proof fn lemma_whole_pages(statm: Seq<char>, page_size: int)
    requires
        page_size > 0,
        decoded(statm, page_size) is Ok,
    ensures
        ({
            let m = decoded(statm, page_size)->Ok_0;
            &&& m.size >= 0 && m.size % page_size == 0
            &&& m.resident >= 0 && m.resident % page_size == 0
            &&& m.share >= 0 && m.share % page_size == 0
            &&& m.text >= 0 && m.text % page_size == 0
            &&& 0 <= m.data < 0x1_0000_0000_0000_0000
        }),
{
    let fields = counts(statm);
    assert forall|k: int| 0 <= k <= 3 implies bytes(#[trigger] fields[k], k, page_size) >= 0
        && bytes(fields[k], k, page_size) % page_size == 0 by {
        let v = unsigned_value(fields[k]) as int;
        lemma_mod_multiples_basic(v, page_size);
        assert(v * page_size >= 0) by (nonlinear_arith)
            requires
                v >= 0,
                page_size > 0,
        ;
    }
}

/// The bytes of the field at a position, if the field is good.
fn count_bytes(text: &[char], position: usize, page_size: u64) -> (r: Option<u64>)
    requires
        page_size > 0,
    ensures
        r is Some <==> count_ok(text@, position as int, page_size as int),
        r matches Some(b) ==> b == bytes(text@, position as int, page_size as int),
{
    if position <= LAST_CHECKED {
        match parse_u64(text) {
            Some(pages) => pages.checked_mul(page_size),
            None => {
                proof {
                    let v = unsigned_value(text@) as int;
                    let p = page_size as int;
                    assert(v * p >= v) by (nonlinear_arith)
                        requires
                            v >= 0,
                            p > 0,
                    ;
                }
                None
            },
        }
    } else {
        match parse_u64_wrapping(text) {
            Some(pages) => {
                proof {
                    lemma_mul_mod_noop_left(
                        unsigned_value(text@) as int,
                        page_size as int,
                        0x1_0000_0000_0000_0000,
                    );
                }
                Some(pages.wrapping_mul(page_size))
            },
            None => None,
        }
    }
}

impl Memory {
    /// Decodes the `statm` record of a process.
    pub fn new(statm: &str, constants: &Constants) -> (r: Result<Memory, Error>)
        ensures
            match r {
                Ok(m) => decoded(statm@, constants.page()) == Ok::<MemoryView, Error>(m@),
                Err(e) => decoded(statm@, constants.page()) == Err::<MemoryView, Error>(e),
            },
    {
        let chars = chars_of(statm);
        let line = trim_newline(chars.as_slice());
        let spans: Vec<Span> = split(line, ' ');
        let page_size = constants.page_size();
        let ghost fields = counts(statm@);
        proof {
            assert(covered(spans@, line@).len() == spans@.len());
        }
        if spans.len() < COUNTS {
            return Err(Error::Structure);
        }
        let mut sizes: Vec<u64> = Vec::new();
        let mut k: usize = 0;
        while k < spans.len()
            invariant
                k <= spans@.len(),
                sizes@.len() == k,
                fields == counts(statm@),
                fields == covered(spans@, line@),
                fields.len() == spans@.len(),
                fields.len() >= COUNTS,
                page_size > 0,
                page_size == constants.page(),
                forall|i: int| 0 <= i < spans@.len() ==> (#[trigger] spans@[i]).within(line@.len()),
                forall|j: int| 0 <= j < k ==> count_ok(#[trigger] fields[j], j, page_size as int),
                forall|j: int|
                    0 <= j < k ==> #[trigger] sizes@[j] == bytes(fields[j], j, page_size as int),
            decreases spans@.len() - k,
        {
            let span = spans[k];
            assert(span.within(line@.len()));
            let piece = slice_subrange(line, span.start, span.end);
            proof {
                assert(fields[k as int] == span.of(line@));
                lemma_first_bad_skips(fields, page_size as int, 0, k as int);
            }
            match count_bytes(piece, k, page_size) {
                Some(b) => {
                    sizes.push(b);
                },
                None => {
                    return Err(Error::Parse { field: k });
                },
            }
            k += 1;
        }
        proof {
            lemma_first_bad_skips(fields, page_size as int, 0, fields.len() as int);
        }
        Ok(
            Memory {
                size: sizes[0],
                resident: sizes[1],
                share: sizes[2],
                text: sizes[3],
                data: sizes[5],
            },
        )
    }
}

} // verus!
