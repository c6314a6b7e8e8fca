//! The command line of a process as its `cmdline` record holds it.
//!
//! The record is the arguments one after the other, each ended by a NUL
//! character or a space. A process without a command line, such as a kernel
//! thread, has an empty record.

use crate::text::{chars_of, covered, lemma_pieces_len, pieces, split_either, string_of};
use vstd::prelude::*;
use vstd::slice::slice_subrange;
use vstd::string::*;

verus! {

/// The texts of a sequence of strings.
pub open spec fn texts(strings: Seq<String>) -> Seq<Seq<char>> {
    Seq::new(strings.len(), |i: int| strings[i]@)
}

/// The arguments of a record, or nothing for an empty record. Every NUL and
/// every space ends an argument; what stands behind the last of them is one
/// more argument unless it is empty. A record that is not empty has at
/// least one argument.
pub open spec fn arguments(record: Seq<char>) -> Option<Seq<Seq<char>>> {
    if record.len() == 0 {
        None
    } else {
        let all = pieces(record, set!['\0', ' ']);
        if all.last().len() == 0 {
            Some(all.drop_last())
        } else {
            Some(all)
        }
    }
}

/// The arguments in one line, with a single space between each two.
pub open spec fn joined(args: Seq<Seq<char>>) -> Seq<char>
    decreases args.len(),
{
    if args.len() == 0 {
        Seq::empty()
    } else if args.len() == 1 {
        args[0]
    } else {
        joined(args.drop_last()) + seq![' '] + args.last()
    }
}

/// A record that is not empty has an argument.
pub proof fn lemma_arguments_not_empty(record: Seq<char>)
    requires
        record.len() > 0,
    ensures
        arguments(record) is Some,
        arguments(record)->Some_0.len() >= 1,
{
    let seps = set!['\0', ' '];
    let all = pieces(record, seps);
    lemma_pieces_len(record, seps);
    if all.len() == 1 {
        let n = crate::text::first_of(record, seps);
        crate::text::lemma_first_of(record, seps);
        if 0 <= n < record.len() {
            lemma_pieces_len(record.skip(n + 1), seps);
        }
        assert(all[0] == record);
    }
}

/// Splits a record into its arguments.
pub fn split_arguments(record: &str) -> (r: Option<Vec<String>>)
    ensures
        match r {
            Some(args) => arguments(record@) == Some(texts(args@)),
            None => arguments(record@) is None,
        },
{
    let chars = chars_of(record);
    let text = chars.as_slice();
    if text.len() == 0 {
        return None;
    }
    let spans = split_either(text, '\0', ' ');
    let ghost all = pieces(record@, set!['\0', ' ']);
    proof {
        lemma_pieces_len(record@, set!['\0', ' ']);
        assert(covered(spans@, text@).len() == spans@.len());
    }
    let n = spans.len();
    let last = spans[n - 1];
    proof {
        assert(last.within(text@.len()));
        assert(all.last() == last.of(text@));
    }
    let keep = if last.start == last.end {
        n - 1
    } else {
        n
    };
    let mut out: Vec<String> = Vec::new();
    let mut i: usize = 0;
    while i < keep
        invariant
            i <= keep <= spans@.len(),
            out@.len() == i,
            all == covered(spans@, text@),
            forall|k: int| 0 <= k < spans@.len() ==> (#[trigger] spans@[k]).within(text@.len()),
            forall|k: int| 0 <= k < i ==> (#[trigger] out@[k])@ == all[k],
        decreases keep - i,
    {
        let span = spans[i];
        assert(span.within(text@.len()));
        proof {
            assert(all[i as int] == span.of(text@));
        }
        out.push(string_of(slice_subrange(text, span.start, span.end)));
        i += 1;
    }
    proof {
        if last.start == last.end {
            assert(texts(out@) =~= all.drop_last());
        } else {
            assert(texts(out@) =~= all);
        }
    }
    Some(out)
}

/// Writes arguments in one line, with a single space between each two.
pub fn join_arguments(args: &Vec<String>) -> (r: String)
    ensures
        r@ == joined(texts(args@)),
{
    let mut out = String::new();
    let mut i: usize = 0;
    proof {
        reveal_strlit(" ");
        assert(texts(args@).take(0) =~= Seq::<Seq<char>>::empty());
    }
    while i < args.len()
        invariant
            i <= args@.len(),
            " "@ == seq![' '],
            out@ == joined(texts(args@).take(i as int)),
        decreases args@.len() - i,
    {
        let ghost before = texts(args@).take(i as int);
        let ghost after = texts(args@).take(i + 1);
        proof {
            assert(after.drop_last() =~= before);
            assert(after.last() == args@[i as int]@);
        }
        if i > 0 {
            out.append(" ");
        }
        out.append(args[i].as_str());
        proof {
            if i == 0 {
                assert(out@ =~= after[0]);
            }
        }
        i += 1;
    }
    proof {
        assert(texts(args@).take(args@.len() as int) =~= texts(args@));
    }
    out
}

} // verus!
