//! The processes of a system, decoded from what was read of each.
//!
//! Processes come and go while their records are read. A process that is
//! gone before its record could be read, or whose record cannot be decoded,
//! is left out of the listing; the others are listed all the same.

use crate::constants::Constants;
use crate::error::Error;
use crate::process::{decoded, Process, ProcessView, GID, UID};
use vstd::prelude::*;

verus! {

/// What was read of one process: the owner of its directory, and its `stat`
/// record.
#[derive(Debug)]
pub struct Source {
    /// The user that owns the directory of the process.
    pub uid: UID,
    /// The group that owns the directory of the process.
    pub gid: GID,
    /// The `stat` record.
    pub stat: String,
}

/// The views of a sequence of processes.
pub open spec fn views(processes: Seq<Process>) -> Seq<ProcessView> {
    Seq::new(processes.len(), |i: int| processes[i]@)
}

/// What one read gives: the error of a read that failed, and else what
/// decoding the record gives.
pub open spec fn outcome(
    read: Result<Source, Error>,
    ticks_per_second: int,
    page_size: int,
) -> Result<ProcessView, Error> {
    match read {
        Ok(source) => decoded(source.stat@, source.uid, source.gid, ticks_per_second, page_size),
        Err(e) => Err(e),
    }
}

/// The processes of the reads that gave one, in the order of the reads.
pub open spec fn listed(
    reads: Seq<Result<Source, Error>>,
    ticks_per_second: int,
    page_size: int,
) -> Seq<ProcessView>
    decreases reads.len(),
{
    if reads.len() == 0 {
        Seq::empty()
    } else {
        let before = listed(reads.drop_last(), ticks_per_second, page_size);
        match outcome(reads.last(), ticks_per_second, page_size) {
            Ok(process) => before.push(process),
            Err(_) => before,
        }
    }
}

/// The listing of two runs of reads, one after the other, is the listing
/// of the first and then the listing of the second.
pub proof fn lemma_listed_concat(
    first: Seq<Result<Source, Error>>,
    second: Seq<Result<Source, Error>>,
    ticks_per_second: int,
    page_size: int,
)
    ensures
        listed(first + second, ticks_per_second, page_size) == listed(
            first,
            ticks_per_second,
            page_size,
        ) + listed(second, ticks_per_second, page_size),
    decreases second.len(),
{
    if second.len() == 0 {
        assert(first + second =~= first);
        assert(listed(first, ticks_per_second, page_size) + Seq::<ProcessView>::empty() =~= listed(
            first,
            ticks_per_second,
            page_size,
        ));
    } else {
        let whole = first + second;
        assert(whole.drop_last() =~= first + second.drop_last());
        assert(whole.last() == second.last());
        lemma_listed_concat(first, second.drop_last(), ticks_per_second, page_size);
        let a = listed(first, ticks_per_second, page_size);
        let b = listed(second.drop_last(), ticks_per_second, page_size);
        match outcome(second.last(), ticks_per_second, page_size) {
            Ok(process) => {
                assert((a + b).push(process) =~= a + b.push(process));
            },
            Err(_) => {},
        }
    }
}

/// A read that gave no process changes nothing for the others: the listing
/// is that of the reads without it. So a process that vanished while the
/// system was scanned costs the listing that one process and no other.
pub proof fn lemma_failure_is_skipped(
    reads: Seq<Result<Source, Error>>,
    i: int,
    ticks_per_second: int,
    page_size: int,
)
    requires
        0 <= i < reads.len(),
        outcome(reads[i], ticks_per_second, page_size) is Err,
    ensures
        listed(reads, ticks_per_second, page_size) == listed(
            reads.remove(i),
            ticks_per_second,
            page_size,
        ),
{
    let head = reads.take(i);
    let one = seq![reads[i]];
    let tail = reads.skip(i + 1);
    assert(reads =~= (head + one) + tail);
    assert(reads.remove(i) =~= head + tail);
    assert(one.drop_last() =~= Seq::<Result<Source, Error>>::empty());
    assert(listed(one.drop_last(), ticks_per_second, page_size) =~= Seq::<ProcessView>::empty());
    assert(one.last() == reads[i]);
    assert(listed(one, ticks_per_second, page_size) =~= Seq::<ProcessView>::empty());
    lemma_listed_concat(head, one, ticks_per_second, page_size);
    lemma_listed_concat(head + one, tail, ticks_per_second, page_size);
    lemma_listed_concat(head, tail, ticks_per_second, page_size);
    assert(listed(head, ticks_per_second, page_size) + Seq::<ProcessView>::empty() =~= listed(
        head,
        ticks_per_second,
        page_size,
    ));
}

/// A read that gave a process has that process in the listing, behind the
/// processes of the reads before it and before those of the reads after it.
pub proof fn lemma_success_is_listed(
    reads: Seq<Result<Source, Error>>,
    i: int,
    ticks_per_second: int,
    page_size: int,
)
    requires
        0 <= i < reads.len(),
        outcome(reads[i], ticks_per_second, page_size) is Ok,
    ensures
        listed(reads, ticks_per_second, page_size) == listed(
            reads.take(i),
            ticks_per_second,
            page_size,
        ).push(outcome(reads[i], ticks_per_second, page_size)->Ok_0) + listed(
            reads.skip(i + 1),
            ticks_per_second,
            page_size,
        ),
{
    let head = reads.take(i);
    let one = seq![reads[i]];
    let tail = reads.skip(i + 1);
    assert(reads =~= (head + one) + tail);
    assert((head + one).drop_last() =~= head);
    lemma_listed_concat(head + one, tail, ticks_per_second, page_size);
}

/// Decodes the record of every read that succeeded, and lists the processes
/// that this gave, in the order of the reads.
pub fn all(reads: &Vec<Result<Source, Error>>, constants: &Constants) -> (r: Vec<Process>)
    ensures
        views(r@) == listed(reads@, constants.ticks(), constants.page()),
{
    let mut out: Vec<Process> = Vec::new();
    let mut i: usize = 0;
    proof {
        assert(reads@.take(0) =~= Seq::<Result<Source, Error>>::empty());
        assert(views(out@) =~= Seq::<ProcessView>::empty());
    }
    while i < reads.len()
        invariant
            i <= reads@.len(),
            views(out@) == listed(reads@.take(i as int), constants.ticks(), constants.page()),
        decreases reads@.len() - i,
    {
        let ghost before = views(out@);
        proof {
            assert(reads@.take(i + 1).drop_last() =~= reads@.take(i as int));
            assert(reads@.take(i + 1).last() == reads@[i as int]);
        }
        match &reads[i] {
            Ok(source) => {
                match Process::new(source.stat.as_str(), source.uid, source.gid, constants) {
                    Ok(process) => {
                        out.push(process);
                        proof {
                            assert(views(out@) =~= before.push(process@));
                        }
                    },
                    Err(_) => {},
                }
            },
            Err(_) => {},
        }
        i += 1;
    }
    proof {
        assert(reads@.take(reads@.len() as int) =~= reads@);
    }
    out
}

} // verus!
