//! A process as its `stat` record describes it at one moment.

use crate::cmdline::{arguments, join_arguments, joined, split_arguments, texts};
use crate::constants::Constants;
use crate::error::Error;
use crate::memory::{Memory, MemoryView};
use crate::stat::{decode_fields, fields, first_bad, frame, framed, name, value, FIELDS};
use crate::state::State;
use crate::text::{chars_of, string_of};
use vstd::prelude::*;
use vstd::slice::slice_subrange;
use vstd::std_specs::cmp::{PartialEqSpec, PartialEqSpecImpl};

verus! {

/// The id of a process.
pub type PID = i32;

/// The id of a user.
pub type UID = u32;

/// The id of a group.
pub type GID = u32;

/// A fraction of two whole numbers.
pub struct Ratio {
    pub num: int,
    pub den: int,
}

/// A time in seconds, held exactly as a count of clock ticks and the number
/// of ticks in a second.
#[derive(Clone, Copy, Debug)]
pub struct Seconds {
    /// The clock ticks counted.
    pub ticks: i128,
    /// The clock ticks in one second.
    pub per_second: u64,
}

impl View for Seconds {
    type V = Ratio;

    open spec fn view(&self) -> Ratio {
        Ratio { num: self.ticks as int, den: self.per_second as int }
    }
}

/// What a record says of a process, field by field.
#[derive(Clone, Debug)]
pub struct Process {
    /// The id of the process.
    pub pid: PID,
    /// The user that owns the process.
    pub uid: UID,
    /// The group that owns the process.
    pub gid: GID,
    /// The file name of the executable.
    pub comm: String,
    /// The state of the process.
    pub state: State,
    /// The id of the parent process.
    pub ppid: PID,
    /// The id of the process group.
    pub pgrp: i32,
    /// The id of the session.
    pub session: i32,
    /// The controlling terminal.
    pub tty_nr: i32,
    /// The foreground process group of the controlling terminal.
    pub tpgid: i32,
    /// The kernel's flags of the process.
    pub flags: u32,
    /// Minor faults.
    pub minflt: u64,
    /// Minor faults of the children waited for.
    pub cminflt: u64,
    /// Major faults.
    pub majflt: u64,
    /// Major faults of the children waited for.
    pub cmajflt: u64,
    /// Time scheduled in user mode.
    pub utime: Seconds,
    /// Time scheduled in kernel mode.
    pub stime: Seconds,
    /// Time that the children waited for were scheduled in user mode.
    pub cutime: Seconds,
    /// Time that the children waited for were scheduled in kernel mode.
    pub cstime: Seconds,
    /// The priority.
    pub priority: i64,
    /// The nice value.
    pub nice: i64,
    /// The number of threads.
    pub num_threads: i64,
    /// When the process started after the system booted, in clock ticks.
    pub starttime: u64,
    /// The size of the virtual memory, in bytes.
    pub vsize: u64,
    /// The resident set size, in bytes.
    pub rss: i64,
    /// The soft limit on the resident set size, in bytes.
    pub rsslim: u64,
    /// The address above which program text can run.
    pub startcode: u64,
    /// The address below which program text can run.
    pub endcode: u64,
    /// The address of the bottom of the stack.
    pub startstack: u64,
    /// The stack pointer.
    pub kstkesp: u64,
    /// The instruction pointer.
    pub kstkeip: u64,
    /// The channel in which the process waits.
    pub wchan: u64,
    /// The signal sent to the parent when the process dies.
    pub exit_signal: i32,
    /// The processor last run on.
    pub processor: i32,
    /// The real-time scheduling priority.
    pub rt_priority: u32,
    /// The scheduling policy.
    pub policy: u32,
    /// The summed delays of block I/O, in clock ticks.
    pub delayacct_blkio_ticks: u64,
    /// Guest time of the process.
    pub guest_time: Seconds,
    /// Guest time of the children.
    pub cguest_time: Seconds,
    /// The address above which initialised and uninitialised data lie.
    pub start_data: u64,
    /// The address below which initialised and uninitialised data lie.
    pub end_data: u64,
    /// The address above which the heap can grow.
    pub start_brk: u64,
    /// The address above which the arguments lie.
    pub arg_start: u64,
    /// The address below which the arguments lie.
    pub arg_end: u64,
    /// The address above which the environment lies.
    pub env_start: u64,
    /// The address below which the environment lies.
    pub env_end: u64,
    /// The exit status of the thread.
    pub exit_code: i32,
}

/// A process as a mathematical record: the name as a sequence of
/// characters, the numbers unbounded, the times as fractions.
pub struct ProcessView {
    pub pid: int,
    pub uid: int,
    pub gid: int,
    pub comm: Seq<char>,
    pub state: State,
    pub ppid: int,
    pub pgrp: int,
    pub session: int,
    pub tty_nr: int,
    pub tpgid: int,
    pub flags: int,
    pub minflt: int,
    pub cminflt: int,
    pub majflt: int,
    pub cmajflt: int,
    pub utime: Ratio,
    pub stime: Ratio,
    pub cutime: Ratio,
    pub cstime: Ratio,
    pub priority: int,
    pub nice: int,
    pub num_threads: int,
    pub starttime: int,
    pub vsize: int,
    pub rss: int,
    pub rsslim: int,
    pub startcode: int,
    pub endcode: int,
    pub startstack: int,
    pub kstkesp: int,
    pub kstkeip: int,
    pub wchan: int,
    pub exit_signal: int,
    pub processor: int,
    pub rt_priority: int,
    pub policy: int,
    pub delayacct_blkio_ticks: int,
    pub guest_time: Ratio,
    pub cguest_time: Ratio,
    pub start_data: int,
    pub end_data: int,
    pub start_brk: int,
    pub arg_start: int,
    pub arg_end: int,
    pub env_start: int,
    pub env_end: int,
    pub exit_code: int,
}

impl View for Process {
    type V = ProcessView;

    open spec fn view(&self) -> ProcessView {
        ProcessView {
            pid: self.pid as int,
            uid: self.uid as int,
            gid: self.gid as int,
            comm: self.comm@,
            state: self.state,
            ppid: self.ppid as int,
            pgrp: self.pgrp as int,
            session: self.session as int,
            tty_nr: self.tty_nr as int,
            tpgid: self.tpgid as int,
            flags: self.flags as int,
            minflt: self.minflt as int,
            cminflt: self.cminflt as int,
            majflt: self.majflt as int,
            cmajflt: self.cmajflt as int,
            utime: self.utime@,
            stime: self.stime@,
            cutime: self.cutime@,
            cstime: self.cstime@,
            priority: self.priority as int,
            nice: self.nice as int,
            num_threads: self.num_threads as int,
            starttime: self.starttime as int,
            vsize: self.vsize as int,
            rss: self.rss as int,
            rsslim: self.rsslim as int,
            startcode: self.startcode as int,
            endcode: self.endcode as int,
            startstack: self.startstack as int,
            kstkesp: self.kstkesp as int,
            kstkeip: self.kstkeip as int,
            wchan: self.wchan as int,
            exit_signal: self.exit_signal as int,
            processor: self.processor as int,
            rt_priority: self.rt_priority as int,
            policy: self.policy as int,
            delayacct_blkio_ticks: self.delayacct_blkio_ticks as int,
            guest_time: self.guest_time@,
            cguest_time: self.cguest_time@,
            start_data: self.start_data as int,
            end_data: self.end_data as int,
            start_brk: self.start_brk as int,
            arg_start: self.arg_start as int,
            arg_end: self.arg_end as int,
            env_start: self.env_start as int,
            env_end: self.env_end as int,
            exit_code: self.exit_code as int,
        }
    }
}

/// What a record whose every field is a value of its kind says of its
/// process. The six times are the raw tick counts over the ticks in a
/// second; the resident set size is in bytes; the start time and the block
/// I/O delay stay in ticks.
pub open spec fn snapshot(
    stat: Seq<char>,
    uid: UID,
    gid: GID,
    ticks_per_second: int,
    page_size: int,
) -> ProcessView {
    ProcessView {
        pid: value(stat, 0, page_size),
        uid: uid as int,
        gid: gid as int,
        comm: name(stat),
        state: State::of_text(fields(stat)[2])->Ok_0,
        ppid: value(stat, 3, page_size),
        pgrp: value(stat, 4, page_size),
        session: value(stat, 5, page_size),
        tty_nr: value(stat, 6, page_size),
        tpgid: value(stat, 7, page_size),
        flags: value(stat, 8, page_size),
        minflt: value(stat, 9, page_size),
        cminflt: value(stat, 10, page_size),
        majflt: value(stat, 11, page_size),
        cmajflt: value(stat, 12, page_size),
        utime: Ratio { num: value(stat, 13, page_size), den: ticks_per_second },
        stime: Ratio { num: value(stat, 14, page_size), den: ticks_per_second },
        cutime: Ratio { num: value(stat, 15, page_size), den: ticks_per_second },
        cstime: Ratio { num: value(stat, 16, page_size), den: ticks_per_second },
        priority: value(stat, 17, page_size),
        nice: value(stat, 18, page_size),
        num_threads: value(stat, 19, page_size),
        starttime: value(stat, 21, page_size),
        vsize: value(stat, 22, page_size),
        rss: value(stat, 23, page_size),
        rsslim: value(stat, 24, page_size),
        startcode: value(stat, 25, page_size),
        endcode: value(stat, 26, page_size),
        startstack: value(stat, 27, page_size),
        kstkesp: value(stat, 28, page_size),
        kstkeip: value(stat, 29, page_size),
        wchan: value(stat, 34, page_size),
        exit_signal: value(stat, 37, page_size),
        processor: value(stat, 38, page_size),
        rt_priority: value(stat, 39, page_size),
        policy: value(stat, 40, page_size),
        delayacct_blkio_ticks: value(stat, 41, page_size),
        guest_time: Ratio { num: value(stat, 42, page_size), den: ticks_per_second },
        cguest_time: Ratio { num: value(stat, 43, page_size), den: ticks_per_second },
        start_data: value(stat, 44, page_size),
        end_data: value(stat, 45, page_size),
        start_brk: value(stat, 46, page_size),
        arg_start: value(stat, 47, page_size),
        arg_end: value(stat, 48, page_size),
        env_start: value(stat, 49, page_size),
        env_end: value(stat, 50, page_size),
        exit_code: value(stat, 51, page_size),
    }
}

/// What decoding a record gives. The layout is judged first, and a record
/// without it is refused whatever its fields hold. Then the fields are
/// judged in the order of the record, and the first that is no value of its
/// kind is reported: the status field as an invalid state, any other by its
/// position. Only a record with nothing wrong in it gives a process.
pub open spec fn decoded(
    stat: Seq<char>,
    uid: UID,
    gid: GID,
    ticks_per_second: int,
    page_size: int,
) -> Result<ProcessView, Error> {
    if !framed(stat) {
        Err(Error::Structure)
    } else if first_bad(stat, page_size, 0) == 2 {
        Err(Error::InvalidState)
    } else if first_bad(stat, page_size, 0) < FIELDS {
        Err(Error::Parse { field: first_bad(stat, page_size, 0) as usize })
    } else {
        Ok(snapshot(stat, uid, gid, ticks_per_second, page_size))
    }
}

impl Process {
    /// Decodes the `stat` record of a process. The record does not name the
    /// owner of the process: `uid` and `gid` are those of the process's
    /// directory, read beside the record.
    pub fn new(stat: &str, uid: UID, gid: GID, constants: &Constants) -> (r: Result<Process, Error>)
        ensures
            match r {
                Ok(p) => decoded(stat@, uid, gid, constants.ticks(), constants.page()) == Ok::<
                    ProcessView,
                    Error,
                >(p@),
                Err(e) => decoded(stat@, uid, gid, constants.ticks(), constants.page()) == Err::<
                    ProcessView,
                    Error,
                >(e),
            },
    {
        let chars = chars_of(stat);
        let text = chars.as_slice();
        let spans = match frame(text) {
            Some(spans) => spans,
            None => {
                return Err(Error::Structure);
            },
        };
        let per_second = constants.ticks_per_second();
        let page_size = constants.page_size();
        let v = match decode_fields(text, &spans, page_size) {
            Ok(values) => values,
            Err(k) => {
                if k == 2 {
                    return Err(Error::InvalidState);
                } else {
                    return Err(Error::Parse { field: k });
                }
            },
        };
        proof {
            crate::stat::lemma_first_bad(stat@, page_size as int, 0);
            assert(crate::text::covered(spans@, text@)[1] == spans@[1].of(text@));
            assert(crate::text::covered(spans@, text@)[2] == spans@[2].of(text@));
        }
        assert(spans@[1].within(text@.len()));
        assert(spans@[2].within(text@.len()));
        let state = match State::from_chars(slice_subrange(text, spans[2].start, spans[2].end)) {
            Ok(state) => state,
            Err(e) => {
                return Err(e);
            },
        };
        let comm = string_of(slice_subrange(text, spans[1].start, spans[1].end));
        let p = Process {
            pid: v[0] as i32,
            uid,
            gid,
            comm,
            state,
            ppid: v[3] as i32,
            pgrp: v[4] as i32,
            session: v[5] as i32,
            tty_nr: v[6] as i32,
            tpgid: v[7] as i32,
            flags: v[8] as u32,
            minflt: v[9] as u64,
            cminflt: v[10] as u64,
            majflt: v[11] as u64,
            cmajflt: v[12] as u64,
            utime: Seconds { ticks: v[13], per_second },
            stime: Seconds { ticks: v[14], per_second },
            cutime: Seconds { ticks: v[15], per_second },
            cstime: Seconds { ticks: v[16], per_second },
            priority: v[17] as i64,
            nice: v[18] as i64,
            num_threads: v[19] as i64,
            starttime: v[21] as u64,
            vsize: v[22] as u64,
            rss: v[23] as i64,
            rsslim: v[24] as u64,
            startcode: v[25] as u64,
            endcode: v[26] as u64,
            startstack: v[27] as u64,
            kstkesp: v[28] as u64,
            kstkeip: v[29] as u64,
            wchan: v[34] as u64,
            exit_signal: v[37] as i32,
            processor: v[38] as i32,
            rt_priority: v[39] as u32,
            policy: v[40] as u32,
            delayacct_blkio_ticks: v[41] as u64,
            guest_time: Seconds { ticks: v[42], per_second },
            cguest_time: Seconds { ticks: v[43], per_second },
            start_data: v[44] as u64,
            end_data: v[45] as u64,
            start_brk: v[46] as u64,
            arg_start: v[47] as u64,
            arg_end: v[48] as u64,
            env_start: v[49] as u64,
            env_end: v[50] as u64,
            exit_code: v[51] as i32,
        };
        Ok(p)
    }

    /// Decodes the `cmdline` record read for this process into its
    /// arguments. An empty record gives nothing, which is not the same as
    /// no arguments.
    pub fn cmdline_vec(&self, cmdline: &str) -> (r: Option<Vec<String>>)
        ensures
            match r {
                Some(args) => arguments(cmdline@) == Some(texts(args@)),
                None => arguments(cmdline@) is None,
            },
    {
        split_arguments(cmdline)
    }

    /// Decodes the `cmdline` record read for this process into one line,
    /// the arguments with single spaces between them.
    pub fn cmdline(&self, cmdline: &str) -> (r: Option<String>)
        ensures
            match r {
                Some(line) => arguments(cmdline@) is Some && line@ == joined(
                    arguments(cmdline@)->Some_0,
                ),
                None => arguments(cmdline@) is None,
            },
    {
        match split_arguments(cmdline) {
            Some(args) => Some(join_arguments(&args)),
            None => None,
        }
    }

    /// Decodes the `statm` record read for this process. Nothing is kept of
    /// it: every call decodes the record that it is given.
    pub fn memory(&self, statm: &str, constants: &Constants) -> (r: Result<Memory, Error>)
        ensures
            match r {
                Ok(m) => crate::memory::decoded(statm@, constants.page()) == Ok::<
                    MemoryView,
                    Error,
                >(m@),
                Err(e) => crate::memory::decoded(statm@, constants.page()) == Err::<
                    MemoryView,
                    Error,
                >(e),
            },
    {
        Memory::new(statm, constants)
    }

    /// Whether the process was alive when its record was read: whether its
    /// state is any but `Zombie`.
    pub fn is_alive(&self) -> (r: bool)
        ensures
            r == (self.state != State::Zombie),
    {
        match self.state {
            State::Zombie => false,
            _ => true,
        }
    }
}

/// A record whose fields behind the name are not exactly fifty gives no
/// process, whatever else it holds: it is refused for its layout.
pub proof fn lemma_field_count_is_judged(
    stat: Seq<char>,
    uid: UID,
    gid: GID,
    ticks_per_second: int,
    page_size: int,
)
    requires
        crate::stat::trailing(stat).len() != crate::stat::TRAILING,
    ensures
        decoded(stat, uid, gid, ticks_per_second, page_size) == Err::<ProcessView, Error>(
            Error::Structure,
        ),
{
}

/// Decoding gives all of a process or nothing of it: an error exactly where
/// the layout or some field is wrong, and else the process that every field
/// of the record has a part in.
pub proof fn lemma_decoded_whole(
    stat: Seq<char>,
    uid: UID,
    gid: GID,
    ticks_per_second: int,
    page_size: int,
)
    ensures
        decoded(stat, uid, gid, ticks_per_second, page_size) is Ok <==> framed(stat) && forall|
            k: int,
        |
            0 <= k < FIELDS ==> crate::stat::field_ok(
                #[trigger] fields(stat)[k],
                crate::stat::kind(k),
                page_size,
            ),
{
    crate::stat::lemma_first_bad(stat, page_size, 0);
    if framed(stat) && first_bad(stat, page_size, 0) == FIELDS {
    }
}

/// Two processes are equal exactly where they agree in the process id and
/// in the start time, whatever their other fields hold.
pub proof fn lemma_identity(a: Process, b: Process)
    ensures
        (a.pid == b.pid && a.starttime == b.starttime) ==> PartialEqSpec::eq_spec(&a, &b),
        (a.pid == b.pid && a.starttime != b.starttime) ==> !PartialEqSpec::eq_spec(&a, &b),
        a.pid != b.pid ==> !PartialEqSpec::eq_spec(&a, &b),
        PartialEqSpec::eq_spec(&a, &a),
        PartialEqSpec::eq_spec(&a, &b) == PartialEqSpec::eq_spec(&b, &a),
{
}

impl PartialEq for Process {
    /// Two values describe the same process where they agree in the process
    /// id and in the start time: the system gives an id out again once its
    /// process is gone, and the pair tells the two apart.
    fn eq(&self, other: &Process) -> (r: bool) {
        self.pid == other.pid && self.starttime == other.starttime
    }
}

impl PartialEqSpecImpl for Process {
    open spec fn obeys_eq_spec() -> bool {
        true
    }

    open spec fn eq_spec(&self, other: &Process) -> bool {
        self.pid == other.pid && self.starttime == other.starttime
    }
}

} // verus!
