use vstd::prelude::*;

verus! {

/// Directory-entry type hints, as the directory read reports them.
pub const DT_UNKNOWN: u8 = 0;
pub const DT_DIR: u8 = 4;
pub const DT_LNK: u8 = 10;

/// The file-type field of a POSIX mode, and its values for a directory and a
/// symbolic link.
pub const S_IFMT: u32 = 0o170000;
pub const S_IFDIR: u32 = 0o040000;
pub const S_IFLNK: u32 = 0o120000;

/// What the walk needs of an entry's status.
#[derive(Clone, Copy, Debug, PartialEq, Eq, Structural)]
pub struct StatInfo {
    pub mode: u32,
    pub uid: u32,
    pub gid: u32,
    pub dev: u64,
}

/// The settings of one walk.
#[derive(Clone, Copy, Debug, PartialEq, Eq, Structural)]
pub struct WalkOptions {
    /// Record failures and go on, rather than stop every worker.
    pub ignore_errors: bool,
    /// Where set, the device of the root: directories on another device are
    /// recorded but not entered.
    pub root_device: Option<u64>,
}

/// What to do next with one directory entry.
#[derive(Clone, Copy, Debug, PartialEq, Eq, Structural)]
pub enum Plan {
    /// Nothing: the entry is `.` or `..`.
    Skip,
    /// Read the entry's status without following a link, then plan again.
    Stat,
    /// Read the link's target and record it.
    ReadLink,
    /// Open the directory, record it, and queue its contents if `enter`.
    Directory { enter: bool },
    /// Open the file, store its content and record it.
    File,
}

/// Whether a mode is of the given file type.
pub open spec fn mode_is(mode: u32, kind: u32) -> bool {
    mode & S_IFMT == kind
}

/// Whether an entry is a symbolic link: the type hint decides where it is known,
/// the status otherwise.
pub open spec fn is_link(hint: u8, stat: Option<StatInfo>) -> bool {
    if hint != DT_UNKNOWN {
        hint == DT_LNK
    } else {
        stat matches Some(s) && mode_is(s.mode, S_IFLNK)
    }
}

/// The plan for an entry named by a dot name or not (`dot`), with type hint
/// `hint` and the status read so far.
pub open spec fn plan_spec(dot: bool, hint: u8, stat: Option<StatInfo>, opts: WalkOptions) -> Plan {
    if dot {
        Plan::Skip
    } else if hint == DT_UNKNOWN && stat is None {
        Plan::Stat
    } else if is_link(hint, stat) {
        Plan::ReadLink
    } else {
        match stat {
            None => Plan::Stat,
            Some(s) => if mode_is(s.mode, S_IFDIR) {
                Plan::Directory {
                    enter: match opts.root_device {
                        Some(d) => s.dev == d,
                        None => true,
                    },
                }
            } else {
                Plan::File
            },
        }
    }
}

/// Decides the next step for one entry.
pub fn plan(dot: bool, hint: u8, stat: Option<StatInfo>, opts: WalkOptions) -> (r: Plan)
    ensures
        r == plan_spec(dot, hint, stat, opts),
{
    if dot {
        return Plan::Skip;
    }
    let link = if hint != DT_UNKNOWN {
        hint == DT_LNK
    } else {
        match stat {
            None => return Plan::Stat,
            Some(s) => s.mode & S_IFMT == S_IFLNK,
        }
    };
    if link {
        return Plan::ReadLink;
    }
    match stat {
        None => Plan::Stat,
        Some(s) => {
            if s.mode & S_IFMT == S_IFDIR {
                let enter = match opts.root_device {
                    Some(d) => s.dev == d,
                    None => true,
                };
                Plan::Directory { enter }
            } else {
                Plan::File
            }
        },
    }
}

/// Whether a worker goes on after a step.
#[derive(Clone, Copy, Debug, PartialEq, Eq, Structural)]
pub enum WalkState {
    Continue,
    Quit,
}

/// The state after a failure on one entry.
pub open spec fn after_error(opts: WalkOptions) -> WalkState {
    if opts.ignore_errors { WalkState::Continue } else { WalkState::Quit }
}

/// Whether a walk that met `errors` failures writes its layer.
pub open spec fn layer_written(opts: WalkOptions, errors: nat) -> bool {
    opts.ignore_errors || errors == 0
}

/// The state after a failure on one entry, once it has been reported: go on
/// only where the options say to ignore errors.
pub fn handle_error(opts: WalkOptions) -> (r: WalkState)
    ensures
        r == after_error(opts),
{
    if opts.ignore_errors {
        WalkState::Continue
    } else {
        WalkState::Quit
    }
}

/// One turn of a worker's loop.
#[derive(Clone, Copy, Debug, PartialEq, Eq, Structural)]
pub enum Step {
    /// Stop: a peer asked all to quit, or no work is left and none is coming.
    Exit,
    /// Process the entry just taken.
    Process,
    /// Try again: the queue is empty but a busy peer may still add to it.
    Spin,
}

/// Decides a worker's turn from the quit flag, whether the queue gave an
/// entry, and how many workers are processing one.
pub fn worker_step(quit: bool, got_entry: bool, active: usize) -> (r: Step)
    ensures
        quit ==> r == Step::Exit,
        !quit && got_entry ==> r == Step::Process,
        !quit && !got_entry ==> r == (if active == 0 { Step::Exit } else { Step::Spin }),
{
    if quit {
        Step::Exit
    } else if got_entry {
        Step::Process
    } else if active == 0 {
        Step::Exit
    } else {
        Step::Spin
    }
}

/// The number of workers for a machine with `available` hardware threads: two
/// are left free where there are more than four.
pub fn worker_count(available: usize) -> (r: usize)
    requires
        available >= 1,
    ensures
        r == (if available > 4 { (available - 2) as usize } else { available }),
        r >= 1,
{
    if available > 4 {
        available - 2
    } else {
        available
    }
}

/// Whether a finished walk that met `errors` failures may write its layer: only
/// where there were none, or where errors are ignored.
pub fn should_write_layer(opts: WalkOptions, errors: usize) -> (r: bool)
    ensures
        r == layer_written(opts, errors as nat),
{
    opts.ignore_errors || errors == 0
}

/// A walk that stops at errors writes no layer once any entry has failed:
/// the failing worker quits, and the layer is not written.
pub proof fn lemma_error_cancels(opts: WalkOptions, errors: usize)
    requires
        !opts.ignore_errors,
        errors > 0,
    ensures
        after_error(opts) == WalkState::Quit,
        !layer_written(opts, errors as nat),
{
}

/// The first buffer size for reading a link's target.
pub const LINK_BUF_START: usize = 256;

/// After a read of a link's target filled `filled` bytes of a buffer of
/// `capacity`: done where the buffer was not filled, else read again into one
/// twice as large.
pub fn readlink_step(filled: usize, capacity: usize) -> (r: Option<usize>)
    requires
        capacity <= usize::MAX / 2,
    ensures
        filled < capacity ==> r is None,
        filled >= capacity ==> r == Some((2 * capacity) as usize),
{
    if filled < capacity {
        None
    } else {
        Some(2 * capacity)
    }
}

/// The length of `p` once trailing `/` bytes are taken off.
pub open spec fn trimmed_len(p: Seq<u8>) -> int
    decreases p.len(),
{
    if p.len() > 0 && p.last() == 0x2fu8 {
        trimmed_len(p.drop_last())
    } else {
        p.len() as int
    }
}

/// The import root as given, without trailing `/` bytes.
pub fn trim_trailing_slashes(p: &[u8]) -> (r: Vec<u8>)
    ensures
        r@ == p@.subrange(0, trimmed_len(p@)),
{
    let mut n = p.len();
    assert(p@.subrange(0, n as int) =~= p@);
    while n > 0 && p[n - 1] == 0x2fu8
        invariant
            n <= p@.len(),
            trimmed_len(p@) == trimmed_len(p@.subrange(0, n as int)),
        decreases n,
    {
        assert(p@.subrange(0, n as int).drop_last() =~= p@.subrange(0, n - 1));
        n = n - 1;
    }
    let mut out: Vec<u8> = Vec::new();
    let mut i: usize = 0;
    while i < n
        invariant
            i <= n <= p@.len(),
            out@ == p@.subrange(0, i as int),
        decreases n - i,
    {
        out.push(p[i]);
        i = i + 1;
    }
    out
}

} // verus!
