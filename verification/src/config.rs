//! Run configuration: resolving the worker count from the command-line
//! arguments, and the usage message shown when no valid mode is given.
//!
//! The recognized modes are `-physical`, `-logical` and `-threads:<N>`.
//! Arguments are scanned left to right and the last one that names a
//! mode wins; a `-threads:` argument whose count does not parse names
//! none. A resolved count of zero is rejected.

use vstd::prelude::*;

use crate::digits::all_digits;
use crate::digits::dec_value;
use crate::digits::parse_usize_decimal;

verus! {

/// Number of trials each worker runs in a normal run.
pub const DEFAULT_ITERATIONS: u64 = 1_000_000_000;

/// Half-width of the square sampling domain, in whole units.
pub const DEFAULT_RADIUS: u64 = 10;

/// The fixed parameters of one run.
pub struct RunConfig {
    /// How many workers to launch.
    pub workers: usize,
    /// Trials each worker runs.
    pub iterations: u64,
    /// Half-width of the square sampling domain, in whole units.
    pub radius: u64,
}

impl RunConfig {
    /// A usable configuration: a worker, a trial and a nonempty domain.
    pub open spec fn wf(self) -> bool {
        self.workers > 0 && self.iterations > 0 && self.radius > 0
    }

    /// A run with the given worker count and the default trial count
    /// and sampling domain.
    pub fn new(workers: usize) -> (r: RunConfig)
        requires
            workers > 0,
        ensures
            r.workers == workers,
            r.iterations == DEFAULT_ITERATIONS,
            r.radius == DEFAULT_RADIUS,
            r.wf(),
    {
        RunConfig { workers, iterations: DEFAULT_ITERATIONS, radius: DEFAULT_RADIUS }
    }
}

/// The mode named by a recognized command-line argument.
#[derive(Clone, Copy, Debug, PartialEq, Eq, Structural)]
pub enum Mode {
    /// One worker per physical core.
    Physical,
    /// One worker per logical core.
    Logical,
    /// Exactly this many workers.
    Threads(usize),
}

/// The mode that a single argument names, if any.
pub open spec fn arg_action(a: Seq<char>) -> Option<Mode> {
    if a == "-physical"@ {
        Some(Mode::Physical)
    } else if a == "-logical"@ {
        Some(Mode::Logical)
    } else if a.len() >= "-threads:"@.len() && a.subrange(0, "-threads:"@.len() as int)
        == "-threads:"@ {
        let digits = a.subrange("-threads:"@.len() as int, a.len() as int);
        if digits.len() > 0 && all_digits(digits) && dec_value(digits) <= usize::MAX {
            Some(Mode::Threads(dec_value(digits) as usize))
        } else {
            None
        }
    } else {
        None
    }
}

/// The mode resolved from a run of arguments: the last one that names
/// a mode wins.
pub open spec fn resolved_mode(args: Seq<Seq<char>>) -> Option<Mode>
    decreases args.len(),
{
    if args.len() == 0 {
        None
    } else {
        match arg_action(args.last()) {
            Some(m) => Some(m),
            None => resolved_mode(args.drop_last()),
        }
    }
}

/// The views of the arguments after the program name.
pub open spec fn tail_views(args: Seq<String>) -> Seq<Seq<char>> {
    if args.len() == 0 {
        Seq::empty()
    } else {
        args.subrange(1, args.len() as int).map_values(|s: String| s@)
    }
}

/// Relies on num_cpus::get_physical for the physical core count; the
/// crate documents that it always returns at least one.
#[verifier::external_body]
fn physical_core_count() -> (r: usize)
    ensures
        r >= 1,
{
    num_cpus::get_physical()
}

/// Relies on num_cpus::get for the logical core count; the crate
/// documents that it always returns at least one.
#[verifier::external_body]
fn logical_core_count() -> (r: usize)
    ensures
        r >= 1,
{
    num_cpus::get()
}

/// Whether two string slices hold the same characters.
fn str_eq_str(a: &str, b: &str) -> (r: bool)
    ensures
        r == (a@ == b@),
{
    let alen = a.unicode_len();
    let blen = b.unicode_len();
    if alen != blen {
        return false;
    }
    let mut i: usize = 0;
    while i < alen
        invariant
            0 <= i <= alen,
            alen == a@.len(),
            blen == b@.len(),
            alen == blen,
            forall|k: int| 0 <= k < i ==> a@[k] == b@[k],
        decreases alen - i,
    {
        if a.get_char(i) != b.get_char(i) {
            return false;
        }
        i = i + 1;
    }
    proof {
        assert(a@ =~= b@);
    }
    true
}

/// The mode named by one argument, if any.
fn arg_mode(a: &str) -> (r: Option<Mode>)
    ensures
        r == arg_action(a@),
{
    proof {
        reveal_strlit("-threads:");
    }
    if str_eq_str(a, "-physical") {
        Some(Mode::Physical)
    } else if str_eq_str(a, "-logical") {
        Some(Mode::Logical)
    } else if a.unicode_len() >= 9 {
        let prefix = a.substring_char(0, 9);
        if str_eq_str(prefix, "-threads:") {
            let rest = a.substring_char(9, a.unicode_len());
            match parse_usize_decimal(rest) {
                Some(v) => Some(Mode::Threads(v)),
                None => None,
            }
        } else {
            None
        }
    } else {
        None
    }
}

/// Resolves the worker count from the full argument list, program name
/// first. Returns the count exactly when the arguments name a mode and
/// the resolved count is positive; a count from `-physical` or
/// `-logical` is the host's core count, which is at least one.
pub fn parse_args(args: &Vec<String>) -> (r: Option<usize>)
    ensures
        match resolved_mode(tail_views(args@)) {
            None => r is None,
            Some(Mode::Threads(v)) => r == (if v > 0 {
                Some(v)
            } else {
                None::<usize>
            }),
            Some(Mode::Physical) => r is Some && r->Some_0 >= 1,
            Some(Mode::Logical) => r is Some && r->Some_0 >= 1,
        },
{
    let ghost t = tail_views(args@);
    let mut mode: Option<Mode> = None;
    if args.len() == 0 {
        return None;
    }
    let mut i: usize = 1;
    while i < args.len()
        invariant
            1 <= i <= args.len(),
            t == tail_views(args@),
            mode == resolved_mode(t.subrange(0, i - 1)),
        decreases args.len() - i,
    {
        proof {
            assert(t.subrange(0, i as int).drop_last() =~= t.subrange(0, i - 1));
            assert(t.subrange(0, i as int).last() == t[i - 1]);
            assert(t[i - 1] == args@[i as int]@);
        }
        match arg_mode(args[i].as_str()) {
            Some(m) => {
                mode = Some(m);
            },
            None => {
            },
        }
        i = i + 1;
    }
    proof {
        assert(t.subrange(0, args@.len() - 1) =~= t);
    }
    match mode {
        None => None,
        Some(Mode::Physical) => Some(physical_core_count()),
        Some(Mode::Logical) => Some(logical_core_count()),
        Some(Mode::Threads(v)) => if v > 0 {
            Some(v)
        } else {
            None
        },
    }
}

/// Relies on String::push: appends one character to the string.
#[verifier::external_body]
fn push_char(s: &mut String, c: char)
    ensures
        final(s)@ == old(s)@.push(c),
{
    s.push(c)
}

/// The characters of `s` after its last path separator; all of `s`
/// when it has none.
pub open spec fn after_last_slash(s: Seq<char>) -> Seq<char>
    decreases s.len(),
{
    if s.len() == 0 {
        s
    } else if s.last() == '/' {
        Seq::empty()
    } else {
        after_last_slash(s.drop_last()).push(s.last())
    }
}

/// The file name of the invoking executable: the part of the program
/// path after its last separator.
pub fn base_name(prog: &str) -> (r: String)
    ensures
        r@ == after_last_slash(prog@),
{
    let len = prog.unicode_len();
    let mut acc = String::new();
    let mut j: usize = 0;
    proof {
        assert(prog@.subrange(0, 0) =~= Seq::<char>::empty());
    }
    while j < len
        invariant
            0 <= j <= len,
            len == prog@.len(),
            acc@ == after_last_slash(prog@.subrange(0, j as int)),
        decreases len - j,
    {
        let c = prog.get_char(j);
        proof {
            assert(prog@.subrange(0, j + 1).drop_last() =~= prog@.subrange(0, j as int));
        }
        if c == '/' {
            acc = String::new();
        } else {
            push_char(&mut acc, c);
        }
        j = j + 1;
    }
    proof {
        assert(prog@.subrange(0, len as int) =~= prog@);
    }
    acc
}

/// The usage message: one line naming the executable and the three
/// recognized invocations, then one line explaining each.
pub open spec fn usage_text(exe: Seq<char>) -> Seq<char> {
    "Usage: "@ + exe + " <-physical>|<-logical>|<-threads:thread_count>\n"@ + "\twhere:\n"@
        + "\t\t-physical means use as many threads as physical cores\n"@
        + "\t\t-logical means use as many threads as logical cores\n"@
        + "\t\t-threads: means use as many threads as requested (>0)"@
}

/// Builds the usage message around the invoking executable's name.
pub fn usage_message(prog: &str) -> (r: String)
    ensures
        r@ == usage_text(after_last_slash(prog@)),
{
    let exe = base_name(prog);
    let mut m = String::from_str("Usage: ");
    m.append(exe.as_str());
    m.append(" <-physical>|<-logical>|<-threads:thread_count>\n");
    m.append("\twhere:\n");
    m.append("\t\t-physical means use as many threads as physical cores\n");
    m.append("\t\t-logical means use as many threads as logical cores\n");
    m.append("\t\t-threads: means use as many threads as requested (>0)");
    m
}

} // verus!
