//! The rules of the zlob engine. The engine itself is native code built with
//! Zig and is not part of this build (`--engine zlob` is refused by
//! `WalkOptions::validate`); what it would be told, and how its entries are
//! judged, is stated here.
use vstd::prelude::*;
use crate::emit::{Timestamp, WalkedMeta};
use crate::options::{WalkOptions, is_skip_name};

verus! {

/// Worker threads for zlob, whose own 0 means one worker per CPU and 1 the calling thread:
/// no `--threads` gives 0, `--threads 0` (serial) gives 1.
pub fn zlob_threads(threads: Option<usize>) -> (n: usize)
    ensures
        n == match threads {
            None => 0,
            Some(t) => if t == 0 {
                1
            } else {
                t
            },
        },
{
    match threads {
        None => 0,
        Some(0) => 1,
        Some(n) => n,
    }
}

/// The depth limit handed to zlob: none when the walk is unbounded.
pub fn zlob_max_depth(max_depth: usize) -> (d: Option<usize>)
    ensures
        d == if max_depth == usize::MAX {
            None::<usize>
        } else {
            Some(max_depth)
        },
{
    if max_depth == usize::MAX {
        None
    } else {
        Some(max_depth)
    }
}

/// The flags handed to zlob.
#[derive(Clone, Copy, Debug, PartialEq, Eq, Structural)]
pub struct ZlobFlags {
    pub skip_hidden: bool,
    pub follow_symlinks: bool,
}

pub fn walk_flags(options: &WalkOptions) -> (f: ZlobFlags)
    ensures
        f == (ZlobFlags { skip_hidden: options.skip_hidden, follow_symlinks: options.follow_links }),
{
    ZlobFlags { skip_hidden: options.skip_hidden, follow_symlinks: options.follow_links }
}

/// What to do with one zlob entry: `None` leaves it out; `Some(skip)` yields
/// it, and `skip` tells zlob not to enter it. The root and entries above the
/// minimum depth are left out; a directory with a skipped name is yielded but
/// not entered.
pub fn zlob_item(
    options: &WalkOptions,
    depth: usize,
    is_root_path: bool,
    is_dir: bool,
    file_name: Option<&[u8]>,
) -> (r: Option<bool>)
    ensures
        r == if is_root_path || depth < options.min_depth {
            None::<bool>
        } else {
            Some(
                is_dir && match file_name {
                    Some(n) => is_skip_name(options.skip_dirs@, n@),
                    None => false,
                },
            )
        },
{
    if is_root_path || depth < options.min_depth {
        return None;
    }
    let skip = is_dir && match file_name {
        Some(n) => options.should_skip_dir_name(n),
        None => false,
    };
    Some(skip)
}

/// Whether a Unix mode leaves no one a write bit.
pub fn readonly_from_mode(mode: Option<u32>) -> (r: bool)
    ensures
        r == match mode {
            Some(m) => m & 0o222u32 == 0,
            None => false,
        },
{
    match mode {
        Some(m) => m & 0o222u32 == 0,
        None => false,
    }
}

/// A time given as nanoseconds from the Unix epoch (negative before it), as whole
/// seconds and the nanoseconds past them.
pub fn ns_to_system_time(ns: Option<i64>) -> (t: Option<Timestamp>)
    ensures
        match ns {
            None => t is None,
            Some(n) => t matches Some(t) && t.wf() && t.total_nanos() == n,
        },
{
    let n = match ns {
        None => return None,
        Some(n) => n,
    };
    let u: u64 = if n >= 0 {
        n as u64
    } else {
        (-(n + 1)) as u64 + 1
    };
    let q: u64 = u / 1_000_000_000;
    let r: u64 = u % 1_000_000_000;
    assert(u == q * 1_000_000_000 + r) by (nonlinear_arith)
        requires
            q == u / 1_000_000_000,
            r == u % 1_000_000_000,
    ;
    assert(q <= u64::MAX / 1_000_000_000);
    if n >= 0 {
        Some(Timestamp { secs: q as i64, nanos: r as u32 })
    } else if r == 0 {
        Some(Timestamp { secs: -(q as i64), nanos: 0 })
    } else {
        Some(Timestamp { secs: -(q as i64) - 1, nanos: (1_000_000_000 - r) as u32 })
    }
}

pub open spec fn ns_matches(t: Option<Timestamp>, ns: Option<i64>) -> bool {
    match ns {
        None => t is None,
        Some(n) => t matches Some(t) && t.wf() && t.total_nanos() == n,
    }
}

/// The metadata of a zlob entry from what zlob reports: times in
/// nanoseconds from the epoch, the size (0 when unknown) and the mode,
/// read-only when no write bit is set.
pub fn zlob_walked_meta(
    accessed_ns: Option<i64>,
    created_ns: Option<i64>,
    modified_ns: Option<i64>,
    size: Option<u64>,
    mode: Option<u32>,
) -> (m: WalkedMeta)
    ensures
        ns_matches(m.accessed, accessed_ns),
        ns_matches(m.created, created_ns),
        ns_matches(m.modified, modified_ns),
        m.size == match size {
            Some(n) => n,
            None => 0,
        },
        m.readonly == (mode matches Some(b) && b & 0o222u32 == 0),
{
    WalkedMeta {
        accessed: ns_to_system_time(accessed_ns),
        created: ns_to_system_time(created_ns),
        modified: ns_to_system_time(modified_ns),
        size: match size {
            Some(n) => n,
            None => 0,
        },
        readonly: readonly_from_mode(mode),
    }
}

} // verus!
