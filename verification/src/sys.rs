//! File metadata as the standard library reports it, and its conversion to
//! the walk's own `WalkedMeta`.
use vstd::prelude::*;
use std::time::SystemTime;
use crate::emit::{EpochOffset, Timestamp, WalkedMeta, offset_nanos, offset_timestamp, timestamp_from_offset};

verus! {

#[verifier::external_type_specification]
#[verifier::external_body]
pub struct ExSystemTime(SystemTime);

/// Metadata as read from the file system, each time as its offset from the
/// Unix epoch (`None` where the platform could not give it).
#[derive(Clone, Copy, Debug)]
pub struct RawMeta {
    pub accessed: Option<EpochOffset>,
    pub created: Option<EpochOffset>,
    pub modified: Option<EpochOffset>,
    pub size: u64,
    pub readonly: bool,
}

/// `SystemTime::duration_since(UNIX_EPOCH)` of a time the file system gave:
/// the distance after the epoch when the call succeeds, before it (the
/// error's `duration()`) when it fails; `None` when no time was given.
/// `Duration::subsec_nanos` is documented to be below one billion. What the
/// offset is of the given `SystemTime`, whose contents are opaque here, is
/// not stated.
#[verifier::external_body]
pub(crate) fn time_offset(t: Result<SystemTime, std::io::Error>) -> (off: Option<EpochOffset>)
    ensures
        off is None <==> t is Err,
        off matches Some(o) ==> crate::emit::offset_wf(o),
{
    match t {
        Err(_) => None,
        Ok(t) => Some(match t.duration_since(SystemTime::UNIX_EPOCH) {
            Ok(d) => EpochOffset::After { secs: d.as_secs(), nanos: d.subsec_nanos() },
            Err(e) => EpochOffset::Before { secs: e.duration().as_secs(), nanos: e.duration().subsec_nanos() },
        }),
    }
}

pub open spec fn opt_timestamp(t: Option<EpochOffset>) -> Option<Timestamp> {
    match t {
        Some(off) => offset_timestamp(off),
        None => None,
    }
}

/// The metadata a walk yields for metadata read from the file system.
pub open spec fn walked_meta_spec(raw: RawMeta) -> WalkedMeta {
    WalkedMeta {
        accessed: opt_timestamp(raw.accessed),
        created: opt_timestamp(raw.created),
        modified: opt_timestamp(raw.modified),
        size: raw.size,
        readonly: raw.readonly,
    }
}

fn timestamp_of(t: Option<EpochOffset>) -> (r: Option<Timestamp>)
    ensures
        r == opt_timestamp(t),
        r matches Some(ts) ==> ts.wf() && ts.total_nanos() == offset_nanos(t.unwrap()),
{
    match t {
        None => None,
        Some(off) => timestamp_from_offset(off),
    }
}

/// Converts metadata read from the file system; a time too far from the
/// epoch for an `i64` of seconds is left out.
pub fn walked_meta(raw: &RawMeta) -> (m: WalkedMeta)
    ensures
        m == walked_meta_spec(*raw),
        m.accessed matches Some(t) ==> t.wf() && t.total_nanos() == offset_nanos(raw.accessed.unwrap()),
        m.created matches Some(t) ==> t.wf() && t.total_nanos() == offset_nanos(raw.created.unwrap()),
        m.modified matches Some(t) ==> t.wf() && t.total_nanos() == offset_nanos(raw.modified.unwrap()),
{
    WalkedMeta {
        accessed: timestamp_of(raw.accessed),
        created: timestamp_of(raw.created),
        modified: timestamp_of(raw.modified),
        size: raw.size,
        readonly: raw.readonly,
    }
}

} // verus!
