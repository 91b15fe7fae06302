//! What a walk yields: entries, their metadata, walk errors, and the
//! operations on the stream of items (root detection, counting, sorting).
use vstd::prelude::*;
use vstd::multiset::Multiset;
use vstd::utf8::encode_utf8;
use crate::ignore_backend::{comps_file_name, path_components};
use crate::sys::{RawMeta, walked_meta_spec};
use crate::text::{bytes_eq, bytes_le, bytes_to_vec, lex_le, lemma_lex_le_total, lemma_lex_le_transitive};

verus! {

/// A point in time: whole seconds from the Unix epoch (negative before it)
/// and the nanoseconds past that second.
#[derive(Clone, Copy, Debug, PartialEq, Eq, Structural)]
pub struct Timestamp {
    pub secs: i64,
    pub nanos: u32,
}

impl Timestamp {
    pub open spec fn wf(self) -> bool {
        self.nanos < 1_000_000_000
    }

    /// Nanoseconds from the Unix epoch.
    pub open spec fn total_nanos(self) -> int {
        self.secs * 1_000_000_000 + self.nanos
    }
}

/// Size, times and permissions of an entry, read when the walk asks for metadata.
#[derive(Clone, Debug)]
pub struct WalkedMeta {
    pub accessed: Option<Timestamp>,
    pub created: Option<Timestamp>,
    pub modified: Option<Timestamp>,
    pub size: u64,
    pub readonly: bool,
}

/// One file or directory met by a walk. Names and paths are the bytes of
/// the operating system's encoding.
#[derive(Clone, Debug)]
pub struct WalkedEntry {
    /// Distance from the walk root: 0 for the root, 1 for its children.
    pub depth: usize,
    pub file_name: Vec<u8>,
    pub full_path: Vec<u8>,
    pub is_dir: bool,
    pub is_file: bool,
    pub is_symlink: bool,
    pub parent_path: Vec<u8>,
    pub path_is_symlink: bool,
    /// Marked by the custom jwalk walker on the first entry of each directory.
    pub client_state: bool,
    pub metadata: Option<WalkedMeta>,
}

/// An entry, or an error met while walking.
#[derive(Clone, Debug)]
pub enum WalkItem {
    Entry(WalkedEntry),
    Error(String),
}


/// An entry as an engine reports it, before the walk decides whether to yield it.
#[derive(Clone, Debug)]
pub struct RawEntry {
    pub depth: usize,
    pub file_name: Vec<u8>,
    pub full_path: Vec<u8>,
    pub parent_path: Vec<u8>,
    pub is_dir: bool,
    pub is_file: bool,
    pub is_symlink: bool,
    pub path_is_symlink: bool,
}

/// The entry that a walk yields for a raw entry.
pub open spec fn walked_from_raw(
    raw: RawEntry,
    client_state: bool,
    metadata: Option<WalkedMeta>,
) -> WalkedEntry {
    WalkedEntry {
        depth: raw.depth,
        file_name: raw.file_name,
        full_path: raw.full_path,
        is_dir: raw.is_dir,
        is_file: raw.is_file,
        is_symlink: raw.is_symlink,
        parent_path: raw.parent_path,
        path_is_symlink: raw.path_is_symlink,
        client_state,
        metadata,
    }
}

/// The raw entry that an entry was made from.
pub open spec fn raw_of(e: WalkedEntry) -> RawEntry {
    RawEntry {
        depth: e.depth,
        file_name: e.file_name,
        full_path: e.full_path,
        parent_path: e.parent_path,
        is_dir: e.is_dir,
        is_file: e.is_file,
        is_symlink: e.is_symlink,
        path_is_symlink: e.path_is_symlink,
    }
}

/// An entry of a plain walk: not marked by the custom walker, and holding
/// metadata only when the walk asked for it.
pub open spec fn plain_entry(want_metadata: bool, e: WalkedEntry) -> bool {
    !e.client_state && (e.metadata is Some ==> want_metadata)
}

/// Builds the entry that a walk yields for a raw entry.
pub fn to_walked(raw: RawEntry, client_state: bool, metadata: Option<WalkedMeta>) -> (e: WalkedEntry)
    ensures
        e == walked_from_raw(raw, client_state, metadata),
        raw_of(e) == raw,
{
    WalkedEntry {
        depth: raw.depth,
        file_name: raw.file_name,
        full_path: raw.full_path,
        is_dir: raw.is_dir,
        is_file: raw.is_file,
        is_symlink: raw.is_symlink,
        parent_path: raw.parent_path,
        path_is_symlink: raw.path_is_symlink,
        client_state,
        metadata,
    }
}

// ---------------------------------------------------------------------
// The walk root's own entry
// ---------------------------------------------------------------------

/// The bytes of `Path::parent` of a path, when it has one.
pub uninterp spec fn path_parent(path: Seq<char>) -> Option<Seq<u8>>;

pub open spec fn opt_bytes(v: Option<Vec<u8>>) -> Option<Seq<u8>> {
    match v {
        Some(b) => Some(b@),
        None => None,
    }
}

/// `Path::file_name` of a path given as text, as the name's bytes: the
/// last of its components when that names a file (std's `file_name` takes
/// `components().next_back()` when it is `Component::Normal`; a Unix path
/// has no prefix component).
#[verifier::external_body]
fn file_name_of(path: &str) -> (n: Option<Vec<u8>>)
    ensures
        opt_bytes(n) == comps_file_name(path_components(encode_utf8(path@))),
{
    std::path::Path::new(path).file_name().map(|n| n.as_encoded_bytes().to_vec())
}

/// `Path::parent` of a path given as text, as the parent's bytes.
#[verifier::external_body]
fn parent_of(path: &str) -> (p: Option<Vec<u8>>)
    ensures
        opt_bytes(p) == path_parent(path@),
{
    std::path::Path::new(path).parent().map(|p| p.as_os_str().as_encoded_bytes().to_vec())
}

/// The entry of the walk root, which a walk sends first, before the engine
/// starts, when the minimum depth is 0. `kind` is what the root's own
/// metadata (links not followed) says: directory, file, symbolic link;
/// `None` when it could not be read. Its name is the path's file name, or
/// the whole path when it has none; its parent is the path's parent, or
/// empty.
pub fn root_entry(path: &str, kind: Option<(bool, bool, bool)>, meta: Option<WalkedMeta>) -> (e: WalkedEntry)
    ensures
        e.depth == 0,
        e.full_path@ == encode_utf8(path@),
        e.file_name@ == match comps_file_name(path_components(encode_utf8(path@))) {
            Some(n) => n,
            None => encode_utf8(path@),
        },
        e.parent_path@ == match path_parent(path@) {
            Some(p) => p,
            None => Seq::<u8>::empty(),
        },
        e.is_dir == (kind matches Some(k) && k.0),
        e.is_file == (kind matches Some(k) && k.1),
        e.is_symlink == (kind matches Some(k) && k.2),
        e.path_is_symlink == e.is_symlink,
        !e.client_state,
        e.metadata == meta,
{
    let (is_dir, is_file, is_symlink) = match kind {
        Some(k) => k,
        None => (false, false, false),
    };
    let file_name = match file_name_of(path) {
        Some(n) => n,
        None => bytes_to_vec(path.as_bytes()),
    };
    let parent_path = match parent_of(path) {
        Some(p) => p,
        None => Vec::new(),
    };
    WalkedEntry {
        depth: 0,
        file_name,
        full_path: bytes_to_vec(path.as_bytes()),
        is_dir,
        is_file,
        is_symlink,
        parent_path,
        path_is_symlink: is_symlink,
        client_state: false,
        metadata: meta,
    }
}

/// What a walk sends before the engine's items: the root's entry when the
/// minimum depth is 0, else nothing.
pub open spec fn root_prefix(min_depth: usize, root: WalkedEntry) -> Seq<WalkItem> {
    if min_depth == 0 {
        seq![WalkItem::Entry(root)]
    } else {
        Seq::empty()
    }
}

// ---------------------------------------------------------------------
// What an engine reported, and what the walk passed on
// ---------------------------------------------------------------------

/// What one call of an engine's iterator gave, as the walk records it.
pub enum Reported {
    /// An entry; `meta` is the metadata read for it (`None` when it was not
    /// read, or reading failed), and `skipped` whether the walk told the
    /// engine not to enter it.
    Entry { raw: RawEntry, meta: Option<RawMeta>, skipped: bool },
    /// An error, as its text.
    Error(String),
    /// The end of the walk.
    End,
}

/// The metadata an entry carries: what was read, converted, when the walk
/// asks for metadata; none otherwise.
pub open spec fn meta_of(want_metadata: bool, meta: Option<RawMeta>) -> Option<WalkedMeta> {
    if want_metadata {
        match meta {
            Some(m) => Some(walked_meta_spec(m)),
            None => None,
        }
    } else {
        None
    }
}

/// The item a walk passes on for one report, given the rule `emits` by
/// which it keeps an entry: every error, and every entry the rule keeps.
pub open spec fn reported_item(
    emits: spec_fn(RawEntry) -> bool,
    want_metadata: bool,
    r: Reported,
) -> Option<WalkItem> {
    match r {
        Reported::Entry { raw, meta, .. } => if emits(raw) {
            Some(WalkItem::Entry(walked_from_raw(raw, false, meta_of(want_metadata, meta))))
        } else {
            None
        },
        Reported::Error(msg) => Some(WalkItem::Error(msg)),
        Reported::End => None,
    }
}

pub open spec fn opt_seq(r: Option<WalkItem>) -> Seq<WalkItem> {
    match r {
        Some(item) => seq![item],
        None => Seq::empty(),
    }
}

/// The items a walk passes on for a run of reports, in the engine's order.
pub open spec fn reported_items(
    emits: spec_fn(RawEntry) -> bool,
    want_metadata: bool,
    log: Seq<Reported>,
) -> Seq<WalkItem>
    decreases log.len(),
{
    if log.len() == 0 {
        Seq::empty()
    } else {
        reported_items(emits, want_metadata, log.drop_last()) + opt_seq(
            reported_item(emits, want_metadata, log.last()),
        )
    }
}

pub proof fn lemma_reported_push(
    emits: spec_fn(RawEntry) -> bool,
    want_metadata: bool,
    log: Seq<Reported>,
    r: Reported,
)
    ensures
        reported_items(emits, want_metadata, log.push(r)) == reported_items(emits, want_metadata, log)
            + opt_seq(reported_item(emits, want_metadata, r)),
{
    assert(log.push(r).drop_last() =~= log);
}

/// What one call of an engine's iterator gave, as plain values: an entry,
/// an error as its text, or the end of the walk.
pub enum EngineReport {
    Entry(RawEntry),
    Error(String),
    End,
}

/// The plain report of what an engine's `next` returned, the entry handle
/// aside.
pub open spec fn report_of<E>(r: Option<Result<(E, RawEntry), String>>) -> EngineReport {
    match r {
        None => EngineReport::End,
        Some(Ok(x)) => EngineReport::Entry(x.1),
        Some(Err(msg)) => EngineReport::Error(msg),
    }
}

/// What the engine reported, of one of the walk's own records.
pub open spec fn engine_report(r: Reported) -> EngineReport {
    match r {
        Reported::Entry { raw, .. } => EngineReport::Entry(raw),
        Reported::Error(msg) => EngineReport::Error(msg),
        Reported::End => EngineReport::End,
    }
}

/// What the engine reported, of the walk's records, in order.
pub open spec fn engine_view(log: Seq<Reported>) -> Seq<EngineReport> {
    log.map_values(|r: Reported| engine_report(r))
}

/// When the walk told the engine not to enter an entry: for each record of
/// an entry it did so for, the number of reports the engine had given by then.
pub open spec fn skip_positions(log: Seq<Reported>) -> Seq<nat>
    decreases log.len(),
{
    if log.len() == 0 {
        Seq::empty()
    } else {
        skip_positions(log.drop_last()) + match log.last() {
            Reported::Entry { skipped, .. } => if skipped {
                seq![log.len()]
            } else {
                Seq::empty()
            },
            _ => Seq::empty(),
        }
    }
}

/// Whether a walk ran to its end: the engine said so last, or the walk used
/// up its budget of `usize::MAX` reports.
pub open spec fn walk_finished(log: Seq<Reported>) -> bool {
    (log.len() > 0 && log.last() is End) || log.len() == usize::MAX
}

pub proof fn lemma_log_push(log: Seq<Reported>, r: Reported)
    ensures
        engine_view(log.push(r)) == engine_view(log).push(engine_report(r)),
        skip_positions(log.push(r)) == skip_positions(log) + match r {
            Reported::Entry { skipped, .. } => if skipped {
                seq![log.len() + 1]
            } else {
                Seq::<nat>::empty()
            },
            _ => Seq::<nat>::empty(),
        },
{
    assert(log.push(r).drop_last() =~= log);
    assert(engine_view(log.push(r)) =~= engine_view(log).push(engine_report(r)));
}

/// Whether the walk handled one report as it should: it told the engine
/// not to enter the entry exactly when `skips` says so, and read metadata
/// only for an entry that `emits` keeps, when the walk asks for metadata.
pub open spec fn handled(
    want_metadata: bool,
    emits: spec_fn(RawEntry) -> bool,
    skips: spec_fn(RawEntry) -> bool,
    r: Reported,
) -> bool {
    match r {
        Reported::Entry { raw, meta, skipped } => skipped == skips(raw) && (meta is Some ==> want_metadata
            && emits(raw)),
        _ => true,
    }
}

pub open spec fn log_handled(
    want_metadata: bool,
    emits: spec_fn(RawEntry) -> bool,
    skips: spec_fn(RawEntry) -> bool,
    log: Seq<Reported>,
) -> bool {
    forall|i: int| 0 <= i < log.len() ==> handled(want_metadata, emits, skips, #[trigger] log[i])
}

pub proof fn lemma_handled_push(
    want_metadata: bool,
    emits: spec_fn(RawEntry) -> bool,
    skips: spec_fn(RawEntry) -> bool,
    start: Seq<Reported>,
    log: Seq<Reported>,
    r: Reported,
)
    requires
        log_handled(want_metadata, emits, skips, start) ==> log_handled(want_metadata, emits, skips, log),
        handled(want_metadata, emits, skips, r),
    ensures
        log_handled(want_metadata, emits, skips, start) ==> log_handled(
            want_metadata,
            emits,
            skips,
            log.push(r),
        ),
{
    if log_handled(want_metadata, emits, skips, start) {
        assert forall|i: int| 0 <= i < log.push(r).len() implies handled(
            want_metadata,
            emits,
            skips,
            #[trigger] log.push(r)[i],
        ) by {
            if i < log.len() {
                assert(log.push(r)[i] == log[i]);
            }
        }
    }
}

/// Under a rule that keeps only entries below the root whose path is not
/// the root's, no item passed on is the root.
pub proof fn lemma_reported_not_root(
    emits: spec_fn(RawEntry) -> bool,
    want_metadata: bool,
    log: Seq<Reported>,
    root: Seq<u8>,
)
    requires
        forall|raw: RawEntry| #[trigger] emits(raw) ==> raw.depth > 0 && raw.full_path@ != root,
    ensures
        forall|i: int|
            0 <= i < reported_items(emits, want_metadata, log).len() ==> !root_item(
                #[trigger] reported_items(emits, want_metadata, log)[i],
                root,
            ),
    decreases log.len(),
{
    if log.len() > 0 {
        let prev = reported_items(emits, want_metadata, log.drop_last());
        let last = opt_seq(reported_item(emits, want_metadata, log.last()));
        lemma_reported_not_root(emits, want_metadata, log.drop_last(), root);
        assert forall|i: int| 0 <= i < last.len() implies !root_item(#[trigger] last[i], root) by {
            if let Reported::Entry { raw, .. } = log.last() {
                if emits(raw) {
                    assert(raw.depth > 0 && raw.full_path@ != root);
                }
            }
        }
        assert forall|i: int| 0 <= i < (prev + last).len() implies !root_item(
            #[trigger] (prev + last)[i],
            root,
        ) by {
            if i < prev.len() {
                assert((prev + last)[i] == prev[i]);
            } else {
                assert((prev + last)[i] == last[i - prev.len()]);
            }
        }
    }
}

/// A time as an offset from the Unix epoch, after or before it.
#[derive(Clone, Copy, Debug)]
pub enum EpochOffset {
    After { secs: u64, nanos: u32 },
    Before { secs: u64, nanos: u32 },
}

pub open spec fn offset_wf(off: EpochOffset) -> bool {
    match off {
        EpochOffset::After { nanos, .. } => nanos < 1_000_000_000,
        EpochOffset::Before { nanos, .. } => nanos < 1_000_000_000,
    }
}

/// Nanoseconds from the Unix epoch of an offset.
pub open spec fn offset_nanos(off: EpochOffset) -> int {
    match off {
        EpochOffset::After { secs, nanos } => secs * 1_000_000_000 + nanos,
        EpochOffset::Before { secs, nanos } => -(secs * 1_000_000_000 + nanos),
    }
}

/// The timestamp of an offset from the epoch: `None` when the nanoseconds
/// are not below one second or the seconds do not fit in an `i64`.
pub open spec fn offset_timestamp(off: EpochOffset) -> Option<Timestamp> {
    match off {
        EpochOffset::After { secs, nanos } => if nanos >= 1_000_000_000 || secs > i64::MAX {
            None
        } else {
            Some(Timestamp { secs: secs as i64, nanos })
        },
        EpochOffset::Before { secs, nanos } => if nanos >= 1_000_000_000 {
            None
        } else if nanos == 0 {
            if secs > i64::MAX + 1 {
                None
            } else {
                Some(Timestamp { secs: (-(secs as int)) as i64, nanos: 0 })
            }
        } else if secs > i64::MAX {
            None
        } else {
            Some(Timestamp { secs: (-(secs as int) - 1) as i64, nanos: (1_000_000_000 - nanos) as u32 })
        },
    }
}

/// Turns an offset from the epoch into a timestamp.
pub fn timestamp_from_offset(off: EpochOffset) -> (t: Option<Timestamp>)
    ensures
        t == offset_timestamp(off),
        t matches Some(ts) ==> ts.wf() && ts.total_nanos() == offset_nanos(off),
        t is None ==> !offset_wf(off) || match off {
            EpochOffset::After { secs, .. } => secs > i64::MAX,
            EpochOffset::Before { secs, nanos } => if nanos == 0 {
                secs > i64::MAX + 1
            } else {
                secs > i64::MAX
            },
        },
{
    match off {
        EpochOffset::After { secs, nanos } => {
            if nanos >= 1_000_000_000 || secs > i64::MAX as u64 {
                None
            } else {
                Some(Timestamp { secs: secs as i64, nanos })
            }
        },
        EpochOffset::Before { secs, nanos } => {
            if nanos >= 1_000_000_000 {
                None
            } else if nanos == 0 {
                if secs > i64::MAX as u64 + 1 {
                    None
                } else if secs == i64::MAX as u64 + 1 {
                    Some(Timestamp { secs: i64::MIN, nanos: 0 })
                } else {
                    Some(Timestamp { secs: -(secs as i64), nanos: 0 })
                }
            } else {
                if secs > i64::MAX as u64 {
                    None
                } else {
                    Some(Timestamp { secs: -(secs as i64) - 1, nanos: 1_000_000_000 - nanos })
                }
            }
        },
    }
}

/// Whether an item is the walk root itself.
pub open spec fn root_item(item: WalkItem, root: Seq<u8>) -> bool {
    match item {
        WalkItem::Entry(e) => e.depth == 0 || e.full_path@ == root,
        WalkItem::Error(_) => false,
    }
}

/// Whether an item is the walk root itself: an entry at depth 0 or one whose path is the root's.
pub fn is_root_item(item: &WalkItem, root: &[u8]) -> (r: bool)
    ensures
        r == root_item(*item, root@),
{
    match item {
        WalkItem::Entry(e) => e.depth == 0 || bytes_eq(e.full_path.as_slice(), root),
        WalkItem::Error(_) => false,
    }
}

/// The number of entries (not errors) in a sequence of items.
pub open spec fn entry_count(s: Seq<WalkItem>) -> nat
    decreases s.len(),
{
    if s.len() == 0 {
        0
    } else {
        entry_count(s.drop_last()) + if s.last() is Entry {
            1nat
        } else {
            0nat
        }
    }
}

/// Whether an item is an entry (not an error).
pub open spec fn entry_pred() -> spec_fn(WalkItem) -> bool {
    |item: WalkItem| item is Entry
}

/// The count of a walk's entries is the number of its items that are
/// entries, whatever they are: every entry counts once, no error counts.
pub proof fn lemma_entry_count_is_entries(s: Seq<WalkItem>)
    ensures
        entry_count(s) == s.filter(entry_pred()).len(),
    decreases s.len(),
{
    if s.len() > 0 {
        lemma_entry_count_is_entries(s.drop_last());
        lemma_filter_push(s.drop_last(), s.last(), entry_pred());
        assert(s.drop_last().push(s.last()) =~= s);
    } else {
        reveal(Seq::filter);
        assert(s.filter(entry_pred()) =~= Seq::<WalkItem>::empty());
    }
}

/// Counts the entries of a walk, leaving out its errors.
pub fn count_entries(items: &Vec<WalkItem>) -> (n: usize)
    ensures
        n == entry_count(items@),
        n == items@.filter(entry_pred()).len(),
{
    proof {
        lemma_entry_count_is_entries(items@);
    }
    let mut n: usize = 0;
    let mut i: usize = 0;
    while i < items.len()
        invariant
            i <= items@.len(),
            n == entry_count(items@.take(i as int)),
            n <= i,
        decreases items@.len() - i,
    {
        assert(items@.take(i + 1).drop_last() =~= items@.take(i as int));
        if let WalkItem::Entry(_) = &items[i] {
            n = n + 1;
        }
        i = i + 1;
    }
    assert(items@.take(items@.len() as int) =~= items@);
    n
}

// ---------------------------------------------------------------------
// Sorting by file name
// ---------------------------------------------------------------------

/// The order in which sorted output comes: entries by file name, then errors.
pub open spec fn item_le(a: WalkItem, b: WalkItem) -> bool {
    match (a, b) {
        (WalkItem::Entry(x), WalkItem::Entry(y)) => lex_le(x.file_name@, y.file_name@),
        (WalkItem::Entry(_), WalkItem::Error(_)) => true,
        (WalkItem::Error(_), WalkItem::Entry(_)) => false,
        (WalkItem::Error(_), WalkItem::Error(_)) => true,
    }
}

/// Two items that the order does not tell apart.
pub open spec fn item_equiv(a: WalkItem, b: WalkItem) -> bool {
    item_le(a, b) && item_le(b, a)
}

/// The items that the order does not tell apart from `x`.
pub open spec fn same_key(x: WalkItem) -> spec_fn(WalkItem) -> bool {
    |y: WalkItem| item_equiv(y, x)
}

pub open spec fn sorted_items(s: Seq<WalkItem>) -> bool {
    forall|i: int, j: int| 0 <= i < j < s.len() ==> item_le(#[trigger] s[i], #[trigger] s[j])
}

pub proof fn lemma_item_le_total(a: WalkItem, b: WalkItem)
    ensures
        item_le(a, b) || item_le(b, a),
{
    if let (WalkItem::Entry(x), WalkItem::Entry(y)) = (a, b) {
        lemma_lex_le_total(x.file_name@, y.file_name@);
    }
}

pub proof fn lemma_item_le_transitive(a: WalkItem, b: WalkItem, c: WalkItem)
    requires
        item_le(a, b),
        item_le(b, c),
    ensures
        item_le(a, c),
{
    if let (WalkItem::Entry(x), WalkItem::Entry(y), WalkItem::Entry(z)) = (a, b, c) {
        lemma_lex_le_transitive(x.file_name@, y.file_name@, z.file_name@);
    }
}

/// Merges two runs, taking from the second run's end while its last item
/// is not below the first run's last item, so that of two items the order
/// does not tell apart the one from the first run comes first.
pub open spec fn merge_spec(a: Seq<WalkItem>, b: Seq<WalkItem>) -> Seq<WalkItem>
    decreases a.len() + b.len(),
{
    if a.len() == 0 {
        b
    } else if b.len() == 0 {
        a
    } else if item_le(a.last(), b.last()) {
        merge_spec(a, b.drop_last()).push(b.last())
    } else {
        merge_spec(a.drop_last(), b).push(a.last())
    }
}

/// Stable merge sort by `item_le`.
pub open spec fn sort_spec(s: Seq<WalkItem>) -> Seq<WalkItem>
    decreases s.len(),
{
    if s.len() <= 1 {
        s
    } else {
        let m = s.len() / 2;
        merge_spec(
            sort_spec(s.subrange(0, m as int)),
            sort_spec(s.subrange(m as int, s.len() as int)),
        )
    }
}

pub open spec fn rev(s: Seq<WalkItem>) -> Seq<WalkItem>
    decreases s.len(),
{
    if s.len() == 0 {
        s
    } else {
        seq![s.last()] + rev(s.drop_last())
    }
}

pub proof fn lemma_rev_push(s: Seq<WalkItem>, x: WalkItem)
    ensures
        rev(s.push(x)) == seq![x] + rev(s),
{
    assert(s.push(x).drop_last() =~= s);
}

/// Whether `a` comes no later than `b` in sorted output.
pub fn item_le_exec(a: &WalkItem, b: &WalkItem) -> (r: bool)
    ensures
        r == item_le(*a, *b),
{
    match (a, b) {
        (WalkItem::Entry(x), WalkItem::Entry(y)) => bytes_le(
            x.file_name.as_slice(),
            y.file_name.as_slice(),
        ),
        (WalkItem::Entry(_), WalkItem::Error(_)) => true,
        (WalkItem::Error(_), WalkItem::Entry(_)) => false,
        (WalkItem::Error(_), WalkItem::Error(_)) => true,
    }
}

/// The items in reverse order.
pub fn reverse_items(v: Vec<WalkItem>) -> (r: Vec<WalkItem>)
    ensures
        r@ == rev(v@),
{
    let ghost whole = rev(v@);
    let mut v = v;
    let mut r: Vec<WalkItem> = Vec::new();
    assert(whole =~= r@ + rev(v@));
    while v.len() > 0
        invariant
            whole =~= r@ + rev(v@),
        decreases v@.len(),
    {
        let ghost old_v = v@;
        let x = v.pop().unwrap();
        proof {
            assert(old_v =~= v@.push(x));
            lemma_rev_push(v@, x);
        }
        r.push(x);
    }
    r
}

fn merge(a: Vec<WalkItem>, b: Vec<WalkItem>) -> (r: Vec<WalkItem>)
    ensures
        r@ == merge_spec(a@, b@),
{
    let ghost whole = merge_spec(a@, b@);
    let mut a = a;
    let mut b = b;
    let mut out_rev: Vec<WalkItem> = Vec::new();
    while a.len() > 0 || b.len() > 0
        invariant
            whole =~= merge_spec(a@, b@) + rev(out_rev@),
        decreases a@.len() + b@.len(),
    {
        let ghost old_rev = out_rev@;
        let take_b = if a.len() == 0 {
            true
        } else if b.len() == 0 {
            false
        } else {
            item_le_exec(&a[a.len() - 1], &b[b.len() - 1])
        };
        if take_b {
            let x = b.pop().unwrap();
            out_rev.push(x);
        } else {
            let x = a.pop().unwrap();
            out_rev.push(x);
        }
        proof {
            lemma_rev_push(old_rev, out_rev@.last());
            assert(out_rev@ =~= old_rev.push(out_rev@.last()));
        }
    }
    reverse_items(out_rev)
}

fn merge_sort(v: Vec<WalkItem>) -> (r: Vec<WalkItem>)
    ensures
        r@ == sort_spec(v@),
    decreases v@.len(),
{
    if v.len() <= 1 {
        return v;
    }
    let m = v.len() / 2;
    let mut left = v;
    let right = left.split_off(m);
    let sl = merge_sort(left);
    let sr = merge_sort(right);
    merge(sl, sr)
}

/// Sorts a walk's items by file name, entries before errors, keeping the
/// walk's order among items of equal name; returns them unchanged when
/// `sort` is false.
pub fn maybe_sort_items(items: Vec<WalkItem>, sort: bool) -> (r: Vec<WalkItem>)
    ensures
        r@ == if sort {
            sort_spec(items@)
        } else {
            items@
        },
{
    if !sort {
        return items;
    }
    merge_sort(items)
}


// ---------------------------------------------------------------------
// Records
// ---------------------------------------------------------------------

/// One cell of an entry's record.
#[derive(Clone, Debug)]
pub enum Cell {
    Int(i64),
    Bool(bool),
    /// Text, as the bytes of a name or path (shown lossily where not UTF-8).
    Text(Vec<u8>),
    /// A size in bytes.
    Filesize(i64),
    Date(Timestamp),
}

pub open spec fn text_cell(c: Cell, bytes: Seq<u8>) -> bool {
    c matches Cell::Text(b) && b@ == bytes
}

/// The cell of an optional time: the date, or empty text when there is none.
pub open spec fn time_cell(c: Cell, t: Option<Timestamp>) -> bool {
    match t {
        Some(t) => c matches Cell::Date(d) && d == t,
        None => text_cell(c, Seq::empty()),
    }
}

pub open spec fn column(r: Seq<(&'static str, Cell)>, i: int, name: &'static str) -> bool {
    r[i].0@ == name@
}

/// The record of an entry: nine columns for the entry itself and, when
/// metadata was asked for, five more; an entry whose metadata could not be
/// read gets empty text, and a size of 0, in those five.
pub open spec fn record_spec(e: WalkedEntry, want_metadata: bool, r: Seq<(&'static str, Cell)>) -> bool {
    &&& r.len() == if want_metadata { 14int } else { 9int }
    &&& column(r, 0, "depth")
    &&& (r[0].1 matches Cell::Int(d) && d == e.depth as i64)
    &&& column(r, 1, "client_state")
    &&& (r[1].1 matches Cell::Bool(b) && b == e.client_state)
    &&& column(r, 2, "file_name") && text_cell(r[2].1, e.file_name@)
    &&& column(r, 3, "full_path") && text_cell(r[3].1, e.full_path@)
    &&& column(r, 4, "is_dir")
    &&& (r[4].1 matches Cell::Bool(b) && b == e.is_dir)
    &&& column(r, 5, "is_file")
    &&& (r[5].1 matches Cell::Bool(b) && b == e.is_file)
    &&& column(r, 6, "is_symlink")
    &&& (r[6].1 matches Cell::Bool(b) && b == e.is_symlink)
    &&& column(r, 7, "parent_path") && text_cell(r[7].1, e.parent_path@)
    &&& column(r, 8, "path_is_symlink")
    &&& (r[8].1 matches Cell::Bool(b) && b == e.path_is_symlink)
    &&& want_metadata ==> {
        &&& column(r, 9, "accessed")
        &&& column(r, 10, "created")
        &&& column(r, 11, "modified")
        &&& column(r, 12, "size")
        &&& column(r, 13, "readonly")
        &&& match e.metadata {
            Some(m) => {
                &&& time_cell(r[9].1, m.accessed)
                &&& time_cell(r[10].1, m.created)
                &&& time_cell(r[11].1, m.modified)
                &&& r[12].1 matches Cell::Filesize(n) && n == m.size as i64
                &&& r[13].1 matches Cell::Bool(b) && b == m.readonly
            },
            None => {
                &&& text_cell(r[9].1, Seq::empty())
                &&& text_cell(r[10].1, Seq::empty())
                &&& text_cell(r[11].1, Seq::empty())
                &&& r[12].1 matches Cell::Int(n) && n == 0
                &&& text_cell(r[13].1, Seq::empty())
            },
        }
    }
}

fn time_value(t: Option<Timestamp>) -> (c: Cell)
    ensures
        time_cell(c, t),
{
    match t {
        Some(t) => Cell::Date(t),
        None => Cell::Text(Vec::new()),
    }
}

fn bytes_copy(b: &Vec<u8>) -> (r: Vec<u8>)
    ensures
        r@ == b@,
{
    vstd::slice::slice_to_vec(b.as_slice())
}

/// The record that a walk shows for an entry when it shows records.
pub fn record_value(entry: &WalkedEntry, want_metadata: bool) -> (r: Vec<(&'static str, Cell)>)
    ensures
        record_spec(*entry, want_metadata, r@),
{
    let mut r: Vec<(&'static str, Cell)> = Vec::new();
    r.push(("depth", Cell::Int(entry.depth as i64)));
    r.push(("client_state", Cell::Bool(entry.client_state)));
    r.push(("file_name", Cell::Text(bytes_copy(&entry.file_name))));
    r.push(("full_path", Cell::Text(bytes_copy(&entry.full_path))));
    r.push(("is_dir", Cell::Bool(entry.is_dir)));
    r.push(("is_file", Cell::Bool(entry.is_file)));
    r.push(("is_symlink", Cell::Bool(entry.is_symlink)));
    r.push(("parent_path", Cell::Text(bytes_copy(&entry.parent_path))));
    r.push(("path_is_symlink", Cell::Bool(entry.path_is_symlink)));
    if want_metadata {
        match &entry.metadata {
            Some(m) => {
                r.push(("accessed", time_value(m.accessed)));
                r.push(("created", time_value(m.created)));
                r.push(("modified", time_value(m.modified)));
                r.push(("size", Cell::Filesize(m.size as i64)));
                r.push(("readonly", Cell::Bool(m.readonly)));
            },
            None => {
                r.push(("accessed", Cell::Text(Vec::new())));
                r.push(("created", Cell::Text(Vec::new())));
                r.push(("modified", Cell::Text(Vec::new())));
                r.push(("size", Cell::Int(0)));
                r.push(("readonly", Cell::Text(Vec::new())));
            },
        }
    }
    r
}

/// How a walk shows an item.
#[derive(Clone, Copy, Debug, PartialEq, Eq, Structural)]
pub enum ItemShape {
    /// As an error value.
    Error,
    /// As a record (`record_value`).
    Record,
    /// As its full path.
    Path,
}

/// Errors show as errors; entries as records when the walk shows records
/// (`--verbose` or `--metadata`), else as their path.
pub fn item_shape(item: &WalkItem, records: bool) -> (s: ItemShape)
    ensures
        s == match *item {
            WalkItem::Error(_) => ItemShape::Error,
            WalkItem::Entry(_) => if records {
                ItemShape::Record
            } else {
                ItemShape::Path
            },
        },
{
    match item {
        WalkItem::Error(_) => ItemShape::Error,
        WalkItem::Entry(_) => if records {
            ItemShape::Record
        } else {
            ItemShape::Path
        },
    }
}

// ---------------------------------------------------------------------
// What sorting keeps
// ---------------------------------------------------------------------

pub proof fn lemma_filter_push(s: Seq<WalkItem>, x: WalkItem, p: spec_fn(WalkItem) -> bool)
    ensures
        s.push(x).filter(p) == if p(x) {
            s.filter(p).push(x)
        } else {
            s.filter(p)
        },
{
    reveal(Seq::filter);
    assert(s.push(x).drop_last() =~= s);
}

proof fn lemma_filter_none(s: Seq<WalkItem>, p: spec_fn(WalkItem) -> bool)
    requires
        forall|i: int| 0 <= i < s.len() ==> !p(#[trigger] s[i]),
    ensures
        s.filter(p) == Seq::<WalkItem>::empty(),
    decreases s.len(),
{
    reveal(Seq::filter);
    if s.len() > 0 {
        lemma_filter_none(s.drop_last(), p);
    }
}

proof fn lemma_merge_bound(a: Seq<WalkItem>, b: Seq<WalkItem>, z: WalkItem)
    requires
        forall|i: int| 0 <= i < a.len() ==> item_le(#[trigger] a[i], z),
        forall|i: int| 0 <= i < b.len() ==> item_le(#[trigger] b[i], z),
    ensures
        forall|i: int|
            0 <= i < merge_spec(a, b).len() ==> item_le(#[trigger] merge_spec(a, b)[i], z),
        merge_spec(a, b).len() == a.len() + b.len(),
    decreases a.len() + b.len(),
{
    if a.len() == 0 || b.len() == 0 {
    } else if item_le(a.last(), b.last()) {
        lemma_merge_bound(a, b.drop_last(), z);
        assert(b.last() == b[b.len() - 1]);
    } else {
        lemma_merge_bound(a.drop_last(), b, z);
        assert(a.last() == a[a.len() - 1]);
    }
}

proof fn lemma_sorted_below_last(s: Seq<WalkItem>)
    requires
        sorted_items(s),
        s.len() > 0,
    ensures
        forall|i: int| 0 <= i < s.len() ==> item_le(#[trigger] s[i], s.last()),
{
    assert forall|i: int| 0 <= i < s.len() implies item_le(#[trigger] s[i], s.last()) by {
        if i < s.len() - 1 {
            assert(item_le(s[i], s[s.len() - 1]));
        } else {
            lemma_item_le_total(s[i], s[i]);
        }
    }
}

/// Merging two sorted runs gives a sorted run.
pub proof fn lemma_merge_sorted(a: Seq<WalkItem>, b: Seq<WalkItem>)
    requires
        sorted_items(a),
        sorted_items(b),
    ensures
        sorted_items(merge_spec(a, b)),
    decreases a.len() + b.len(),
{
    if a.len() == 0 || b.len() == 0 {
    } else {
        lemma_sorted_below_last(a);
        lemma_sorted_below_last(b);
        let al = a.last();
        let bl = b.last();
        if item_le(al, bl) {
            let b2 = b.drop_last();
            lemma_merge_sorted(a, b2);
            assert forall|i: int| 0 <= i < a.len() implies item_le(#[trigger] a[i], bl) by {
                lemma_item_le_transitive(a[i], al, bl);
            }
            assert forall|i: int| 0 <= i < b2.len() implies item_le(#[trigger] b2[i], bl) by {
                assert(b2[i] == b[i]);
            }
            lemma_merge_bound(a, b2, bl);
            let m = merge_spec(a, b2);
            assert(merge_spec(a, b) == m.push(bl));
            assert forall|i: int, j: int|
                0 <= i < j < m.len() + 1 implies item_le(
                #[trigger] m.push(bl)[i],
                #[trigger] m.push(bl)[j],
            ) by {
                if j < m.len() {
                    assert(m.push(bl)[i] == m[i]);
                    assert(m.push(bl)[j] == m[j]);
                } else {
                    assert(m.push(bl)[i] == m[i]);
                }
            }
        } else {
            lemma_item_le_total(al, bl);
            let a2 = a.drop_last();
            lemma_merge_sorted(a2, b);
            assert forall|i: int| 0 <= i < b.len() implies item_le(#[trigger] b[i], al) by {
                lemma_item_le_transitive(b[i], bl, al);
            }
            assert forall|i: int| 0 <= i < a2.len() implies item_le(#[trigger] a2[i], al) by {
                assert(a2[i] == a[i]);
            }
            lemma_merge_bound(a2, b, al);
            let m = merge_spec(a2, b);
            assert(merge_spec(a, b) == m.push(al));
            assert forall|i: int, j: int|
                0 <= i < j < m.len() + 1 implies item_le(
                #[trigger] m.push(al)[i],
                #[trigger] m.push(al)[j],
            ) by {
                if j < m.len() {
                    assert(m.push(al)[i] == m[i]);
                    assert(m.push(al)[j] == m[j]);
                } else {
                    assert(m.push(al)[i] == m[i]);
                }
            }
        }
    }
}

/// Merging keeps every item, as often as it occurs.
pub proof fn lemma_merge_multiset(a: Seq<WalkItem>, b: Seq<WalkItem>)
    ensures
        merge_spec(a, b).to_multiset() == a.to_multiset().add(b.to_multiset()),
    decreases a.len() + b.len(),
{
    broadcast use vstd::seq_lib::group_to_multiset_ensures;

    if a.len() == 0 {
        assert(a.to_multiset() =~= Multiset::empty());
        assert(b.to_multiset() =~= Multiset::<WalkItem>::empty().add(b.to_multiset()));
    } else if b.len() == 0 {
        assert(b.to_multiset() =~= Multiset::empty());
        assert(a.to_multiset() =~= a.to_multiset().add(Multiset::<WalkItem>::empty()));
    } else if item_le(a.last(), b.last()) {
        let b2 = b.drop_last();
        lemma_merge_multiset(a, b2);
        assert(b =~= b2.push(b.last()));
        assert(merge_spec(a, b).to_multiset() =~= a.to_multiset().add(b.to_multiset()));
    } else {
        let a2 = a.drop_last();
        lemma_merge_multiset(a2, b);
        assert(a =~= a2.push(a.last()));
        assert(merge_spec(a, b).to_multiset() =~= a.to_multiset().add(b.to_multiset()));
    }
}

/// Merging two sorted runs keeps, among the items that the order does not
/// tell apart, those of the first run before those of the second, each run
/// in its own order.
pub proof fn lemma_merge_stable(a: Seq<WalkItem>, b: Seq<WalkItem>, x: WalkItem)
    requires
        sorted_items(a),
        sorted_items(b),
    ensures
        merge_spec(a, b).filter(same_key(x)) == a.filter(same_key(x)) + b.filter(same_key(x)),
    decreases a.len() + b.len(),
{
    let p = same_key(x);
    reveal(Seq::filter);
    if a.len() == 0 {
        assert(a.filter(p) =~= Seq::<WalkItem>::empty());
        assert(b.filter(p) =~= a.filter(p) + b.filter(p));
    } else if b.len() == 0 {
        assert(b.filter(p) =~= Seq::<WalkItem>::empty());
        assert(a.filter(p) =~= a.filter(p) + b.filter(p));
    } else {
        let al = a.last();
        let bl = b.last();
        if item_le(al, bl) {
            let b2 = b.drop_last();
            assert(sorted_items(b2)) by {
                assert forall|i: int, j: int| 0 <= i < j < b2.len() implies item_le(
                    #[trigger] b2[i],
                    #[trigger] b2[j],
                ) by {
                    assert(b2[i] == b[i] && b2[j] == b[j]);
                }
            }
            lemma_merge_stable(a, b2, x);
            let m = merge_spec(a, b2);
            lemma_filter_push(m, bl, p);
            assert(b =~= b2.push(bl));
            lemma_filter_push(b2, bl, p);
            if p(bl) {
                assert(m.push(bl).filter(p) =~= a.filter(p) + b.filter(p));
            } else {
                assert(m.push(bl).filter(p) =~= a.filter(p) + b.filter(p));
            }
        } else {
            let a2 = a.drop_last();
            assert(sorted_items(a2)) by {
                assert forall|i: int, j: int| 0 <= i < j < a2.len() implies item_le(
                    #[trigger] a2[i],
                    #[trigger] a2[j],
                ) by {
                    assert(a2[i] == a[i] && a2[j] == a[j]);
                }
            }
            lemma_merge_stable(a2, b, x);
            let m = merge_spec(a2, b);
            lemma_filter_push(m, al, p);
            assert(a =~= a2.push(al));
            lemma_filter_push(a2, al, p);
            if p(al) {
                lemma_sorted_below_last(b);
                assert forall|i: int| 0 <= i < b.len() implies !p(#[trigger] b[i]) by {
                    if p(b[i]) {
                        lemma_item_le_transitive(al, x, b[i]);
                        lemma_item_le_transitive(al, b[i], bl);
                    }
                }
                lemma_filter_none(b, p);
                assert(m.push(al).filter(p) =~= a.filter(p) + b.filter(p));
            } else {
                assert(m.push(al).filter(p) =~= a.filter(p) + b.filter(p));
            }
        }
    }
}

/// Sorting by file name gives sorted output that holds every item of the
/// input as often as the input does, and keeps the input's order among
/// items of equal name (a stable sort).
pub proof fn lemma_sort_laws(s: Seq<WalkItem>)
    ensures
        sorted_items(sort_spec(s)),
        sort_spec(s).to_multiset() == s.to_multiset(),
        forall|x: WalkItem| #[trigger] sort_spec(s).filter(same_key(x)) == s.filter(same_key(x)),
    decreases s.len(),
{
    if s.len() <= 1 {
        assert(sorted_items(s)) by {
            assert forall|i: int, j: int| 0 <= i < j < s.len() implies item_le(
                #[trigger] s[i],
                #[trigger] s[j],
            ) by {}
        }
    } else {
        let m = s.len() / 2;
        let l = s.subrange(0, m as int);
        let r = s.subrange(m as int, s.len() as int);
        lemma_sort_laws(l);
        lemma_sort_laws(r);
        lemma_merge_sorted(sort_spec(l), sort_spec(r));
        lemma_merge_multiset(sort_spec(l), sort_spec(r));
        assert(s =~= l + r);
        vstd::seq_lib::lemma_multiset_commutative(l, r);
        assert forall|x: WalkItem| #[trigger] sort_spec(s).filter(same_key(x)) == s.filter(
            same_key(x),
        ) by {
            lemma_merge_stable(sort_spec(l), sort_spec(r), x);
            Seq::filter_distributes_over_add(l, r, same_key(x));
        }
    }
}

/// Merging two runs where every item of the first comes no later than
/// every item of the second gives the first run followed by the second.
proof fn lemma_merge_ordered(a: Seq<WalkItem>, b: Seq<WalkItem>)
    requires
        forall|i: int, j: int|
            0 <= i < a.len() && 0 <= j < b.len() ==> item_le(#[trigger] a[i], #[trigger] b[j]),
    ensures
        merge_spec(a, b) == a + b,
    decreases b.len(),
{
    if a.len() == 0 {
        assert(a + b =~= b);
    } else if b.len() == 0 {
        assert(a + b =~= a);
    } else {
        assert(item_le(a[a.len() - 1], b[b.len() - 1]));
        lemma_merge_ordered(a, b.drop_last());
        assert((a + b.drop_last()).push(b.last()) =~= a + b);
    }
}

/// Sorting items that are already sorted leaves them as they are.
pub proof fn lemma_sort_sorted(s: Seq<WalkItem>)
    requires
        sorted_items(s),
    ensures
        sort_spec(s) == s,
    decreases s.len(),
{
    if s.len() > 1 {
        let m = s.len() / 2;
        let l = s.subrange(0, m as int);
        let r = s.subrange(m as int, s.len() as int);
        assert(sorted_items(l)) by {
            assert forall|i: int, j: int| 0 <= i < j < l.len() implies item_le(
                #[trigger] l[i],
                #[trigger] l[j],
            ) by {
                assert(l[i] == s[i] && l[j] == s[j]);
            }
        }
        assert(sorted_items(r)) by {
            assert forall|i: int, j: int| 0 <= i < j < r.len() implies item_le(
                #[trigger] r[i],
                #[trigger] r[j],
            ) by {
                assert(r[i] == s[m + i] && r[j] == s[m + j]);
            }
        }
        lemma_sort_sorted(l);
        lemma_sort_sorted(r);
        assert forall|i: int, j: int| 0 <= i < l.len() && 0 <= j < r.len() implies item_le(
            #[trigger] l[i],
            #[trigger] r[j],
        ) by {
            assert(l[i] == s[i] && r[j] == s[m + j]);
        }
        lemma_merge_ordered(l, r);
        assert(l + r =~= s);
    }
}

/// Sorting a walk's items a second time changes nothing.
pub proof fn lemma_sort_idempotent(s: Seq<WalkItem>)
    ensures
        sort_spec(sort_spec(s)) == sort_spec(s),
{
    lemma_sort_laws(s);
    lemma_sort_sorted(sort_spec(s));
}

} // verus!
