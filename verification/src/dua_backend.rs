//! The dua engine: a parallel walk that asks the walk, for every directory,
//! whether to enter it, and yields everything it reads; the walk then
//! decides which entries to keep.
use vstd::prelude::*;
use crate::emit::{
    EngineReport, RawEntry, Reported, WalkItem, WalkedEntry, WalkedMeta, engine_view, lemma_handled_push,
    lemma_log_push, lemma_reported_push, log_handled, maybe_sort_items, opt_seq, report_of, reported_item,
    reported_items, root_prefix, sort_spec, to_walked, walk_finished,
};
use crate::options::{WalkOptions, WalkOrder, hidden_name, is_hidden_name, is_skip_name, root_bytes};
use crate::sys::{RawMeta, time_offset, walked_meta};
use crate::text::bytes_eq;

verus! {

#[verifier::external_type_specification]
#[verifier::external_body]
pub struct ExDuaWalk(dua_core::Walk);

#[verifier::external_type_specification]
#[verifier::external_body]
pub struct ExDuaEntry(dua_core::Entry);

#[verifier::external_type_specification]
#[verifier::external_body]
pub struct ExIoError(std::io::Error);

/// Worker threads for dua: `--threads 0` and `--threads 1` give one worker,
/// `--threads n` gives n, and no count gives `available`, the machine's
/// available parallelism.
pub open spec fn dua_threads_spec(threads: Option<usize>, available: usize) -> usize {
    match threads {
        Some(t) => if t <= 1 {
            1
        } else {
            t
        },
        None => available,
    }
}

pub fn dua_threads(threads: Option<usize>, available: usize) -> (n: usize)
    ensures
        n == dua_threads_spec(threads, available),
{
    match threads {
        Some(0) | Some(1) => 1,
        Some(n) => n,
        None => available,
    }
}

/// Whether dua enters a directory: not at or below the maximum depth, not a
/// hidden directory below the root when hidden names are skipped, and not
/// a directory with a skipped name. The root is entered even when its name
/// starts with a dot.
pub open spec fn descend_spec(o: WalkOptions, depth: usize, name: Seq<u8>, is_dir: bool) -> bool {
    &&& depth < o.max_depth
    &&& !(depth > 0 && o.skip_hidden && hidden_name(name))
    &&& !(is_dir && is_skip_name(o.skip_dirs@, name))
}

pub fn should_descend(options: &WalkOptions, depth: usize, name: &[u8], is_dir: bool) -> (d: bool)
    ensures
        d == descend_spec(*options, depth, name@, is_dir),
{
    if depth >= options.max_depth {
        return false;
    }
    if depth > 0 && options.skip_hidden && is_hidden_name(name) {
        return false;
    }
    if is_dir && options.should_skip_dir_name(name) {
        return false;
    }
    true
}

/// Whether an entry that dua yields is kept: not above the minimum depth,
/// and not hidden below the root when hidden names are skipped.
pub open spec fn yield_spec(o: WalkOptions, depth: usize, name: Seq<u8>) -> bool {
    &&& depth >= o.min_depth
    &&& !(depth > 0 && o.skip_hidden && hidden_name(name))
}

pub fn should_yield(options: &WalkOptions, depth: usize, name: &[u8]) -> (y: bool)
    ensures
        y == yield_spec(*options, depth, name@),
{
    if depth < options.min_depth {
        return false;
    }
    if depth > 0 && options.skip_hidden && is_hidden_name(name) {
        return false;
    }
    true
}

/// Whether the walk yields an entry dua reported: it is kept by
/// `yield_spec`, and it is not the root (depth 0, or the root's path),
/// which the walk sends itself.
pub open spec fn dua_emits(o: WalkOptions, raw: RawEntry) -> bool {
    &&& yield_spec(o, raw.depth, raw.file_name@)
    &&& raw.depth > 0
    &&& raw.full_path@ != root_bytes(o)
}

pub fn dua_emit(options: &WalkOptions, raw: &RawEntry) -> (emit: bool)
    ensures
        emit == dua_emits(*options, *raw),
{
    should_yield(options, raw.depth, raw.file_name.as_slice()) && raw.depth > 0
        && !bytes_eq(raw.full_path.as_slice(), options.root_path_bytes())
}

/// The settings a dua walk was started with.
pub struct DuaSettings {
    pub root: Seq<char>,
    pub threads: usize,
    pub order: WalkOrder,
    /// The options `should_descend` consults for each directory.
    pub descend: WalkOptions,
}

/// The settings a `dua_core::Walk` was started with.
pub uninterp spec fn dua_started(w: dua_core::Walk) -> DuaSettings;

/// Everything a dua walk's `next` has returned so far, as plain reports.
pub uninterp spec fn dua_reports(w: dua_core::Walk) -> Seq<EngineReport>;

/// `dua_core::walk` of the configured root with the configured thread count
/// and yield order, entering each directory for which `should_descend`
/// holds of `c.descend`.
#[verifier::external_body]
fn dua_walk(c: &DuaConfig) -> (w: dua_core::Walk)
    ensures
        dua_started(w) == (DuaSettings { root: c.root@, threads: c.threads, order: c.order, descend: c.descend }),
        dua_reports(w) == Seq::<EngineReport>::empty(),
{
    let order = match c.order {
        WalkOrder::Completion => dua_core::Order::Completion,
        WalkOrder::ParentFirst => dua_core::Order::ParentFirst,
    };
    let options = c.descend.clone();
    dua_core::walk(std::path::Path::new(&c.root), c.threads, order, move |e| {
        should_descend(&options, e.depth, e.file_name.as_encoded_bytes(), e.file_type.is_dir())
    })
}

/// `Walk::next`: the next entry with what it holds (`dua_raw`), or the
/// error met, as its text; `None` once the walk is over. What comes back
/// depends on the file system; it is added to the walk's reports.
#[verifier::external_body]
fn dua_next(w: &mut dua_core::Walk) -> (r: Option<Result<(dua_core::Entry, RawEntry), String>>)
    ensures
        dua_started(*final(w)) == dua_started(*old(w)),
        dua_reports(*final(w)) == dua_reports(*old(w)).push(report_of(r)),
{
    match w.next() {
        None => None,
        Some(Ok(e)) => {
            let raw = dua_raw(&e);
            Some(Ok((e, raw)))
        },
        Some(Err(err)) => Some(Err(err.to_string())),
    }
}

/// Reads what a `dua_core::Entry` holds: `depth`, `file_name`, `path()`,
/// `parent_path` and `file_type`; dua reports a symbolic link as itself, so
/// the path is a link exactly when the entry is.
#[verifier::external_body]
fn dua_raw(e: &dua_core::Entry) -> RawEntry {
    RawEntry {
        depth: e.depth,
        file_name: e.file_name.as_encoded_bytes().to_vec(),
        full_path: e.path().as_os_str().as_encoded_bytes().to_vec(),
        parent_path: e.parent_path.as_os_str().as_encoded_bytes().to_vec(),
        is_dir: e.file_type.is_dir(),
        is_file: e.file_type.is_file(),
        is_symlink: e.file_type.is_symlink(),
        path_is_symlink: e.file_type.is_symlink(),
    }
}

/// The metadata dua read with the entry: `None` when reading it failed.
#[verifier::external_body]
fn dua_meta(e: &dua_core::Entry) -> Option<RawMeta> {
    match e.metadata.as_ref() {
        Err(_) => None,
        Ok(m) => Some(RawMeta {
            accessed: time_offset(m.accessed()),
            created: time_offset(m.created()),
            modified: time_offset(m.modified()),
            size: m.len(),
            readonly: m.permissions().readonly(),
        }),
    }
}

/// The rule by which a dua walk keeps an entry dua reported.
pub open spec fn dua_rule(o: WalkOptions) -> spec_fn(RawEntry) -> bool {
    |raw: RawEntry| dua_emits(o, raw)
}

/// The walk never tells dua, entry by entry, what not to enter: dua asks
/// `should_descend` itself.
pub open spec fn dua_never_skips() -> spec_fn(RawEntry) -> bool {
    |raw: RawEntry| false
}

pub open spec fn dua_log_ok(o: WalkOptions, log: Seq<Reported>) -> bool {
    log_handled(o.metadata, dua_rule(o), dua_never_skips(), log)
}

/// What a dua walk gives: the root's entry when the minimum depth is 0,
/// then every error and every entry `dua_emits` keeps, in dua's order, or,
/// when sorting, sorted by file name (dua cannot sort as it goes).
pub open spec fn dua_output(o: WalkOptions, root: WalkedEntry, log: Seq<Reported>) -> Seq<WalkItem> {
    let items = reported_items(dua_rule(o), o.metadata, log);
    root_prefix(o.min_depth, root) + if o.sort {
        sort_spec(items)
    } else {
        items
    }
}

/// The settings handed to dua.
#[derive(Clone, Debug)]
pub struct DuaConfig {
    pub root: String,
    pub threads: usize,
    pub order: WalkOrder,
    /// The options `should_descend` consults for each directory.
    pub descend: WalkOptions,
}

/// The settings a walk hands dua: the root, the thread count of
/// `dua_threads_spec`, the yield order, and the options by which it decides
/// where to descend.
pub open spec fn dua_settings_for(o: WalkOptions, available: usize) -> DuaSettings {
    DuaSettings { root: o.path@, threads: dua_threads_spec(o.threads, available), order: o.order, descend: o }
}

/// Whether a walk's records are those of a dua walk started with the
/// settings for `o`: dua reported exactly what the records say.
pub open spec fn dua_ran(o: WalkOptions, available: usize, log: Seq<Reported>) -> bool {
    exists|w: dua_core::Walk| #[trigger] dua_started(w) == dua_settings_for(o, available) && dua_reports(w) == engine_view(log)
}

/// A walk with the dua engine, yielding one item at a time in dua's order.
pub struct DuaWalker {
    walk: dua_core::Walk,
    options: WalkOptions,
    log: Ghost<Seq<Reported>>,
    steps: usize,
}

impl DuaWalker {
    pub closed spec fn options(self) -> WalkOptions {
        self.options
    }

    /// Everything dua has reported so far, in order, with what the walk did
    /// with each entry.
    pub closed spec fn log(self) -> Seq<Reported> {
        self.log@
    }

    /// The settings dua was started with.
    pub closed spec fn engine_settings(self) -> DuaSettings {
        dua_started(self.walk)
    }

    /// Everything dua itself has reported so far.
    pub closed spec fn engine_reports(self) -> Seq<EngineReport> {
        dua_reports(self.walk)
    }

    /// The walker's records agree with dua's own, one step per report.
    pub closed spec fn wf(self) -> bool {
        &&& dua_reports(self.walk) == engine_view(self.log@)
        &&& self.steps == self.log@.len()
    }

    /// Starts a walk of `options.path` with the settings of
    /// `dua_settings_for`, `available` being the machine's available
    /// parallelism.
    pub fn new(options: WalkOptions, available: usize) -> (w: DuaWalker)
        ensures
            w.wf(),
            w.options() == options,
            w.log() == Seq::<Reported>::empty(),
            w.engine_settings() == dua_settings_for(options, available),
            w.engine_settings().root == options.path@,
            w.engine_settings().order == options.order,
            w.engine_settings().descend == options,
            w.engine_reports() == engine_view(w.log()),
    {
        let config = DuaConfig {
            root: options.path.clone(),
            threads: dua_threads(options.threads, available),
            order: options.order,
            descend: options,
        };
        let walk = dua_walk(&config);
        let w = DuaWalker { walk, options: config.descend, log: Ghost(Seq::empty()), steps: 0 };
        assert(engine_view(w.log@) =~= Seq::<EngineReport>::empty());
        assert(dua_started(w.walk) == dua_settings_for(w.options, available));
        w
    }

    /// The next item of the walk. It reads dua's reports until one gives an
    /// item: an error, or an entry `dua_emits` keeps; `None` when dua says
    /// the walk is over, or the budget of `usize::MAX` reports is used up.
    pub fn next_item(&mut self) -> (r: Option<WalkItem>)
        requires
            old(self).wf(),
        ensures
            final(self).wf(),
            final(self).options() == old(self).options(),
            final(self).engine_settings() == old(self).engine_settings(),
            final(self).engine_reports() == engine_view(final(self).log()),
            old(self).log().is_prefix_of(final(self).log()),
            reported_items(dua_rule(old(self).options()), old(self).options().metadata, final(self).log())
                == reported_items(dua_rule(old(self).options()), old(self).options().metadata, old(self).log())
                + opt_seq(r),
            r is Some ==> final(self).log().len() > old(self).log().len() && reported_item(
                dua_rule(old(self).options()),
                old(self).options().metadata,
                final(self).log().last(),
            ) == r,
            r is None ==> walk_finished(final(self).log()),
            dua_log_ok(old(self).options(), old(self).log()) ==> dua_log_ok(
                old(self).options(),
                final(self).log(),
            ),
    {
        let ghost o = self.options;
        let ghost rule = dua_rule(o);
        let ghost start = self.log@;
        let ghost settings = dua_started(self.walk);
        while self.steps < usize::MAX
            invariant
                self.options == o,
                o == old(self).options,
                rule == dua_rule(o),
                start == old(self).log@,
                settings == dua_started(old(self).walk),
                dua_started(self.walk) == settings,
                self.wf(),
                start.is_prefix_of(self.log@),
                reported_items(rule, o.metadata, self.log@) == reported_items(rule, o.metadata, start),
                dua_log_ok(o, start) ==> dua_log_ok(o, self.log@),
            decreases usize::MAX - self.steps,
        {
            let ghost before = self.log@;
            let next = dua_next(&mut self.walk);
            self.steps = self.steps + 1;
            let (e, raw) = match next {
                None => {
                    self.log = Ghost(before.push(Reported::End));
                    proof {
                        lemma_log_push(before, Reported::End);
                        lemma_reported_push(rule, o.metadata, before, Reported::End);
                        assert(reported_items(rule, o.metadata, start) + opt_seq(None) =~= reported_items(rule, o.metadata, start));
                        lemma_handled_push(o.metadata, rule, dua_never_skips(), start, before, Reported::End);
                    }
                    return None;
                },
                Some(Err(msg)) => {
                    self.log = Ghost(before.push(Reported::Error(msg)));
                    proof {
                        lemma_log_push(before, Reported::Error(msg));
                        lemma_reported_push(rule, o.metadata, before, Reported::Error(msg));
                        lemma_handled_push(o.metadata, rule, dua_never_skips(), start, before, Reported::Error(msg));
                    }
                    return Some(WalkItem::Error(msg));
                },
                Some(Ok(x)) => x,
            };
            let emit = dua_emit(&self.options, &raw);
            let meta: Option<RawMeta> = if emit && self.options.metadata {
                dua_meta(&e)
            } else {
                None
            };
            let ghost rep = Reported::Entry { raw: raw, meta: meta, skipped: false };
            self.log = Ghost(before.push(rep));
            proof {
                lemma_log_push(before, rep);
                lemma_reported_push(rule, o.metadata, before, rep);
                lemma_handled_push(o.metadata, rule, dua_never_skips(), start, before, rep);
                assert(dua_reports(self.walk) == engine_view(self.log@));
            }
            if emit {
                let m: Option<WalkedMeta> = match meta {
                    Some(m) => Some(walked_meta(&m)),
                    None => None,
                };
                return Some(WalkItem::Entry(to_walked(raw, false, m)));
            }
        }
        None
    }
}

/// What dua's own items come to: every error and every entry `dua_emits`
/// keeps, in dua's order, or sorted by file name when sorting.
pub open spec fn dua_items(o: WalkOptions, log: Seq<Reported>) -> Seq<WalkItem> {
    let items = reported_items(dua_rule(o), o.metadata, log);
    if o.sort {
        sort_spec(items)
    } else {
        items
    }
}

/// Walks to the end with dua and gives every item the walker gives,
/// sorted when the options ask for it (the root's entry not among them).
pub fn walk_engine_items(options: WalkOptions, available: usize) -> (items: Vec<WalkItem>)
    ensures
        exists|log: Seq<Reported>|
            dua_log_ok(options, log) && dua_ran(options, available, log) && walk_finished(log)
                && #[trigger] dua_items(options, log) == items@,
{
    let ghost o = options;
    let sort = options.sort;
    let mut w = DuaWalker::new(options, available);
    let mut all: Vec<WalkItem> = Vec::new();
    loop
        invariant
            w.wf(),
            w.options() == o,
            w.engine_settings() == dua_settings_for(o, available),
            dua_log_ok(o, w.log()),
            all@ == reported_items(dua_rule(o), o.metadata, w.log()),
            w.log().len() <= usize::MAX,
        ensures
            w.wf(),
            w.engine_settings() == dua_settings_for(o, available),
            dua_log_ok(o, w.log()),
            all@ == reported_items(dua_rule(o), o.metadata, w.log()),
            walk_finished(w.log()),
        decreases usize::MAX - w.log().len(),
    {
        match w.next_item() {
            None => {
                break;
            },
            Some(item) => all.push(item),
        }
    }
    let sorted = maybe_sort_items(all, sort);
    assert(dua_items(o, w.log()) == sorted@);
    assert(dua_started(w.walk) == dua_settings_for(o, available));
    sorted
}

/// Walks to the end: the root's entry first when the minimum depth is 0
/// (`root`, from `root_entry`), then the items of `walk_engine_items`.
pub fn walk_items(options: WalkOptions, available: usize, root: WalkedEntry) -> (items: Vec<WalkItem>)
    ensures
        exists|log: Seq<Reported>|
            dua_log_ok(options, log) && dua_ran(options, available, log) && walk_finished(log)
                && #[trigger] dua_output(options, root, log) == items@,
{
    let ghost o = options;
    let want_root = options.min_depth == 0;
    let mut rest = walk_engine_items(options, available);
    let ghost log = choose|log: Seq<Reported>|
        dua_log_ok(o, log) && dua_ran(o, available, log) && walk_finished(log) && #[trigger] dua_items(o, log) == rest@;
    let mut items: Vec<WalkItem> = Vec::new();
    if want_root {
        items.push(WalkItem::Entry(root));
    }
    items.append(&mut rest);
    assert(dua_output(o, root, log) =~= items@);
    items
}

} // verus!
