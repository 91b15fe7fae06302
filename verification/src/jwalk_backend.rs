//! The jwalk engine: a parallel walk in which jwalk itself applies the depth
//! limits, hidden-name skipping and sorting, and the walk prunes directories
//! with skipped names as jwalk reads each directory.
use vstd::prelude::*;
use crate::emit::{
    EngineReport, RawEntry, Reported, WalkItem, WalkedEntry, WalkedMeta, engine_view, lemma_handled_push,
    lemma_log_push, lemma_reported_push, log_handled, opt_seq, report_of, reported_item, reported_items,
    root_prefix, to_walked, walk_finished,
};
use crate::options::{WalkOptions, hidden_name, is_hidden_name, is_skip_name, name_in, root_bytes};
use crate::sys::{RawMeta, time_offset, walked_meta};
use crate::text::{bytes_eq, bytes_le, copy_names, lemma_lex_le_total, lemma_lex_le_transitive, lex_le, names_view};

verus! {

/// A jwalk walk being configured. jwalk's types take a parameter bound by
/// jwalk's own `ClientState` trait and cannot be declared as they are, so
/// they are held opaquely here.
#[verifier::external_body]
pub struct JwalkBuilder {
    inner: jwalk::WalkDir,
}

/// A jwalk walk under way.
#[verifier::external_body]
pub struct JwalkIter {
    inner: jwalk::DirEntryIter<((), ())>,
}

/// An entry that jwalk yielded.
#[verifier::external_body]
pub struct JwalkEntry {
    inner: jwalk::DirEntry<((), ())>,
}

/// How jwalk spreads its work over threads.
#[derive(Clone, Copy, Debug, PartialEq, Eq, Structural)]
pub enum JwalkParallelism {
    /// On the calling thread.
    Serial,
    /// In rayon's shared pool, giving up when it stays busy this many seconds.
    RayonDefaultPool { busy_timeout_secs: u64 },
    /// In a new rayon pool of this many threads.
    RayonNewPool(usize),
}

/// `--threads 0` walks serially, `--threads n` in a new pool of n threads,
/// and no count in rayon's shared pool with a one-second busy timeout.
pub open spec fn jwalk_parallelism_spec(threads: Option<usize>) -> JwalkParallelism {
    match threads {
        Some(n) => if n == 0 {
            JwalkParallelism::Serial
        } else {
            JwalkParallelism::RayonNewPool(n)
        },
        None => JwalkParallelism::RayonDefaultPool { busy_timeout_secs: 1 },
    }
}

pub fn jwalk_parallelism(threads: Option<usize>) -> (p: JwalkParallelism)
    ensures
        p == jwalk_parallelism_spec(threads),
{
    match threads {
        Some(0) => JwalkParallelism::Serial,
        Some(n) => JwalkParallelism::RayonNewPool(n),
        None => JwalkParallelism::RayonDefaultPool { busy_timeout_secs: 1 },
    }
}

/// Whether jwalk is told not to read the contents of the i-th child of a
/// directory, given for each child read without error whether it is a
/// directory and its name: a directory with a skipped name.
pub open spec fn prune_at(children: Seq<Option<(bool, Vec<u8>)>>, skip_dirs: Seq<Vec<u8>>, i: int) -> bool {
    children[i] matches Some(c) && c.0 && is_skip_name(skip_dirs, c.1@)
}

/// The positions, in increasing order, of exactly the children jwalk is
/// told not to read (`prune_at`).
pub fn prune_positions(children: &Vec<Option<(bool, Vec<u8>)>>, skip_dirs: &Vec<Vec<u8>>) -> (pos: Vec<usize>)
    ensures
        forall|k: int| 0 <= k < pos@.len() ==> #[trigger] pos@[k] < children@.len() && prune_at(children@, skip_dirs@, pos@[k] as int),
        forall|i: int| 0 <= i < children@.len() && #[trigger] prune_at(children@, skip_dirs@, i) ==> pos@.contains(i as usize),
        forall|a: int, b: int| 0 <= a < b < pos@.len() ==> #[trigger] pos@[a] < #[trigger] pos@[b],
{
    let mut pos: Vec<usize> = Vec::new();
    let mut i: usize = 0;
    while i < children.len()
        invariant
            i <= children@.len(),
            forall|k: int| 0 <= k < pos@.len() ==> #[trigger] pos@[k] < i && prune_at(children@, skip_dirs@, pos@[k] as int),
            forall|j: int| 0 <= j < i && #[trigger] prune_at(children@, skip_dirs@, j) ==> pos@.contains(j as usize),
            forall|a: int, b: int| 0 <= a < b < pos@.len() ==> #[trigger] pos@[a] < #[trigger] pos@[b],
        decreases children@.len() - i,
    {
        let prune = match &children[i] {
            Some(c) => c.0 && name_in(skip_dirs, c.1.as_slice()),
            None => false,
        };
        if prune {
            let ghost old_pos = pos@;
            pos.push(i);
            proof {
                assert(pos@[old_pos.len() as int] == i);
                assert forall|j: int| 0 <= j < i + 1 && #[trigger] prune_at(children@, skip_dirs@, j) implies pos@.contains(j as usize) by {
                    if j < i {
                        let w = choose|w: int| 0 <= w < old_pos.len() && old_pos[w] == j as usize;
                        assert(pos@[w] == old_pos[w]);
                    }
                }
            }
        }
        i = i + 1;
    }
    pos
}

/// The settings of a jwalk walk that this library sets.
pub struct JwalkSettings {
    pub root: Seq<char>,
    pub sort: bool,
    pub skip_hidden: bool,
    pub follow_links: bool,
    pub min_depth: usize,
    pub max_depth: usize,
    pub parallelism: JwalkParallelism,
    /// The names a `jwalk_prune_skip_dirs` callback prunes; `None` when no
    /// callback was given.
    pub prune: Option<Seq<Seq<u8>>>,
}

/// The settings a jwalk builder holds.
pub uninterp spec fn jwalk_built(b: JwalkBuilder) -> JwalkSettings;

/// The settings a jwalk walk was started with.
pub uninterp spec fn jwalk_started(it: JwalkIter) -> JwalkSettings;

/// Everything a jwalk walk's `next` has returned so far, as plain reports.
pub uninterp spec fn jwalk_reports(it: JwalkIter) -> Seq<EngineReport>;

/// `jwalk::WalkDir::new`: a walk of `root` with jwalk's defaults
/// (jwalk-0.9.0 lib.rs `new`: no sorting, hidden names skipped, links not
/// followed, depths 0 and `usize::MAX`, rayon's shared pool with a
/// one-second busy timeout, no callback).
#[verifier::external_body]
fn jwalk_new(root: &str) -> (b: JwalkBuilder)
    ensures
        jwalk_built(b) == (JwalkSettings {
            root: root@,
            sort: false,
            skip_hidden: true,
            follow_links: false,
            min_depth: 0,
            max_depth: usize::MAX,
            parallelism: JwalkParallelism::RayonDefaultPool { busy_timeout_secs: 1 },
            prune: None,
        }),
{
    JwalkBuilder { inner: jwalk::WalkDir::new(root) }
}

/// `WalkDirGeneric::sort`.
#[verifier::external_body]
fn jwalk_sort(w: JwalkBuilder, yes: bool) -> (r: JwalkBuilder)
    ensures
        jwalk_built(r) == (JwalkSettings { sort: yes, ..jwalk_built(w) }),
{
    JwalkBuilder { inner: w.inner.sort(yes) }
}

/// `WalkDirGeneric::skip_hidden`.
#[verifier::external_body]
fn jwalk_skip_hidden(w: JwalkBuilder, yes: bool) -> (r: JwalkBuilder)
    ensures
        jwalk_built(r) == (JwalkSettings { skip_hidden: yes, ..jwalk_built(w) }),
{
    JwalkBuilder { inner: w.inner.skip_hidden(yes) }
}

/// `WalkDirGeneric::follow_links`.
#[verifier::external_body]
fn jwalk_follow_links(w: JwalkBuilder, yes: bool) -> (r: JwalkBuilder)
    ensures
        jwalk_built(r) == (JwalkSettings { follow_links: yes, ..jwalk_built(w) }),
{
    JwalkBuilder { inner: w.inner.follow_links(yes) }
}

/// `WalkDirGeneric::min_depth`, which lowers the minimum to the maximum
/// when it is above it.
#[verifier::external_body]
fn jwalk_min_depth(w: JwalkBuilder, depth: usize) -> (r: JwalkBuilder)
    ensures
        jwalk_built(r) == (JwalkSettings {
            min_depth: if depth > jwalk_built(w).max_depth {
                jwalk_built(w).max_depth
            } else {
                depth
            },
            ..jwalk_built(w)
        }),
{
    JwalkBuilder { inner: w.inner.min_depth(depth) }
}

/// `WalkDirGeneric::max_depth`, which raises the maximum to the minimum when
/// it is below it, and walks serially when the maximum is below 2.
#[verifier::external_body]
fn jwalk_max_depth(w: JwalkBuilder, depth: usize) -> (r: JwalkBuilder)
    ensures
        ({
            let max = if depth < jwalk_built(w).min_depth {
                jwalk_built(w).min_depth
            } else {
                depth
            };
            jwalk_built(r) == (JwalkSettings {
                max_depth: max,
                parallelism: if max < 2 {
                    JwalkParallelism::Serial
                } else {
                    jwalk_built(w).parallelism
                },
                ..jwalk_built(w)
            })
        }),
{
    JwalkBuilder { inner: w.inner.max_depth(depth) }
}

/// `WalkDirGeneric::parallelism`, with the library's choice written as jwalk's `Parallelism`.
#[verifier::external_body]
fn jwalk_parallelism_set(w: JwalkBuilder, p: JwalkParallelism) -> (r: JwalkBuilder)
    ensures
        jwalk_built(r) == (JwalkSettings { parallelism: p, ..jwalk_built(w) }),
{
    let inner = w.inner.parallelism(match p {
        JwalkParallelism::Serial => jwalk::Parallelism::Serial,
        JwalkParallelism::RayonDefaultPool { busy_timeout_secs } => jwalk::Parallelism::RayonDefaultPool {
            busy_timeout: std::time::Duration::from_secs(busy_timeout_secs),
        },
        JwalkParallelism::RayonNewPool(n) => jwalk::Parallelism::RayonNewPool(n),
    });
    JwalkBuilder { inner }
}

/// `WalkDirGeneric::process_read_dir` with a callback that, in each
/// directory read, sets `read_children` to `None` at exactly the positions
/// `prune_positions` gives for these names, so that jwalk yields those
/// directories but does not read them, and leaves every other child as it was.
#[verifier::external_body]
fn jwalk_prune_skip_dirs(w: JwalkBuilder, skip_dirs: Vec<Vec<u8>>) -> (r: JwalkBuilder)
    ensures
        jwalk_built(r) == (JwalkSettings { prune: Some(names_view(skip_dirs@)), ..jwalk_built(w) }),
{
    let inner = w.inner.process_read_dir(move |_depth, _path, _state, children| {
        let seen: Vec<Option<(bool, Vec<u8>)>> = children.iter()
            .map(|c| c.as_ref().ok().map(|e| (e.file_type.is_dir(), e.file_name.as_encoded_bytes().to_vec())))
            .collect();
        for i in prune_positions(&seen, &skip_dirs) {
            if let Ok(e) = &mut children[i] {
                e.read_children = None;
            }
        }
    });
    JwalkBuilder { inner }
}

/// `WalkDirGeneric::into_iter`: starts the walk with the builder's settings.
#[verifier::external_body]
fn jwalk_into_iter(w: JwalkBuilder) -> (it: JwalkIter)
    ensures
        jwalk_started(it) == jwalk_built(w),
        jwalk_reports(it) == Seq::<EngineReport>::empty(),
{
    JwalkIter { inner: w.inner.into_iter() }
}

/// Reads what a `jwalk::DirEntry` reports of itself: `depth`, `file_name`,
/// `path()`, `parent_path()`, `file_type` and `path_is_symlink()`.
#[verifier::external_body]
fn jwalk_raw(e: &JwalkEntry) -> RawEntry {
    let e = &e.inner;
    RawEntry {
        depth: e.depth,
        file_name: e.file_name.as_encoded_bytes().to_vec(),
        full_path: e.path().as_os_str().as_encoded_bytes().to_vec(),
        parent_path: e.parent_path().as_os_str().as_encoded_bytes().to_vec(),
        is_dir: e.file_type.is_dir(),
        is_file: e.file_type.is_file(),
        is_symlink: e.file_type.is_symlink(),
        path_is_symlink: e.path_is_symlink(),
    }
}

/// `DirEntryIter::next`: the next entry with what it reports of itself
/// (`jwalk_raw`), or the error met, as its text; `None` once the walk is
/// over. What comes back depends on the file system; it is added to the
/// walk's reports.
#[verifier::external_body]
fn jwalk_next(it: &mut JwalkIter) -> (r: Option<Result<(JwalkEntry, RawEntry), String>>)
    ensures
        jwalk_started(*final(it)) == jwalk_started(*old(it)),
        jwalk_reports(*final(it)) == jwalk_reports(*old(it)).push(report_of(r)),
{
    match it.inner.next() {
        None => None,
        Some(Ok(e)) => {
            let e = JwalkEntry { inner: e };
            let raw = jwalk_raw(&e);
            Some(Ok((e, raw)))
        },
        Some(Err(err)) => Some(Err(err.to_string())),
    }
}

/// `DirEntry::metadata`: `None` when it fails. Reads the file system.
#[verifier::external_body]
fn jwalk_meta(e: &JwalkEntry) -> Option<RawMeta> {
    match e.inner.metadata() {
        Err(_) => None,
        Ok(m) => Some(RawMeta {
            accessed: time_offset(m.accessed()),
            created: time_offset(m.created()),
            modified: time_offset(m.modified()),
            size: m.len(),
            readonly: m.permissions().readonly(),
        }),
    }
}

/// Whether the walk yields an entry jwalk reported: every entry below the
/// root whose path is not the root's (the walk sends the root itself).
pub open spec fn jwalk_emits(o: WalkOptions, raw: RawEntry) -> bool {
    raw.depth > 0 && raw.full_path@ != root_bytes(o)
}

pub fn jwalk_emit(options: &WalkOptions, raw: &RawEntry) -> (emit: bool)
    ensures
        emit == jwalk_emits(*options, *raw),
{
    raw.depth > 0 && !bytes_eq(raw.full_path.as_slice(), options.root_path_bytes())
}

/// The rule by which a jwalk walk keeps an entry jwalk reported.
pub open spec fn jwalk_rule(o: WalkOptions) -> spec_fn(RawEntry) -> bool {
    |raw: RawEntry| jwalk_emits(o, raw)
}

/// The walk itself never tells jwalk, entry by entry, what not to enter.
pub open spec fn never_skips() -> spec_fn(RawEntry) -> bool {
    |raw: RawEntry| false
}

pub open spec fn jwalk_log_ok(o: WalkOptions, log: Seq<Reported>) -> bool {
    log_handled(o.metadata, jwalk_rule(o), never_skips(), log)
}

/// What a jwalk walk gives: the root's entry when the minimum depth is 0,
/// then, in jwalk's order, every error and every entry `jwalk_emits` keeps.
pub open spec fn jwalk_output(o: WalkOptions, root: WalkedEntry, log: Seq<Reported>) -> Seq<WalkItem> {
    root_prefix(o.min_depth, root) + reported_items(jwalk_rule(o), o.metadata, log)
}

/// The settings a walk hands jwalk: the root, the sort, hidden-name and link
/// settings, the minimum depth, the maximum depth (raised to the minimum
/// when below it), the parallelism of `jwalk_parallelism_spec` (given after
/// the depths, so it stands), and, when names are skipped, the pruning
/// callback for them.
pub open spec fn jwalk_settings_for(o: WalkOptions) -> JwalkSettings {
    JwalkSettings {
        root: o.path@,
        sort: o.sort,
        skip_hidden: o.skip_hidden,
        follow_links: o.follow_links,
        min_depth: o.min_depth,
        max_depth: if o.max_depth < o.min_depth {
            o.min_depth
        } else {
            o.max_depth
        },
        parallelism: jwalk_parallelism_spec(o.threads),
        prune: if o.skip_dirs@.len() > 0 {
            Some(names_view(o.skip_dirs@))
        } else {
            None
        },
    }
}

/// Whether a walk's records are those of a jwalk walk started with the
/// settings for `o`: jwalk reported exactly what the records say.
pub open spec fn jwalk_ran(o: WalkOptions, log: Seq<Reported>) -> bool {
    exists|it: JwalkIter| #[trigger] jwalk_started(it) == jwalk_settings_for(o) && jwalk_reports(it) == engine_view(log)
}

/// A walk with the jwalk engine, yielding one item at a time.
pub struct JwalkWalker {
    iter: JwalkIter,
    options: WalkOptions,
    log: Ghost<Seq<Reported>>,
    steps: usize,
}

impl JwalkWalker {
    pub closed spec fn options(self) -> WalkOptions {
        self.options
    }

    /// Everything jwalk has reported so far, in order, with what the walk
    /// did with each entry.
    pub closed spec fn log(self) -> Seq<Reported> {
        self.log@
    }

    /// The settings jwalk was started with.
    pub closed spec fn engine_settings(self) -> JwalkSettings {
        jwalk_started(self.iter)
    }

    /// Everything jwalk itself has reported so far.
    pub closed spec fn engine_reports(self) -> Seq<EngineReport> {
        jwalk_reports(self.iter)
    }

    /// The walker's records agree with jwalk's own, one step per report.
    pub closed spec fn wf(self) -> bool {
        &&& jwalk_reports(self.iter) == engine_view(self.log@)
        &&& self.steps == self.log@.len()
    }

    /// Starts a walk of `options.path` with the settings of `jwalk_settings_for`.
    pub fn new(options: WalkOptions) -> (w: JwalkWalker)
        ensures
            w.wf(),
            w.options() == options,
            w.log() == Seq::<Reported>::empty(),
            w.engine_settings() == jwalk_settings_for(options),
            w.engine_settings().root == options.path@,
            w.engine_settings().sort == options.sort,
            w.engine_settings().skip_hidden == options.skip_hidden,
            w.engine_settings().follow_links == options.follow_links,
            w.engine_settings().min_depth == options.min_depth,
            w.engine_settings().max_depth >= options.max_depth,
            options.min_depth <= options.max_depth ==> w.engine_settings().max_depth == options.max_depth,
            options.skip_dirs@.len() > 0 ==> w.engine_settings().prune == Some(names_view(options.skip_dirs@)),
            w.engine_reports() == engine_view(w.log()),
    {
        let mut b = jwalk_new(options.path.as_str());
        b = jwalk_sort(b, options.sort);
        b = jwalk_skip_hidden(b, options.skip_hidden);
        b = jwalk_follow_links(b, options.follow_links);
        b = jwalk_min_depth(b, options.min_depth);
        b = jwalk_max_depth(b, options.max_depth);
        b = jwalk_parallelism_set(b, jwalk_parallelism(options.threads));
        if options.skip_dirs.len() > 0 {
            b = jwalk_prune_skip_dirs(b, copy_names(&options.skip_dirs));
        }
        let iter = jwalk_into_iter(b);
        let w = JwalkWalker { iter, options, log: Ghost(Seq::empty()), steps: 0 };
        assert(engine_view(w.log@) =~= Seq::<EngineReport>::empty());
        assert(jwalk_started(w.iter) == jwalk_settings_for(options));
        w
    }

    /// The next item of the walk. It reads jwalk's reports until one gives
    /// an item: an error, or an entry `jwalk_emits` keeps; `None` when jwalk
    /// says the walk is over, or the budget of `usize::MAX` reports is used up.
    pub fn next_item(&mut self) -> (r: Option<WalkItem>)
        requires
            old(self).wf(),
        ensures
            final(self).wf(),
            final(self).options() == old(self).options(),
            final(self).engine_settings() == old(self).engine_settings(),
            final(self).engine_reports() == engine_view(final(self).log()),
            old(self).log().is_prefix_of(final(self).log()),
            reported_items(jwalk_rule(old(self).options()), old(self).options().metadata, final(self).log())
                == reported_items(jwalk_rule(old(self).options()), old(self).options().metadata, old(self).log())
                + opt_seq(r),
            r is Some ==> final(self).log().len() > old(self).log().len() && reported_item(
                jwalk_rule(old(self).options()),
                old(self).options().metadata,
                final(self).log().last(),
            ) == r,
            r is None ==> walk_finished(final(self).log()),
            jwalk_log_ok(old(self).options(), old(self).log()) ==> jwalk_log_ok(
                old(self).options(),
                final(self).log(),
            ),
    {
        let ghost o = self.options;
        let ghost rule = jwalk_rule(o);
        let ghost start = self.log@;
        let ghost settings = jwalk_started(self.iter);
        while self.steps < usize::MAX
            invariant
                self.options == o,
                o == old(self).options,
                rule == jwalk_rule(o),
                start == old(self).log@,
                settings == jwalk_started(old(self).iter),
                jwalk_started(self.iter) == settings,
                self.wf(),
                start.is_prefix_of(self.log@),
                reported_items(rule, o.metadata, self.log@) == reported_items(rule, o.metadata, start),
                jwalk_log_ok(o, start) ==> jwalk_log_ok(o, self.log@),
            decreases usize::MAX - self.steps,
        {
            let ghost before = self.log@;
            let next = jwalk_next(&mut self.iter);
            self.steps = self.steps + 1;
            let (e, raw) = match next {
                None => {
                    self.log = Ghost(before.push(Reported::End));
                    proof {
                        lemma_log_push(before, Reported::End);
                        lemma_reported_push(rule, o.metadata, before, Reported::End);
                        assert(reported_items(rule, o.metadata, start) + opt_seq(None) =~= reported_items(rule, o.metadata, start));
                        lemma_handled_push(o.metadata, rule, never_skips(), start, before, Reported::End);
                    }
                    return None;
                },
                Some(Err(msg)) => {
                    self.log = Ghost(before.push(Reported::Error(msg)));
                    proof {
                        lemma_log_push(before, Reported::Error(msg));
                        lemma_reported_push(rule, o.metadata, before, Reported::Error(msg));
                        lemma_handled_push(o.metadata, rule, never_skips(), start, before, Reported::Error(msg));
                    }
                    return Some(WalkItem::Error(msg));
                },
                Some(Ok(x)) => x,
            };
            let emit = jwalk_emit(&self.options, &raw);
            let meta: Option<RawMeta> = if emit && self.options.metadata {
                jwalk_meta(&e)
            } else {
                None
            };
            let ghost rep = Reported::Entry { raw: raw, meta: meta, skipped: false };
            self.log = Ghost(before.push(rep));
            proof {
                lemma_log_push(before, rep);
                lemma_reported_push(rule, o.metadata, before, rep);
                lemma_handled_push(o.metadata, rule, never_skips(), start, before, rep);
                assert(jwalk_reports(self.iter) == engine_view(self.log@));
            }
            if emit {
                let m: Option<WalkedMeta> = match meta {
                    Some(m) => Some(walked_meta(&m)),
                    None => None,
                };
                return Some(WalkItem::Entry(to_walked(raw, false, m)));
            }
        }
        None
    }
}

/// Walks to the end: the root's entry first when the minimum depth is 0
/// (`root`, from `root_entry`), then every item the walker gives.
pub fn walk_items(options: WalkOptions, root: WalkedEntry) -> (items: Vec<WalkItem>)
    ensures
        exists|log: Seq<Reported>|
            jwalk_log_ok(options, log) && jwalk_ran(options, log) && walk_finished(log)
                && #[trigger] jwalk_output(options, root, log) == items@,
{
    let ghost o = options;
    let mut items: Vec<WalkItem> = Vec::new();
    if options.min_depth == 0 {
        items.push(WalkItem::Entry(root));
    }
    let mut w = JwalkWalker::new(options);
    loop
        invariant
            w.wf(),
            w.options() == o,
            w.engine_settings() == jwalk_settings_for(o),
            jwalk_log_ok(o, w.log()),
            items@ == jwalk_output(o, root, w.log()),
            w.log().len() <= usize::MAX,
        ensures
            w.wf(),
            w.engine_settings() == jwalk_settings_for(o),
            jwalk_log_ok(o, w.log()),
            items@ == jwalk_output(o, root, w.log()),
            walk_finished(w.log()),
        decreases usize::MAX - w.log().len(),
    {
        match w.next_item() {
            None => {
                break;
            },
            Some(item) => items.push(item),
        }
    }
    assert(jwalk_output(o, root, w.log()) == items@);
    assert(jwalk_started(w.iter) == jwalk_settings_for(o));
    items
}

// ---------------------------------------------------------------------
// The custom walker's rules
// ---------------------------------------------------------------------

/// `std::str::from_utf8(bytes).is_ok()`: whether the bytes are UTF-8.
#[verifier::external_body]
fn is_utf8(bytes: &[u8]) -> (ok: bool)
    ensures
        ok == vstd::utf8::valid_utf8(bytes@),
{
    std::str::from_utf8(bytes).is_ok()
}

/// Whether the custom walker keeps a child read without error: its name is
/// UTF-8 and starts with a dot.
pub fn custom_keeps(name: &[u8]) -> (keep: bool)
    ensures
        keep == (vstd::utf8::valid_utf8(name@) && hidden_name(name@)),
{
    is_utf8(name) && is_hidden_name(name)
}

/// Whether the custom walker reads no further below an entry: at depth 2.
pub fn custom_stops(depth: usize) -> (stop: bool)
    ensures
        stop == (depth == 2),
{
    depth == 2
}

/// The name of a child the custom walker read: its name when read without
/// error, else empty.
pub open spec fn child_name(children: Seq<Option<Vec<u8>>>, i: int) -> Seq<u8> {
    match children[i] {
        Some(n) => n@,
        None => Seq::empty(),
    }
}

/// Whether the custom walker keeps a child: read without error, with a
/// UTF-8 name that starts with a dot.
pub open spec fn custom_kept(children: Seq<Option<Vec<u8>>>, i: int) -> bool {
    children[i] matches Some(n) && vstd::utf8::valid_utf8(n@) && hidden_name(n@)
}

/// The order of the custom walker's children: by name, and, among equal
/// names, as they were read.
pub open spec fn custom_before(children: Seq<Option<Vec<u8>>>, i: int, j: int) -> bool {
    &&& lex_le(child_name(children, i), child_name(children, j))
    &&& (lex_le(child_name(children, j), child_name(children, i)) ==> i < j)
}

/// A plan for one directory of the custom walk: the positions of exactly
/// the kept children, in the custom order.
pub open spec fn plan_ok(children: Seq<Option<Vec<u8>>>, plan: Seq<usize>) -> bool {
    &&& forall|k: int|
        0 <= k < plan.len() ==> #[trigger] plan[k] < children.len() && custom_kept(
            children,
            plan[k] as int,
        )
    &&& forall|i: int|
        0 <= i < children.len() && #[trigger] custom_kept(children, i) ==> plan.contains(i as usize)
    &&& forall|a: int, b: int|
        0 <= a < b < plan.len() ==> custom_before(children, #[trigger] plan[a] as int, #[trigger] plan[b] as int)
}

fn child_bytes(children: &Vec<Option<Vec<u8>>>, i: usize) -> (b: &[u8])
    requires
        i < children@.len(),
    ensures
        b@ == child_name(children@, i as int),
{
    match &children[i] {
        Some(n) => n.as_slice(),
        None => &[],
    }
}

/// What the custom walker does with the children of one directory, as
/// `children[i]` gives the name of the i-th child read (`None` when reading
/// it failed): it keeps the children with a UTF-8 name that starts with a
/// dot, sorted by name (ties in the order read). The result lists their
/// positions in that order; the first is the one the walker marks.
pub fn custom_plan(children: &Vec<Option<Vec<u8>>>) -> (plan: Vec<usize>)
    ensures
        plan_ok(children@, plan@),
{
    let ghost c = children@;
    let mut plan: Vec<usize> = Vec::new();
    let mut i: usize = 0;
    while i < children.len()
        invariant
            c == children@,
            i <= c.len(),
            forall|k: int| 0 <= k < plan@.len() ==> #[trigger] plan@[k] < i && custom_kept(c, plan@[k] as int),
            forall|j: int| 0 <= j < i && #[trigger] custom_kept(c, j) ==> plan@.contains(j as usize),
            forall|a: int, b: int|
                0 <= a < b < plan@.len() ==> custom_before(c, #[trigger] plan@[a] as int, #[trigger] plan@[b] as int),
        decreases c.len() - i,
    {
        let keep = match &children[i] {
            Some(n) => custom_keeps(n.as_slice()),
            None => false,
        };
        assert(keep == custom_kept(c, i as int));
        if keep {
            let name = child_bytes(children, i);
            let mut p: usize = 0;
            while p < plan.len() && bytes_le(child_bytes(children, plan[p]), name)
                invariant
                    c == children@,
                    i < c.len(),
                    name@ == child_name(c, i as int),
                    p <= plan@.len(),
                    forall|k: int| 0 <= k < plan@.len() ==> #[trigger] plan@[k] < i,
                    forall|q: int| 0 <= q < p ==> lex_le(child_name(c, #[trigger] plan@[q] as int), name@),
                decreases plan@.len() - p,
            {
                p = p + 1;
            }
            let ghost old_plan = plan@;
            plan.insert(p, i);
            proof {
                let n = plan@;
                assert(n == old_plan.insert(p as int, i));
                assert forall|k: int| 0 <= k < n.len() implies #[trigger] n[k] < i + 1 && custom_kept(
                    c,
                    n[k] as int,
                ) by {
                    if k < p {
                        assert(n[k] == old_plan[k]);
                    } else if k > p {
                        assert(n[k] == old_plan[k - 1]);
                    }
                }
                assert forall|j: int| 0 <= j < i + 1 && #[trigger] custom_kept(c, j) implies n.contains(
                    j as usize,
                ) by {
                    if j < i {
                        let w = choose|w: int| 0 <= w < old_plan.len() && old_plan[w] == j as usize;
                        if w < p {
                            assert(n[w] == old_plan[w]);
                        } else {
                            assert(n[w + 1] == old_plan[w]);
                        }
                    } else {
                        assert(n[p as int] == i);
                    }
                }
                assert forall|a: int, b: int| 0 <= a < b < n.len() implies custom_before(
                    c,
                    #[trigger] n[a] as int,
                    #[trigger] n[b] as int,
                ) by {
                    let ni = child_name(c, i as int);
                    if b < p {
                        assert(n[a] == old_plan[a] && n[b] == old_plan[b]);
                    } else if a > p {
                        assert(n[a] == old_plan[a - 1] && n[b] == old_plan[b - 1]);
                    } else if a < p && b > p {
                        assert(n[a] == old_plan[a] && n[b] == old_plan[b - 1]);
                    } else if b == p {
                        assert(n[a] == old_plan[a] && n[b] == i);
                        assert(lex_le(child_name(c, old_plan[a] as int), ni));
                        assert(old_plan[a] < i);
                    } else {
                        assert(a == p);
                        assert(n[a] == i && n[b] == old_plan[b - 1]);
                        let y = child_name(c, old_plan[b - 1] as int);
                        let first = child_name(c, old_plan[p as int] as int);
                        assert(!lex_le(first, ni));
                        if b - 1 > p {
                            assert(custom_before(c, old_plan[p as int] as int, old_plan[b - 1] as int));
                            assert(lex_le(first, y));
                        } else {
                            lemma_lex_le_total(first, first);
                        }
                        assert(lex_le(first, y));
                        if lex_le(y, ni) {
                            lemma_lex_le_transitive(first, y, ni);
                        }
                        lemma_lex_le_total(ni, y);
                    }
                }
            }
        }
        i = i + 1;
    }
    proof {
        assert forall|k: int| 0 <= k < plan@.len() implies #[trigger] plan@[k] < c.len() && custom_kept(
            c,
            plan@[k] as int,
        ) by {}
    }
    plan
}

} // verus!
