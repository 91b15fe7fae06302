//! The walkdir engine: a serial walk in which the walk itself decides, entry
//! by entry, what to yield and which directories not to enter.
use vstd::prelude::*;
use crate::emit::{
    EngineReport, RawEntry, Reported, WalkItem, WalkedEntry, WalkedMeta, engine_view, lemma_handled_push,
    lemma_log_push, lemma_reported_push, log_handled, opt_seq, report_of, reported_item, reported_items,
    root_prefix, skip_positions, to_walked, walk_finished,
};
use crate::options::{WalkOptions, hidden_name, is_hidden_name, is_skip_name, root_bytes};
use crate::sys::{RawMeta, time_offset, walked_meta};
use crate::text::bytes_eq;

verus! {

#[verifier::external_type_specification]
#[verifier::external_body]
pub struct ExWalkdirBuilder(walkdir::WalkDir);

#[verifier::external_type_specification]
#[verifier::external_body]
pub struct ExWalkdirIter(walkdir::IntoIter);

#[verifier::external_type_specification]
#[verifier::external_body]
pub struct ExWalkdirEntry(walkdir::DirEntry);

#[verifier::external_type_specification]
#[verifier::external_body]
pub struct ExWalkdirError(walkdir::Error);

// ---------------------------------------------------------------------
// What walkdir is given, and what it has reported
// ---------------------------------------------------------------------

/// The settings of a walkdir walk that this library sets.
pub struct WalkdirSettings {
    pub root: Seq<char>,
    pub min_depth: usize,
    pub max_depth: usize,
    pub follow_links: bool,
    pub sort_by_file_name: bool,
}

/// The settings a `walkdir::WalkDir` builder holds.
pub uninterp spec fn walkdir_built(b: walkdir::WalkDir) -> WalkdirSettings;

/// The settings the walk of a `walkdir::IntoIter` was started with.
pub uninterp spec fn walkdir_started(it: walkdir::IntoIter) -> WalkdirSettings;

/// Everything a walk's `next` has returned so far, as plain reports.
pub uninterp spec fn walkdir_reports(it: walkdir::IntoIter) -> Seq<EngineReport>;

/// For each call of `skip_current_dir` on a walk so far, how many reports
/// the walk had given by then.
pub uninterp spec fn walkdir_skips(it: walkdir::IntoIter) -> Seq<nat>;

/// `walkdir::WalkDir::new`: a walk of `root` with walkdir's defaults
/// (walkdir-2.5.0 lib.rs `new`: depths 0 and `usize::MAX`, links not
/// followed, no sorter).
#[verifier::external_body]
fn walkdir_new(root: &str) -> (b: walkdir::WalkDir)
    ensures
        walkdir_built(b) == (WalkdirSettings {
            root: root@,
            min_depth: 0,
            max_depth: usize::MAX,
            follow_links: false,
            sort_by_file_name: false,
        }),
{
    walkdir::WalkDir::new(root)
}

/// `WalkDir::min_depth`, which lowers the minimum to the maximum when it
/// is above it.
#[verifier::external_body]
fn walkdir_min_depth(w: walkdir::WalkDir, depth: usize) -> (r: walkdir::WalkDir)
    ensures
        walkdir_built(r) == (WalkdirSettings {
            min_depth: if depth > walkdir_built(w).max_depth {
                walkdir_built(w).max_depth
            } else {
                depth
            },
            ..walkdir_built(w)
        }),
{
    w.min_depth(depth)
}

/// `WalkDir::max_depth`, which raises the maximum to the minimum when it
/// is below it.
#[verifier::external_body]
fn walkdir_max_depth(w: walkdir::WalkDir, depth: usize) -> (r: walkdir::WalkDir)
    ensures
        walkdir_built(r) == (WalkdirSettings {
            max_depth: if depth < walkdir_built(w).min_depth {
                walkdir_built(w).min_depth
            } else {
                depth
            },
            ..walkdir_built(w)
        }),
{
    w.max_depth(depth)
}

/// `WalkDir::follow_links`.
#[verifier::external_body]
fn walkdir_follow_links(w: walkdir::WalkDir, yes: bool) -> (r: walkdir::WalkDir)
    ensures
        walkdir_built(r) == (WalkdirSettings { follow_links: yes, ..walkdir_built(w) }),
{
    w.follow_links(yes)
}

/// `WalkDir::sort_by_file_name`: each directory's entries sorted by name.
#[verifier::external_body]
fn walkdir_sort_by_file_name(w: walkdir::WalkDir) -> (r: walkdir::WalkDir)
    ensures
        walkdir_built(r) == (WalkdirSettings { sort_by_file_name: true, ..walkdir_built(w) }),
{
    w.sort_by_file_name()
}

/// `WalkDir::into_iter`: starts the walk with the builder's settings.
#[verifier::external_body]
fn walkdir_into_iter(w: walkdir::WalkDir) -> (it: walkdir::IntoIter)
    ensures
        walkdir_started(it) == walkdir_built(w),
        walkdir_reports(it) == Seq::<EngineReport>::empty(),
        walkdir_skips(it) == Seq::<nat>::empty(),
{
    w.into_iter()
}

/// Reads what a `walkdir::DirEntry` reports of itself: `depth`, `file_name`,
/// `path`, the path's parent (empty when it has none), `file_type` and
/// `path_is_symlink`.
#[verifier::external_body]
fn walkdir_raw(e: &walkdir::DirEntry) -> RawEntry {
    let ft = e.file_type();
    RawEntry {
        depth: e.depth(),
        file_name: e.file_name().as_encoded_bytes().to_vec(),
        full_path: e.path().as_os_str().as_encoded_bytes().to_vec(),
        parent_path: e.path().parent().map_or(Vec::new(), |p| p.as_os_str().as_encoded_bytes().to_vec()),
        is_dir: ft.is_dir(),
        is_file: ft.is_file(),
        is_symlink: ft.is_symlink(),
        path_is_symlink: e.path_is_symlink(),
    }
}

/// `IntoIter::next`: the next entry with what it reports of itself
/// (`walkdir_raw`), or the error met, as its text; `None` once the walk is
/// over. What comes back depends on the file system; it is added to the
/// walk's reports.
#[verifier::external_body]
fn walkdir_next(it: &mut walkdir::IntoIter) -> (r: Option<Result<(walkdir::DirEntry, RawEntry), String>>)
    ensures
        walkdir_started(*final(it)) == walkdir_started(*old(it)),
        walkdir_reports(*final(it)) == walkdir_reports(*old(it)).push(report_of(r)),
        walkdir_skips(*final(it)) == walkdir_skips(*old(it)),
{
    match it.next() {
        None => None,
        Some(Ok(e)) => {
            let raw = walkdir_raw(&e);
            Some(Ok((e, raw)))
        },
        Some(Err(err)) => Some(Err(err.to_string())),
    }
}

/// `IntoIter::skip_current_dir`: walkdir does not enter the directory it
/// yielded last (walkdir-2.5.0 lib.rs: it pops the directory being read, if
/// any). The call is recorded in the walk's skips.
#[verifier::external_body]
fn walkdir_skip_current_dir(it: &mut walkdir::IntoIter)
    ensures
        walkdir_started(*final(it)) == walkdir_started(*old(it)),
        walkdir_reports(*final(it)) == walkdir_reports(*old(it)),
        walkdir_skips(*final(it)) == walkdir_skips(*old(it)).push(walkdir_reports(*old(it)).len()),
{
    it.skip_current_dir()
}

/// `DirEntry::metadata`: `None` when it fails. Reads the file system.
#[verifier::external_body]
fn walkdir_meta(e: &walkdir::DirEntry) -> Option<RawMeta> {
    match e.metadata() {
        Err(_) => None,
        Ok(m) => Some(RawMeta {
            accessed: time_offset(m.accessed()),
            created: time_offset(m.created()),
            modified: time_offset(m.modified()),
            size: m.len(),
            readonly: m.permissions().readonly(),
        }),
    }
}

/// What the walk does with one entry.
#[derive(Clone, Copy, Debug, PartialEq, Eq, Structural)]
pub struct Step {
    /// Yield the entry.
    pub emit: bool,
    /// Do not enter the entry's directory.
    pub skip_children: bool,
}

/// The walkdir engine's rule for one entry. A hidden entry below the root
/// is dropped and, if a directory, not entered, when hidden names are
/// skipped. A directory with a skipped name is yielded but not entered. The
/// root (depth 0, or any entry whose path is the root's) is not yielded: the
/// walk sends it itself; it is not entered when its name is skipped.
pub open spec fn walkdir_step_spec(o: WalkOptions, raw: RawEntry) -> Step {
    if raw.depth > 0 && o.skip_hidden && hidden_name(raw.file_name@) {
        Step { emit: false, skip_children: raw.is_dir }
    } else {
        let skip = raw.is_dir && is_skip_name(o.skip_dirs@, raw.file_name@);
        if raw.depth == 0 || raw.full_path@ == root_bytes(o) {
            Step { emit: false, skip_children: skip }
        } else {
            Step { emit: true, skip_children: skip }
        }
    }
}

/// Decides what the walk does with one entry.
pub fn walkdir_step(options: &WalkOptions, raw: &RawEntry) -> (s: Step)
    ensures
        s == walkdir_step_spec(*options, *raw),
{
    if raw.depth > 0 && options.skip_hidden && is_hidden_name(raw.file_name.as_slice()) {
        return Step { emit: false, skip_children: raw.is_dir };
    }
    let skip = raw.is_dir && options.should_skip_dir_name(raw.file_name.as_slice());
    if raw.depth == 0 || bytes_eq(raw.full_path.as_slice(), options.root_path_bytes()) {
        Step { emit: false, skip_children: skip }
    } else {
        Step { emit: true, skip_children: skip }
    }
}

/// The rule by which a walkdir walk keeps an entry walkdir reported.
pub open spec fn walkdir_rule(o: WalkOptions) -> spec_fn(RawEntry) -> bool {
    |raw: RawEntry| walkdir_step_spec(o, raw).emit
}

/// Whether the walk tells walkdir not to enter an entry.
pub open spec fn walkdir_skips_rule(o: WalkOptions) -> spec_fn(RawEntry) -> bool {
    |raw: RawEntry| walkdir_step_spec(o, raw).skip_children
}

/// How the walk handled each entry walkdir reported: it told walkdir not to
/// enter it exactly when `walkdir_step_spec` says so, and read its metadata
/// only for an entry it yields, when the walk asks for metadata.
pub open spec fn walkdir_log_ok(o: WalkOptions, log: Seq<Reported>) -> bool {
    log_handled(o.metadata, walkdir_rule(o), walkdir_skips_rule(o), log)
}

/// What a walkdir walk gives: the root's entry when the minimum depth is
/// 0, then, in walkdir's order, every error and every entry that
/// `walkdir_step_spec` yields.
pub open spec fn walkdir_output(o: WalkOptions, root: WalkedEntry, log: Seq<Reported>) -> Seq<WalkItem> {
    root_prefix(o.min_depth, root) + reported_items(walkdir_rule(o), o.metadata, log)
}

/// The settings a walk hands walkdir: the root, the minimum depth, the
/// maximum depth (walkdir raises it to the minimum when below it), the link
/// setting and, when sorting, sorting by file name. The thread count and
/// the yield order do not reach walkdir.
pub open spec fn walkdir_settings_for(o: WalkOptions) -> WalkdirSettings {
    WalkdirSettings {
        root: o.path@,
        min_depth: o.min_depth,
        max_depth: if o.max_depth < o.min_depth {
            o.min_depth
        } else {
            o.max_depth
        },
        follow_links: o.follow_links,
        sort_by_file_name: o.sort,
    }
}

/// Whether a walk's records are those of a walkdir walk started with the
/// settings for `o`: walkdir reported exactly what the records say, and was
/// told not to enter exactly the entries they mark.
pub open spec fn walkdir_ran(o: WalkOptions, log: Seq<Reported>) -> bool {
    exists|it: walkdir::IntoIter|
        #[trigger] walkdir_started(it) == walkdir_settings_for(o) && walkdir_reports(it) == engine_view(log)
            && walkdir_skips(it) == skip_positions(log)
}

/// A walk with the walkdir engine, yielding one item at a time.
pub struct WalkdirWalker {
    iter: walkdir::IntoIter,
    options: WalkOptions,
    log: Ghost<Seq<Reported>>,
    steps: usize,
}

impl WalkdirWalker {
    pub closed spec fn options(self) -> WalkOptions {
        self.options
    }

    /// Everything walkdir has reported so far, in order, with what the walk
    /// did with each entry.
    pub closed spec fn log(self) -> Seq<Reported> {
        self.log@
    }

    /// The settings walkdir was started with.
    pub closed spec fn engine_settings(self) -> WalkdirSettings {
        walkdir_started(self.iter)
    }

    /// Everything walkdir itself has reported so far.
    pub closed spec fn engine_reports(self) -> Seq<EngineReport> {
        walkdir_reports(self.iter)
    }

    /// The calls of `skip_current_dir` made so far.
    pub closed spec fn engine_skips(self) -> Seq<nat> {
        walkdir_skips(self.iter)
    }

    /// The walker's records agree with walkdir's own: the same reports, the
    /// same skips, one step per report.
    pub closed spec fn wf(self) -> bool {
        &&& walkdir_reports(self.iter) == engine_view(self.log@)
        &&& walkdir_skips(self.iter) == skip_positions(self.log@)
        &&& self.steps == self.log@.len()
    }

    /// Starts a walk of `options.path` with the settings of
    /// `walkdir_settings_for`.
    pub fn new(options: WalkOptions) -> (w: WalkdirWalker)
        ensures
            w.wf(),
            w.options() == options,
            w.log() == Seq::<Reported>::empty(),
            w.engine_settings() == walkdir_settings_for(options),
            w.engine_settings().root == options.path@,
            w.engine_settings().min_depth == options.min_depth,
            w.engine_settings().max_depth >= options.max_depth,
            options.min_depth <= options.max_depth ==> w.engine_settings().max_depth == options.max_depth,
            w.engine_settings().follow_links == options.follow_links,
            w.engine_settings().sort_by_file_name == options.sort,
            w.engine_reports() == engine_view(w.log()),
            w.engine_skips() == skip_positions(w.log()),
    {
        let mut b = walkdir_new(options.path.as_str());
        b = walkdir_min_depth(b, options.min_depth);
        b = walkdir_max_depth(b, options.max_depth);
        b = walkdir_follow_links(b, options.follow_links);
        if options.sort {
            b = walkdir_sort_by_file_name(b);
        }
        let iter = walkdir_into_iter(b);
        let w = WalkdirWalker { iter, options, log: Ghost(Seq::empty()), steps: 0 };
        assert(engine_view(w.log@) =~= Seq::<EngineReport>::empty());
        w
    }

    /// The next item of the walk. It reads walkdir's reports until one gives
    /// an item: an error, or an entry `walkdir_step_spec` yields, telling
    /// walkdir not to enter each entry the rule says not to; `None` when
    /// walkdir says the walk is over, or the budget of `usize::MAX` reports
    /// is used up.
    pub fn next_item(&mut self) -> (r: Option<WalkItem>)
        requires
            old(self).wf(),
        ensures
            final(self).wf(),
            final(self).options() == old(self).options(),
            final(self).engine_settings() == old(self).engine_settings(),
            final(self).engine_reports() == engine_view(final(self).log()),
            final(self).engine_skips() == skip_positions(final(self).log()),
            old(self).log().is_prefix_of(final(self).log()),
            reported_items(walkdir_rule(old(self).options()), old(self).options().metadata, final(self).log())
                == reported_items(walkdir_rule(old(self).options()), old(self).options().metadata, old(self).log())
                + opt_seq(r),
            r is Some ==> final(self).log().len() > old(self).log().len() && reported_item(
                walkdir_rule(old(self).options()),
                old(self).options().metadata,
                final(self).log().last(),
            ) == r,
            r is None ==> walk_finished(final(self).log()),
            walkdir_log_ok(old(self).options(), old(self).log()) ==> walkdir_log_ok(
                old(self).options(),
                final(self).log(),
            ),
    {
        let ghost o = self.options;
        let ghost rule = walkdir_rule(o);
        let ghost start = self.log@;
        let ghost settings = walkdir_started(self.iter);
        while self.steps < usize::MAX
            invariant
                self.options == o,
                o == old(self).options,
                rule == walkdir_rule(o),
                start == old(self).log@,
                settings == walkdir_started(old(self).iter),
                walkdir_started(self.iter) == settings,
                self.wf(),
                start.is_prefix_of(self.log@),
                reported_items(rule, o.metadata, self.log@) == reported_items(rule, o.metadata, start),
                walkdir_log_ok(o, start) ==> walkdir_log_ok(o, self.log@),
            decreases usize::MAX - self.steps,
        {
            let ghost before = self.log@;
            let next = walkdir_next(&mut self.iter);
            self.steps = self.steps + 1;
            let (e, raw) = match next {
                None => {
                    self.log = Ghost(before.push(Reported::End));
                    proof {
                        lemma_log_push(before, Reported::End);
                        lemma_reported_push(rule, o.metadata, before, Reported::End);
                        assert(reported_items(rule, o.metadata, start) + opt_seq(None) =~= reported_items(rule, o.metadata, start));
                        assert(skip_positions(before) + Seq::<nat>::empty() =~= skip_positions(before));
                        lemma_handled_push(o.metadata, rule, walkdir_skips_rule(o), start, before, Reported::End);
                    }
                    return None;
                },
                Some(Err(msg)) => {
                    self.log = Ghost(before.push(Reported::Error(msg)));
                    proof {
                        lemma_log_push(before, Reported::Error(msg));
                        lemma_reported_push(rule, o.metadata, before, Reported::Error(msg));
                        assert(skip_positions(before) + Seq::<nat>::empty() =~= skip_positions(before));
                        lemma_handled_push(o.metadata, rule, walkdir_skips_rule(o), start, before, Reported::Error(msg));
                    }
                    return Some(WalkItem::Error(msg));
                },
                Some(Ok(x)) => x,
            };
            assert(walkdir_reports(self.iter) == engine_view(before).push(EngineReport::Entry(raw)));
            let step = walkdir_step(&self.options, &raw);
            if step.skip_children {
                walkdir_skip_current_dir(&mut self.iter);
                assert(walkdir_skips(self.iter) == skip_positions(before).push(before.len() + 1));
            }
            let meta: Option<RawMeta> = if step.emit && self.options.metadata {
                walkdir_meta(&e)
            } else {
                None
            };
            let ghost rep = Reported::Entry { raw: raw, meta: meta, skipped: step.skip_children };
            self.log = Ghost(before.push(rep));
            proof {
                lemma_log_push(before, rep);
                if !step.skip_children {
                    assert(skip_positions(before) + Seq::<nat>::empty() =~= skip_positions(before));
                }
                lemma_reported_push(rule, o.metadata, before, rep);
                lemma_handled_push(o.metadata, rule, walkdir_skips_rule(o), start, before, rep);
                assert(walkdir_reports(self.iter) == engine_view(self.log@));
                assert(walkdir_skips(self.iter) == skip_positions(self.log@));
                assert(self.steps == self.log@.len());
            }
            if step.emit {
                let m: Option<WalkedMeta> = match meta {
                    Some(m) => Some(walked_meta(&m)),
                    None => None,
                };
                return Some(WalkItem::Entry(to_walked(raw, false, m)));
            }
        }
        None
    }
}

/// Walks to the end: the root's entry first when the minimum depth is 0
/// (`root`, from `root_entry`), then every item the walker gives.
pub fn walk_items(options: WalkOptions, root: WalkedEntry) -> (items: Vec<WalkItem>)
    ensures
        exists|log: Seq<Reported>|
            walkdir_log_ok(options, log) && walkdir_ran(options, log) && walk_finished(log)
                && #[trigger] walkdir_output(options, root, log) == items@,
{
    let ghost o = options;
    let mut items: Vec<WalkItem> = Vec::new();
    if options.min_depth == 0 {
        items.push(WalkItem::Entry(root));
    }
    let mut w = WalkdirWalker::new(options);
    loop
        invariant
            w.wf(),
            w.options() == o,
            w.engine_settings() == walkdir_settings_for(o),
            walkdir_log_ok(o, w.log()),
            items@ == walkdir_output(o, root, w.log()),
            w.log().len() <= usize::MAX,
        ensures
            w.wf(),
            w.engine_settings() == walkdir_settings_for(o),
            walkdir_log_ok(o, w.log()),
            items@ == walkdir_output(o, root, w.log()),
            walk_finished(w.log()),
        decreases usize::MAX - w.log().len(),
    {
        match w.next_item() {
            None => {
                break;
            },
            Some(item) => items.push(item),
        }
    }
    assert(walkdir_output(o, root, w.log()) == items@);
    assert(walkdir_started(w.iter) == walkdir_settings_for(o));
    items
}

} // verus!
