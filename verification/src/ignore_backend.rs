//! The ignore engine (ripgrep's walker) with its gitignore and hidden-file
//! filters off by default. Its parallel walk cannot be told, entry by entry,
//! which directories not to enter, so the walk drops the contents of a
//! directory with a skipped name by looking at each entry's ancestors.
use vstd::prelude::*;
use vstd::utf8::encode_utf8;
use crate::emit::{
    EngineReport, RawEntry, Reported, WalkItem, WalkedEntry, WalkedMeta, engine_view, lemma_handled_push,
    lemma_log_push, lemma_reported_push, log_handled, opt_seq, report_of, reported_item, reported_items,
    root_prefix, to_walked, walk_finished,
};
use crate::options::{WalkOptions, is_skip_name, name_in, root_bytes};
use crate::sys::{RawMeta, time_offset, walked_meta};
use crate::text::bytes_eq;

verus! {

// ---------------------------------------------------------------------
// Paths as components
// ---------------------------------------------------------------------

/// `Path::components` of the path with these bytes, each component as the
/// bytes of `Component::as_os_str`: `/` for the root directory, `.` and `..`
/// for the current and parent directory, the name itself otherwise.
pub uninterp spec fn path_components(path: Seq<u8>) -> Seq<Seq<u8>>;

/// `Path::components` of a path given as text, whose bytes are its UTF-8
/// encoding.
#[verifier::external_body]
fn components_of_str(path: &str) -> (cs: Vec<Vec<u8>>)
    ensures
        comps_view(cs@) == path_components(encode_utf8(path@)),
{
    std::path::Path::new(path).components().map(|c| c.as_os_str().as_encoded_bytes().to_vec()).collect()
}

pub open spec fn comps_view(cs: Seq<Vec<u8>>) -> Seq<Seq<u8>> {
    cs.map_values(|c: Vec<u8>| c@)
}

pub open spec fn is_root_dir_comp(c: Seq<u8>) -> bool {
    c == seq![0x2fu8]
}

/// A component that names a file: not the root directory, `.` or `..`.
pub open spec fn is_normal_comp(c: Seq<u8>) -> bool {
    !is_root_dir_comp(c) && c != seq![0x2eu8] && c != seq![0x2eu8, 0x2eu8]
}

/// `Path::parent`: the path without its last component, unless it has none
/// or ends at the root directory.
pub open spec fn comps_parent(cs: Seq<Seq<u8>>) -> Option<Seq<Seq<u8>>> {
    if cs.len() > 0 && !is_root_dir_comp(cs.last()) {
        Some(cs.drop_last())
    } else {
        None
    }
}

/// `Path::file_name`: the last component, when it names a file.
pub open spec fn comps_file_name(cs: Seq<Seq<u8>>) -> Option<Seq<u8>> {
    if cs.len() > 0 && is_normal_comp(cs.last()) {
        Some(cs.last())
    } else {
        None
    }
}

pub open spec fn name_skipped(skip: Seq<Vec<u8>>, name: Option<Seq<u8>>) -> bool {
    match name {
        Some(n) => is_skip_name(skip, n),
        None => false,
    }
}

/// Climbing from `cur` towards the root, whether some directory before the
/// root has a skipped name.
pub open spec fn climb_skipped(cur: Seq<Seq<u8>>, root: Seq<Seq<u8>>, skip: Seq<Vec<u8>>) -> bool
    decreases cur.len(),
{
    if cur == root {
        false
    } else if name_skipped(skip, comps_file_name(cur)) {
        true
    } else {
        match comps_parent(cur) {
            None => false,
            Some(p) => climb_skipped(p, root, skip),
        }
    }
}

/// Whether an entry lies inside a directory with a skipped name: the root
/// itself has one (and the entry is not the root), or some ancestor of the
/// entry below the root has one.
pub open spec fn under_skipped_dir_spec(
    path: Seq<Seq<u8>>,
    root: Seq<Seq<u8>>,
    skip: Seq<Vec<u8>>,
) -> bool {
    &&& skip.len() > 0
    &&& {
        ||| (path != root && name_skipped(skip, comps_file_name(root)))
        ||| match comps_parent(path) {
            None => false,
            Some(p) => climb_skipped(p, root, skip),
        }
    }
}

fn is_root_dir_comp_exec(c: &Vec<u8>) -> (r: bool)
    ensures
        r == is_root_dir_comp(c@),
{
    let r = c.len() == 1 && c[0] == 0x2fu8;
    proof {
        if r {
            assert(c@ =~= seq![0x2fu8]);
        }
    }
    r
}

fn file_name_of_prefix(cs: &Vec<Vec<u8>>, k: usize) -> (n: Option<&Vec<u8>>)
    requires
        k <= cs@.len(),
    ensures
        match comps_file_name(comps_view(cs@.take(k as int))) {
            None => n is None,
            Some(name) => n matches Some(v) && v@ == name,
        },
{
    if k == 0 {
        return None;
    }
    let c = &cs[k - 1];
    let one_dot = c.len() == 1 && c[0] == 0x2eu8;
    let two_dots = c.len() == 2 && c[0] == 0x2eu8 && c[1] == 0x2eu8;
    proof {
        let v = comps_view(cs@.take(k as int));
        assert(v.last() == c@);
        if one_dot {
            assert(c@ =~= seq![0x2eu8]);
        }
        if two_dots {
            assert(c@ =~= seq![0x2eu8, 0x2eu8]);
        }
        if c@ == seq![0x2eu8] {
            assert(c@[0] == 0x2eu8);
        }
        if c@ == seq![0x2eu8, 0x2eu8] {
            assert(c@[0] == 0x2eu8 && c@[1] == 0x2eu8);
        }
    }
    if is_root_dir_comp_exec(c) || one_dot || two_dots {
        None
    } else {
        Some(c)
    }
}

/// Whether the first `k` components of `cs` are the components of `root`.
fn prefix_is(cs: &Vec<Vec<u8>>, k: usize, root: &Vec<Vec<u8>>) -> (r: bool)
    requires
        k <= cs@.len(),
    ensures
        r == (comps_view(cs@.take(k as int)) == comps_view(root@)),
{
    if k != root.len() {
        proof {
            assert(comps_view(cs@.take(k as int)).len() != comps_view(root@).len());
        }
        return false;
    }
    let mut i: usize = 0;
    while i < k
        invariant
            k <= cs@.len(),
            k == root@.len(),
            i <= k,
            forall|j: int| 0 <= j < i ==> cs@[j]@ == #[trigger] root@[j]@,
        decreases k - i,
    {
        if !bytes_eq(cs[i].as_slice(), root[i].as_slice()) {
            proof {
                assert(comps_view(cs@.take(k as int))[i as int] != comps_view(root@)[i as int]);
            }
            return false;
        }
        i = i + 1;
    }
    proof {
        assert(comps_view(cs@.take(k as int)) =~= comps_view(root@));
    }
    true
}

/// Whether an entry lies inside a directory with a skipped name, given the
/// components of the entry's path and of the walk root's.
pub fn under_skipped_dir(path: &Vec<Vec<u8>>, root: &Vec<Vec<u8>>, skip_dirs: &Vec<Vec<u8>>) -> (r: bool)
    ensures
        r == under_skipped_dir_spec(comps_view(path@), comps_view(root@), skip_dirs@),
{
    let ghost p = comps_view(path@);
    let ghost rt = comps_view(root@);
    assert(path@.take(path@.len() as int) =~= path@);
    assert(root@.take(root@.len() as int) =~= root@);
    if skip_dirs.len() == 0 {
        return false;
    }
    if !prefix_is(path, path.len(), root) {
        match file_name_of_prefix(root, root.len()) {
            Some(n) => {
                if name_in(skip_dirs, n.as_slice()) {
                    return true;
                }
            },
            None => {},
        }
    }
    let n = path.len();
    if n == 0 || is_root_dir_comp_exec(&path[n - 1]) {
        return false;
    }
    let mut k: usize = n - 1;
    assert(comps_parent(p) == Some(comps_view(path@.take(k as int)))) by {
        assert(p.drop_last() =~= comps_view(path@.take(k as int)));
    }
    loop
        invariant
            k < path@.len(),
            p == comps_view(path@),
            rt == comps_view(root@),
            skip_dirs@.len() > 0,
            !(p != rt && name_skipped(skip_dirs@, comps_file_name(rt))),
            (match comps_parent(p) {
                None => false,
                Some(q) => climb_skipped(q, rt, skip_dirs@),
            }) == climb_skipped(comps_view(path@.take(k as int)), rt, skip_dirs@),
        decreases k,
    {
        let ghost cur = comps_view(path@.take(k as int));
        if prefix_is(path, k, root) {
            return false;
        }
        match file_name_of_prefix(path, k) {
            Some(name) => {
                if name_in(skip_dirs, name.as_slice()) {
                    return true;
                }
            },
            None => {},
        }
        if k == 0 || is_root_dir_comp_exec(&path[k - 1]) {
            proof {
                if k > 0 {
                    assert(cur.last() == path@[k - 1]@);
                }
            }
            return false;
        }
        proof {
            assert(cur.last() == path@[k - 1]@);
            assert(cur.drop_last() =~= comps_view(path@.take(k - 1)));
        }
        k = k - 1;
    }
}

// ---------------------------------------------------------------------
// The rules for each entry
// ---------------------------------------------------------------------

/// What the walk does with one entry that ignore reports.
#[derive(Clone, Copy, Debug, PartialEq, Eq, Structural)]
pub enum Classified {
    /// Leave it out and walk on.
    Drop,
    /// Leave out the root and do not enter it.
    SkipRoot,
    /// Yield it; `skip` tells the walker not to enter it.
    Emit { skip: bool },
}

/// The rule for one entry. The root (depth 0, or any entry whose path is
/// the root's) is never yielded, as the walk sends it itself; it is not
/// entered when its name is skipped. An entry inside a directory with a
/// skipped name is left out. Any other entry is yielded, and a directory
/// with a skipped name is not entered.
pub open spec fn classify_spec(
    o: WalkOptions,
    raw: RawEntry,
    path: Seq<Seq<u8>>,
    root: Seq<Seq<u8>>,
) -> Classified {
    let skip = raw.is_dir && is_skip_name(o.skip_dirs@, raw.file_name@);
    if raw.depth == 0 || raw.full_path@ == root_bytes(o) {
        if skip {
            Classified::SkipRoot
        } else {
            Classified::Drop
        }
    } else if under_skipped_dir_spec(path, root, o.skip_dirs@) {
        Classified::Drop
    } else {
        Classified::Emit { skip }
    }
}

/// Classifies one entry, given the components of its path and of the
/// walk root's.
pub fn classify_entry(
    options: &WalkOptions,
    raw: &RawEntry,
    path: &Vec<Vec<u8>>,
    root: &Vec<Vec<u8>>,
) -> (c: Classified)
    ensures
        c == classify_spec(*options, *raw, comps_view(path@), comps_view(root@)),
{
    let skip = raw.is_dir && options.should_skip_dir_name(raw.file_name.as_slice());
    if raw.depth == 0 || bytes_eq(raw.full_path.as_slice(), options.root_path_bytes()) {
        if skip {
            Classified::SkipRoot
        } else {
            Classified::Drop
        }
    } else if under_skipped_dir(path, root, &options.skip_dirs) {
        Classified::Drop
    } else {
        Classified::Emit { skip }
    }
}

/// What a parallel ignore walk is told after an entry.
#[derive(Clone, Copy, Debug, PartialEq, Eq, Structural)]
pub enum IgnoreWalkState {
    Continue,
    Skip,
    Quit,
}

/// After an entry of a parallel walk: a dropped entry walks on, a skipped
/// root is not entered, and a yielded entry stops the walk when it could not
/// be passed on (`sent` false), else is not entered when `skip` says so.
pub fn ignore_state(c: Classified, sent: bool) -> (s: IgnoreWalkState)
    ensures
        s == match c {
            Classified::Drop => IgnoreWalkState::Continue,
            Classified::SkipRoot => IgnoreWalkState::Skip,
            Classified::Emit { skip } => if !sent {
                IgnoreWalkState::Quit
            } else if skip {
                IgnoreWalkState::Skip
            } else {
                IgnoreWalkState::Continue
            },
        },
{
    match c {
        Classified::Drop => IgnoreWalkState::Continue,
        Classified::SkipRoot => IgnoreWalkState::Skip,
        Classified::Emit { skip } => if !sent {
            IgnoreWalkState::Quit
        } else if skip {
            IgnoreWalkState::Skip
        } else {
            IgnoreWalkState::Continue
        },
    }
}

/// Whether ignore walks in parallel: not when sorting, which only its serial
/// walk does, and not when `--threads` is 0 or 1.
pub fn ignore_use_parallel(options: &WalkOptions) -> (p: bool)
    ensures
        p == (!options.sort && !(options.threads == Some(0usize) || options.threads == Some(
            1usize,
        ))),
{
    !options.sort && !matches!(options.threads, Some(0) | Some(1))
}

/// Threads for a parallel ignore walk, whose own 0 lets ignore choose: no
/// count and `--threads 0` give 0, `--threads n` gives n.
pub fn ignore_threads(threads: Option<usize>) -> (n: usize)
    ensures
        n == match threads {
            None => 0,
            Some(t) => t,
        },
{
    match threads {
        None | Some(0) => 0,
        Some(n) => n,
    }
}

/// The depth limit handed to ignore: none when the walk is unbounded.
pub open spec fn ignore_max_depth_spec(max_depth: usize) -> Option<usize> {
    if max_depth == usize::MAX {
        None
    } else {
        Some(max_depth)
    }
}

pub fn ignore_max_depth(max_depth: usize) -> (d: Option<usize>)
    ensures
        d == ignore_max_depth_spec(max_depth),
{
    if max_depth != usize::MAX {
        Some(max_depth)
    } else {
        None
    }
}

// ---------------------------------------------------------------------
// The serial walk
// ---------------------------------------------------------------------

#[verifier::external_type_specification]
#[verifier::external_body]
pub struct ExIgnoreBuilder(ignore::WalkBuilder);

#[verifier::external_type_specification]
#[verifier::external_body]
pub struct ExIgnoreWalk(ignore::Walk);

#[verifier::external_type_specification]
#[verifier::external_body]
pub struct ExIgnoreEntry(ignore::DirEntry);

#[verifier::external_type_specification]
#[verifier::external_body]
pub struct ExIgnoreError(ignore::Error);

/// The settings of an ignore walk that this library sets.
pub struct IgnoreSettings {
    pub root: Seq<char>,
    /// The `.ignore`, `.gitignore`, global and exclude filters, and reading
    /// them from parent directories.
    pub ignore_files: bool,
    pub hidden: bool,
    pub follow_links: bool,
    pub min_depth: Option<usize>,
    pub max_depth: Option<usize>,
    pub sort_by_file_name: bool,
}

/// The settings an `ignore::WalkBuilder` holds.
pub uninterp spec fn ignore_built(b: ignore::WalkBuilder) -> IgnoreSettings;

/// The settings an `ignore::Walk` was built with.
pub uninterp spec fn ignore_started(w: ignore::Walk) -> IgnoreSettings;

/// Everything an ignore walk's `next` has returned so far, as plain reports.
pub uninterp spec fn ignore_reports(w: ignore::Walk) -> Seq<EngineReport>;

/// `ignore::WalkBuilder::new`: a walk of `root` (ignore-0.4.34 walk.rs
/// `empty`: no depth limits, links not followed, no sorter).
#[verifier::external_body]
fn ignore_new(root: &str) -> (b: ignore::WalkBuilder)
    ensures
        ignore_built(b).root == root@,
        ignore_built(b).follow_links == false,
        ignore_built(b).min_depth == None::<usize>,
        ignore_built(b).max_depth == None::<usize>,
        ignore_built(b).sort_by_file_name == false,
{
    ignore::WalkBuilder::new(root)
}

/// `WalkBuilder::standard_filters`: the hidden-file filter and the ignore
/// file filters all on or all off.
#[verifier::external_body]
fn ignore_standard_filters(b: &mut ignore::WalkBuilder, yes: bool)
    ensures
        ignore_built(*final(b)) == (IgnoreSettings { ignore_files: yes, hidden: yes, ..ignore_built(*old(b)) }),
{
    b.standard_filters(yes);
}

/// `WalkBuilder::hidden`: whether hidden files are left out.
#[verifier::external_body]
fn ignore_hidden(b: &mut ignore::WalkBuilder, yes: bool)
    ensures
        ignore_built(*final(b)) == (IgnoreSettings { hidden: yes, ..ignore_built(*old(b)) }),
{
    b.hidden(yes);
}

/// `WalkBuilder::follow_links`.
#[verifier::external_body]
fn ignore_follow_links(b: &mut ignore::WalkBuilder, yes: bool)
    ensures
        ignore_built(*final(b)) == (IgnoreSettings { follow_links: yes, ..ignore_built(*old(b)) }),
{
    b.follow_links(yes);
}

/// `WalkBuilder::max_depth`, which raises a maximum below a set minimum to it.
#[verifier::external_body]
fn ignore_max_depth_set(b: &mut ignore::WalkBuilder, depth: Option<usize>)
    ensures
        ignore_built(*final(b)) == (IgnoreSettings {
            max_depth: match (ignore_built(*old(b)).min_depth, depth) {
                (Some(min), Some(max)) => if max < min {
                    Some(min)
                } else {
                    Some(max)
                },
                _ => depth,
            },
            ..ignore_built(*old(b))
        }),
{
    b.max_depth(depth);
}

/// `WalkBuilder::sort_by_file_name`, comparing names as `OsStr` does.
#[verifier::external_body]
fn ignore_sort_by_file_name(b: &mut ignore::WalkBuilder)
    ensures
        ignore_built(*final(b)) == (IgnoreSettings { sort_by_file_name: true, ..ignore_built(*old(b)) }),
{
    b.sort_by_file_name(|left, right| left.cmp(right));
}

/// `WalkBuilder::build`: starts a serial walk with the builder's settings.
#[verifier::external_body]
fn ignore_build(b: &ignore::WalkBuilder) -> (w: ignore::Walk)
    ensures
        ignore_started(w) == ignore_built(*b),
        ignore_reports(w) == Seq::<EngineReport>::empty(),
{
    b.build()
}

/// Reads what an `ignore::DirEntry` reports of itself: `depth()`,
/// `file_name()`, `path()`, the path's parent (empty when it has none),
/// `file_type()` (an entry without one is neither directory, file nor link)
/// and `path_is_symlink()`; with it, `Path::components` of `path()`.
#[verifier::external_body]
fn ignore_raw(e: &ignore::DirEntry) -> (r: (RawEntry, Vec<Vec<u8>>))
    ensures
        comps_view(r.1@) == path_components(r.0.full_path@),
{
    let ft = e.file_type();
    (RawEntry {
        depth: e.depth(),
        file_name: e.file_name().as_encoded_bytes().to_vec(),
        full_path: e.path().as_os_str().as_encoded_bytes().to_vec(),
        parent_path: e.path().parent().map_or(Vec::new(), |p| p.as_os_str().as_encoded_bytes().to_vec()),
        is_dir: ft.is_some_and(|t| t.is_dir()),
        is_file: ft.is_some_and(|t| t.is_file()),
        is_symlink: ft.is_some_and(|t| t.is_symlink()),
        path_is_symlink: e.path_is_symlink(),
    }, e.path().components().map(|c| c.as_os_str().as_encoded_bytes().to_vec()).collect())
}

/// `Walk::next`: the next entry, with the components of its path, and what
/// it reports of itself (`ignore_raw`), or the error met, as its text;
/// `None` once the walk is over. What comes back depends on the file system;
/// it is added to the walk's reports. (ignore's serial walk unwraps a
/// missing parent, and panics, when it was given a minimum depth;
/// `IgnoreWalker` never gives one.)
#[verifier::external_body]
fn ignore_next(w: &mut ignore::Walk) -> (r: Option<Result<((ignore::DirEntry, Vec<Vec<u8>>), RawEntry), String>>)
    ensures
        ignore_started(*final(w)) == ignore_started(*old(w)),
        ignore_reports(*final(w)) == ignore_reports(*old(w)).push(report_of(r)),
        r matches Some(Ok(x)) ==> comps_view(x.0.1@) == path_components(x.1.full_path@),
{
    match w.next() {
        None => None,
        Some(Ok(e)) => {
            let (raw, comps) = ignore_raw(&e);
            Some(Ok(((e, comps), raw)))
        },
        Some(Err(err)) => Some(Err(err.to_string())),
    }
}

/// `DirEntry::metadata`: `None` when it fails. Reads the file system.
#[verifier::external_body]
fn ignore_meta(e: &ignore::DirEntry) -> Option<RawMeta> {
    match e.metadata() {
        Err(_) => None,
        Ok(m) => Some(RawMeta {
            accessed: time_offset(m.accessed()),
            created: time_offset(m.created()),
            modified: time_offset(m.modified()),
            size: m.len(),
            readonly: m.permissions().readonly(),
        }),
    }
}

/// Whether the serial walk yields an entry ignore reported: `classify_spec`
/// yields it, given the components of its own path and of the root's, and
/// it is not above the minimum depth (which ignore's serial walk is not
/// given: it panics on one).
pub open spec fn ignore_emits(o: WalkOptions, raw: RawEntry) -> bool {
    &&& classify_spec(o, raw, path_components(raw.full_path@), path_components(root_bytes(o))) is Emit
    &&& raw.depth >= o.min_depth
}

/// The rule by which an ignore walk keeps an entry ignore reported.
pub open spec fn ignore_rule(o: WalkOptions) -> spec_fn(RawEntry) -> bool {
    |raw: RawEntry| ignore_emits(o, raw)
}

/// The serial walk never tells ignore what not to enter.
pub open spec fn ignore_never_skips() -> spec_fn(RawEntry) -> bool {
    |raw: RawEntry| false
}

pub open spec fn ignore_log_ok(o: WalkOptions, log: Seq<Reported>) -> bool {
    log_handled(o.metadata, ignore_rule(o), ignore_never_skips(), log)
}

/// What a serial ignore walk gives: the root's entry when the minimum depth
/// is 0, then, in ignore's order, every error and every entry
/// `ignore_emits` keeps.
pub open spec fn ignore_output(o: WalkOptions, root: WalkedEntry, log: Seq<Reported>) -> Seq<WalkItem> {
    root_prefix(o.min_depth, root) + reported_items(ignore_rule(o), o.metadata, log)
}

/// The settings a serial walk hands ignore: the root, every filter off but
/// the hidden-name one, which `skip_hidden` sets, the link setting, no
/// minimum depth, the depth limit of `ignore_max_depth_spec`, and, when
/// sorting, sorting by file name.
pub open spec fn ignore_settings_for(o: WalkOptions) -> IgnoreSettings {
    IgnoreSettings {
        root: o.path@,
        ignore_files: false,
        hidden: o.skip_hidden,
        follow_links: o.follow_links,
        min_depth: None,
        max_depth: ignore_max_depth_spec(o.max_depth),
        sort_by_file_name: o.sort,
    }
}

/// Whether a walk's records are those of an ignore walk started with the
/// settings for `o`: ignore reported exactly what the records say.
pub open spec fn ignore_ran(o: WalkOptions, log: Seq<Reported>) -> bool {
    exists|w: ignore::Walk| #[trigger] ignore_started(w) == ignore_settings_for(o) && ignore_reports(w) == engine_view(log)
}

/// The options of an ignore walk together with the components of its root.
struct IgnoreContext {
    options: WalkOptions,
    root: Vec<Vec<u8>>,
}

impl IgnoreContext {
    #[verifier::type_invariant]
    spec fn wf(self) -> bool {
        comps_view(self.root@) == path_components(root_bytes(self.options))
    }
}

/// A serial walk with the ignore engine, yielding one item at a time.
pub struct IgnoreWalker {
    walk: ignore::Walk,
    ctx: IgnoreContext,
    log: Ghost<Seq<Reported>>,
    steps: usize,
}

impl IgnoreWalker {
    pub closed spec fn options(self) -> WalkOptions {
        self.ctx.options
    }

    /// Everything ignore has reported so far, in order, with what the walk
    /// did with each entry.
    pub closed spec fn log(self) -> Seq<Reported> {
        self.log@
    }

    /// The settings ignore was started with.
    pub closed spec fn engine_settings(self) -> IgnoreSettings {
        ignore_started(self.walk)
    }

    /// Everything ignore itself has reported so far.
    pub closed spec fn engine_reports(self) -> Seq<EngineReport> {
        ignore_reports(self.walk)
    }

    /// The walker's records agree with ignore's own, one step per report.
    pub closed spec fn wf(self) -> bool {
        &&& ignore_reports(self.walk) == engine_view(self.log@)
        &&& self.steps == self.log@.len()
    }

    /// Starts a serial walk of `options.path` with the settings of
    /// `ignore_settings_for`.
    pub fn new(options: WalkOptions) -> (w: IgnoreWalker)
        ensures
            w.wf(),
            w.options() == options,
            w.log() == Seq::<Reported>::empty(),
            w.engine_settings() == ignore_settings_for(options),
            w.engine_settings().root == options.path@,
            !w.engine_settings().ignore_files,
            w.engine_settings().hidden == options.skip_hidden,
            w.engine_settings().follow_links == options.follow_links,
            w.engine_settings().min_depth is None,
            w.engine_settings().sort_by_file_name == options.sort,
            options.max_depth < usize::MAX ==> w.engine_settings().max_depth == Some(options.max_depth),
            w.engine_reports() == engine_view(w.log()),
    {
        let mut b = ignore_new(options.path.as_str());
        ignore_standard_filters(&mut b, false);
        ignore_hidden(&mut b, options.skip_hidden);
        ignore_follow_links(&mut b, options.follow_links);
        ignore_max_depth_set(&mut b, ignore_max_depth(options.max_depth));
        if options.sort {
            ignore_sort_by_file_name(&mut b);
        }
        let walk = ignore_build(&b);
        let root = components_of_str(options.path.as_str());
        let w = IgnoreWalker { walk, ctx: IgnoreContext { options, root }, log: Ghost(Seq::empty()), steps: 0 };
        assert(engine_view(w.log@) =~= Seq::<EngineReport>::empty());
        assert(ignore_started(w.walk) == ignore_settings_for(options));
        w
    }

    /// The next item of the walk. It reads ignore's reports until one gives
    /// an item: an error, or an entry `ignore_emits` keeps; `None` when
    /// ignore says the walk is over, or the budget of `usize::MAX` reports
    /// is used up.
    pub fn next_item(&mut self) -> (r: Option<WalkItem>)
        requires
            old(self).wf(),
        ensures
            final(self).wf(),
            final(self).options() == old(self).options(),
            final(self).engine_settings() == old(self).engine_settings(),
            final(self).engine_reports() == engine_view(final(self).log()),
            old(self).log().is_prefix_of(final(self).log()),
            reported_items(ignore_rule(old(self).options()), old(self).options().metadata, final(self).log())
                == reported_items(ignore_rule(old(self).options()), old(self).options().metadata, old(self).log())
                + opt_seq(r),
            r is Some ==> final(self).log().len() > old(self).log().len() && reported_item(
                ignore_rule(old(self).options()),
                old(self).options().metadata,
                final(self).log().last(),
            ) == r,
            r is None ==> walk_finished(final(self).log()),
            ignore_log_ok(old(self).options(), old(self).log()) ==> ignore_log_ok(
                old(self).options(),
                final(self).log(),
            ),
    {
        proof {
            use_type_invariant(&self.ctx);
        }
        let ghost o = self.ctx.options;
        let ghost rule = ignore_rule(o);
        let ghost start = self.log@;
        let ghost settings = ignore_started(self.walk);
        while self.steps < usize::MAX
            invariant
                self.ctx == old(self).ctx,
                o == self.ctx.options,
                comps_view(self.ctx.root@) == path_components(root_bytes(o)),
                rule == ignore_rule(o),
                start == old(self).log@,
                settings == ignore_started(old(self).walk),
                ignore_started(self.walk) == settings,
                self.wf(),
                start.is_prefix_of(self.log@),
                reported_items(rule, o.metadata, self.log@) == reported_items(rule, o.metadata, start),
                ignore_log_ok(o, start) ==> ignore_log_ok(o, self.log@),
            decreases usize::MAX - self.steps,
        {
            let ghost before = self.log@;
            let next = ignore_next(&mut self.walk);
            self.steps = self.steps + 1;
            let ((e, comps), raw) = match next {
                None => {
                    self.log = Ghost(before.push(Reported::End));
                    proof {
                        lemma_log_push(before, Reported::End);
                        lemma_reported_push(rule, o.metadata, before, Reported::End);
                        assert(reported_items(rule, o.metadata, start) + opt_seq(None) =~= reported_items(rule, o.metadata, start));
                        lemma_handled_push(o.metadata, rule, ignore_never_skips(), start, before, Reported::End);
                    }
                    return None;
                },
                Some(Err(msg)) => {
                    self.log = Ghost(before.push(Reported::Error(msg)));
                    proof {
                        lemma_log_push(before, Reported::Error(msg));
                        lemma_reported_push(rule, o.metadata, before, Reported::Error(msg));
                        lemma_handled_push(o.metadata, rule, ignore_never_skips(), start, before, Reported::Error(msg));
                    }
                    return Some(WalkItem::Error(msg));
                },
                Some(Ok(x)) => x,
            };
            let c = classify_entry(&self.ctx.options, &raw, &comps, &self.ctx.root);
            let emit = matches!(c, Classified::Emit { .. }) && raw.depth >= self.ctx.options.min_depth;
            let meta: Option<RawMeta> = if emit && self.ctx.options.metadata {
                ignore_meta(&e)
            } else {
                None
            };
            let ghost rep = Reported::Entry { raw: raw, meta: meta, skipped: false };
            self.log = Ghost(before.push(rep));
            proof {
                assert(emit == ignore_emits(o, raw));
                lemma_log_push(before, rep);
                lemma_reported_push(rule, o.metadata, before, rep);
                lemma_handled_push(o.metadata, rule, ignore_never_skips(), start, before, rep);
                assert(ignore_reports(self.walk) == engine_view(self.log@));
            }
            if emit {
                let m: Option<WalkedMeta> = match meta {
                    Some(m) => Some(walked_meta(&m)),
                    None => None,
                };
                return Some(WalkItem::Entry(to_walked(raw, false, m)));
            }
        }
        None
    }
}

/// Walks to the end, serially: the root's entry first when the minimum
/// depth is 0 (`root`, from `root_entry`), then every item the walker gives.
pub fn walk_items(options: WalkOptions, root: WalkedEntry) -> (items: Vec<WalkItem>)
    ensures
        exists|log: Seq<Reported>|
            ignore_log_ok(options, log) && ignore_ran(options, log) && walk_finished(log)
                && #[trigger] ignore_output(options, root, log) == items@,
{
    let ghost o = options;
    let mut items: Vec<WalkItem> = Vec::new();
    if options.min_depth == 0 {
        items.push(WalkItem::Entry(root));
    }
    let mut w = IgnoreWalker::new(options);
    loop
        invariant
            w.wf(),
            w.options() == o,
            w.engine_settings() == ignore_settings_for(o),
            ignore_log_ok(o, w.log()),
            items@ == ignore_output(o, root, w.log()),
            w.log().len() <= usize::MAX,
        ensures
            w.wf(),
            w.engine_settings() == ignore_settings_for(o),
            ignore_log_ok(o, w.log()),
            items@ == ignore_output(o, root, w.log()),
            walk_finished(w.log()),
        decreases usize::MAX - w.log().len(),
    {
        match w.next_item() {
            None => {
                break;
            },
            Some(item) => items.push(item),
        }
    }
    assert(ignore_output(o, root, w.log()) == items@);
    assert(ignore_started(w.walk) == ignore_settings_for(o));
    items
}

} // verus!
