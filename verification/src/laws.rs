//! Properties of the library as a whole: what the option parser gives back
//! of the names it prints, which option combinations a walk accepts, and
//! what every engine's rules guarantee about the entries a walk yields.
use vstd::prelude::*;
use crate::dua_backend::{descend_spec, dua_output, dua_rule, yield_spec};
use crate::emit::{
    RawEntry, Reported, WalkItem, WalkedEntry, WalkedMeta, handled, lemma_reported_not_root,
    entry_count, entry_pred, lemma_entry_count_is_entries, lemma_sort_laws, opt_seq, plain_entry, reported_item, reported_items,
    root_item, root_prefix, same_key, sort_spec, sorted_items, walked_from_raw,
};
use crate::jwalk_backend::{jwalk_emits, jwalk_output, jwalk_rule, jwalk_settings_for};
use crate::dua_backend::{dua_emits, dua_settings_for};
use crate::ignore_backend::{
    Classified, classify_spec, climb_skipped, comps_file_name, comps_parent, ignore_output,
    ignore_emits, ignore_rule, ignore_settings_for, is_normal_comp, is_root_dir_comp, name_skipped, path_components, under_skipped_dir_spec,
};
use crate::options::{
    Engine, OptionError, WalkOptions, WalkOrder, bool_text, debug_summary_text, decimal_text,
    duration_debug_text, engine_name, error_title, hidden_name, is_skip_name, names_debug_text,
    option_debug_text, order_name, opt_view, parse_engine_spec, parse_order_spec, root_bytes,
    validation_error,
};
use crate::text::names_view;
use crate::walkdir_backend::{
    Step, walkdir_log_ok, walkdir_output, walkdir_ran, walkdir_rule, walkdir_settings_for, walkdir_skips_rule,
    walkdir_step_spec,
};

verus! {

/// Parsing the name that `Engine::as_str` prints gives the engine back.
pub proof fn lemma_engine_name_roundtrip(e: Engine)
    ensures
        parse_engine_spec(Some(engine_name(e))) == Some(e),
{
    reveal_strlit("jwalk");
    reveal_strlit("dua");
    reveal_strlit("ignore");
    reveal_strlit("walkdir");
    reveal_strlit("zlob");
    assert("jwalk"@.len() == 5);
    assert("dua"@.len() == 3);
    assert("ignore"@.len() == 6);
    assert("walkdir"@.len() == 7);
    assert("zlob"@.len() == 4);
}

/// Parsing the name that `WalkOrder::as_str` prints gives the order back.
pub proof fn lemma_order_name_roundtrip(o: WalkOrder)
    ensures
        parse_order_spec(Some(order_name(o))) == Some(o),
{
    reveal_strlit("completion");
    reveal_strlit("parent-first");
    assert("completion"@.len() == 10);
    assert("parent-first"@.len() == 12);
}

/// Without a flag, the walk uses the jwalk engine and dua's completion order.
pub proof fn lemma_defaults()
    ensures
        parse_engine_spec(None) == Some(Engine::Jwalk),
        parse_order_spec(None) == Some(WalkOrder::Completion),
{
}

/// A walk accepts its options exactly when the engine is built here, links
/// are followed only by engines other than dua, and the custom walker is
/// asked for only with jwalk and record output.
pub proof fn lemma_validation(o: WalkOptions)
    ensures
        validation_error(o) is None <==> {
            &&& o.engine != Engine::Zlob
            &&& (o.follow_links ==> o.engine != Engine::Dua)
            &&& (o.custom ==> o.engine == Engine::Jwalk && (o.verbose || o.metadata))
        },
{
}

/// Following links with dua is refused, and the refusal names jwalk.
pub proof fn lemma_dua_follow_links_refused(o: WalkOptions)
    requires
        o.engine == Engine::Dua,
        o.follow_links,
    ensures
        validation_error(o) == Some(OptionError::FollowLinksUnsupported),
        error_title(OptionError::FollowLinksUnsupported).subrange(26, 31) == "jwalk"@,
{
    reveal_strlit("follow-links requires the jwalk engine");
    reveal_strlit("jwalk");
    assert(error_title(OptionError::FollowLinksUnsupported).subrange(26, 31) =~= "jwalk"@);
}

/// A directory with a skipped name is yielded but not entered: walkdir
/// yields it and skips its contents, and dua yields it without entering it.
pub proof fn lemma_skip_dir_walkdir_dua(o: WalkOptions, raw: RawEntry)
    requires
        raw.is_dir,
        is_skip_name(o.skip_dirs@, raw.file_name@),
        raw.depth > 0,
        raw.depth >= o.min_depth,
        raw.full_path@ != root_bytes(o),
        !(o.skip_hidden && hidden_name(raw.file_name@)),
    ensures
        walkdir_step_spec(o, raw) == (Step { emit: true, skip_children: true }),
        !descend_spec(o, raw.depth, raw.file_name@, raw.is_dir),
        yield_spec(o, raw.depth, raw.file_name@),
{
}

proof fn lemma_climb_finds(rt: Seq<Seq<u8>>, rel: Seq<Seq<u8>>, skip: Seq<Vec<u8>>, k: int, j: int)
    requires
        0 <= j < k <= rel.len(),
        forall|i: int| 0 <= i < rel.len() ==> is_normal_comp(#[trigger] rel[i]),
        is_skip_name(skip, rel[j]),
    ensures
        climb_skipped(rt + rel.take(k), rt, skip),
    decreases k,
{
    let cur = rt + rel.take(k);
    assert(cur.len() == rt.len() + k);
    assert(cur != rt);
    assert(cur.last() == rel[k - 1]);
    assert(is_normal_comp(rel[k - 1]));
    if is_skip_name(skip, rel[k - 1]) {
        assert(comps_file_name(cur) == Some(rel[k - 1]));
    } else {
        assert(!is_root_dir_comp(cur.last()));
        assert(cur.drop_last() =~= rt + rel.take(k - 1));
        assert(comps_parent(cur) == Some(rt + rel.take(k - 1)));
        lemma_climb_finds(rt, rel, skip, k - 1, j);
    }
}

/// A directory with a skipped name is yielded but not entered by the ignore
/// walk: every entry below it (its path runs from the root through the
/// skipped directory, by ordinary names) is left out.
pub proof fn lemma_skip_dir_ignore(o: WalkOptions, raw: RawEntry, rel: Seq<Seq<u8>>, j: int)
    requires
        forall|i: int| 0 <= i < rel.len() ==> is_normal_comp(#[trigger] rel[i]),
        0 <= j < rel.len() - 1,
        is_skip_name(o.skip_dirs@, rel[j]),
        raw.depth > 0,
        raw.full_path@ != root_bytes(o),
    ensures
        classify_spec(o, raw, path_components(root_bytes(o)) + rel, path_components(root_bytes(o)))
            == Classified::Drop,
{
    let rt = path_components(root_bytes(o));
    let path = rt + rel;
    assert(o.skip_dirs@.len() > 0);
    assert(path.last() == rel[rel.len() - 1]);
    assert(path.drop_last() =~= rt + rel.take(rel.len() - 1));
    assert(comps_parent(path) == Some(rt + rel.take(rel.len() - 1)));
    lemma_climb_finds(rt, rel, o.skip_dirs@, rel.len() - 1, j);
    assert(under_skipped_dir_spec(path, rt, o.skip_dirs@));
}

/// A sorted dua walk gives the root's entry first (when the minimum depth
/// is 0) and then every item dua's reports give, sorted by file name, each
/// as often as it was reported, equal names in dua's order.
pub proof fn lemma_dua_sorted_output(o: WalkOptions, root: WalkedEntry, log: Seq<Reported>)
    requires
        o.sort,
    ensures
        dua_output(o, root, log) == root_prefix(o.min_depth, root) + sort_spec(
            reported_items(dua_rule(o), o.metadata, log),
        ),
        sorted_items(sort_spec(reported_items(dua_rule(o), o.metadata, log))),
        sort_spec(reported_items(dua_rule(o), o.metadata, log)).to_multiset() == reported_items(
            dua_rule(o),
            o.metadata,
            log,
        ).to_multiset(),
        forall|x: WalkItem|
            #[trigger] sort_spec(reported_items(dua_rule(o), o.metadata, log)).filter(same_key(x))
                == reported_items(dua_rule(o), o.metadata, log).filter(same_key(x)),
{
    lemma_sort_laws(reported_items(dua_rule(o), o.metadata, log));
}

/// Whether a walk's items give the root once and first: the root's entry
/// leads when the minimum depth is 0, and no other item is the root.
pub open spec fn root_once_first(o: WalkOptions, root: WalkedEntry, s: Seq<WalkItem>) -> bool {
    &&& forall|i: int| 0 <= i < s.len() && #[trigger] root_item(s[i], root_bytes(o)) ==> i == 0 && o.min_depth == 0
    &&& (o.min_depth == 0 ==> s.len() > 0 && s[0] == WalkItem::Entry(root))
}

proof fn lemma_prefix_root(o: WalkOptions, root: WalkedEntry, items: Seq<WalkItem>)
    requires
        root.depth == 0,
        forall|i: int| 0 <= i < items.len() ==> !root_item(#[trigger] items[i], root_bytes(o)),
    ensures
        root_once_first(o, root, root_prefix(o.min_depth, root) + items),
{
    let p = root_prefix(o.min_depth, root);
    let s = p + items;
    assert forall|i: int| 0 <= i < s.len() && #[trigger] root_item(s[i], root_bytes(o)) implies i == 0
        && o.min_depth == 0 by {
        if i >= p.len() {
            assert(s[i] == items[i - p.len()]);
        }
    }
    if o.min_depth == 0 {
        assert(s[0] == WalkItem::Entry(root));
    }
}

/// Every engine's walk gives the walk root once, first, and only when the
/// minimum depth is 0 (`root` being the entry of `root_entry`): no rule
/// passes on an entry at depth 0 or at the root's path.
pub proof fn lemma_root_once_first(o: WalkOptions, root: WalkedEntry, log: Seq<Reported>)
    requires
        root.depth == 0,
    ensures
        root_once_first(o, root, walkdir_output(o, root, log)),
        root_once_first(o, root, jwalk_output(o, root, log)),
        root_once_first(o, root, dua_output(o, root, log)),
        root_once_first(o, root, ignore_output(o, root, log)),
{
    let rb = root_bytes(o);
    lemma_reported_not_root(walkdir_rule(o), o.metadata, log, rb);
    lemma_prefix_root(o, root, reported_items(walkdir_rule(o), o.metadata, log));
    lemma_reported_not_root(jwalk_rule(o), o.metadata, log, rb);
    lemma_prefix_root(o, root, reported_items(jwalk_rule(o), o.metadata, log));
    lemma_reported_not_root(ignore_rule(o), o.metadata, log, rb);
    lemma_prefix_root(o, root, reported_items(ignore_rule(o), o.metadata, log));
    let d = reported_items(dua_rule(o), o.metadata, log);
    lemma_reported_not_root(dua_rule(o), o.metadata, log, rb);
    if o.sort {
        lemma_sort_laws(d);
        let t = sort_spec(d);
        assert forall|i: int| 0 <= i < t.len() implies !root_item(#[trigger] t[i], rb) by {
            broadcast use vstd::seq_lib::group_to_multiset_ensures;
            assert(t.to_multiset().count(t[i]) > 0);
            assert(d.contains(t[i]));
        }
        lemma_prefix_root(o, root, t);
    } else {
        lemma_prefix_root(o, root, d);
    }
}

/// The entries a rule passes on hold whatever the rule guarantees of them.
proof fn lemma_reported_entries(
    emits: spec_fn(RawEntry) -> bool,
    want_metadata: bool,
    log: Seq<Reported>,
    p: spec_fn(WalkedEntry) -> bool,
)
    requires
        forall|raw: RawEntry, meta: Option<WalkedMeta>|
            emits(raw) && (meta is Some ==> want_metadata) ==> #[trigger] p(walked_from_raw(raw, false, meta)),
    ensures
        forall|i: int|
            0 <= i < reported_items(emits, want_metadata, log).len() ==> (#[trigger] reported_items(
                emits,
                want_metadata,
                log,
            )[i] matches WalkItem::Entry(e) ==> p(e)),
    decreases log.len(),
{
    if log.len() > 0 {
        let prev = reported_items(emits, want_metadata, log.drop_last());
        let last = opt_seq(reported_item(emits, want_metadata, log.last()));
        lemma_reported_entries(emits, want_metadata, log.drop_last(), p);
        assert forall|i: int| 0 <= i < (prev + last).len() implies (#[trigger] (prev + last)[i] matches WalkItem::Entry(e) ==> p(e)) by {
            if i < prev.len() {
                assert((prev + last)[i] == prev[i]);
            } else {
                assert((prev + last)[i] == last[i - prev.len()]);
            }
        }
    }
}

/// What the dua and ignore walks' own rules guarantee of every entry they
/// pass on: it is not above the minimum depth; with dua (and walkdir) and
/// hidden names skipped, no entry below the root is hidden. No engine
/// passes on an entry marked by the custom walker, or metadata the walk did
/// not ask for.
pub proof fn lemma_entries_obey_rules(o: WalkOptions, log: Seq<Reported>)
    ensures
        forall|i: int|
            0 <= i < reported_items(dua_rule(o), o.metadata, log).len() ==> (#[trigger] reported_items(
                dua_rule(o),
                o.metadata,
                log,
            )[i] matches WalkItem::Entry(e) ==> e.depth >= o.min_depth && (o.skip_hidden
                ==> !hidden_name(e.file_name@)) && plain_entry(o.metadata, e)),
        forall|i: int|
            0 <= i < reported_items(ignore_rule(o), o.metadata, log).len() ==> (#[trigger] reported_items(
                ignore_rule(o),
                o.metadata,
                log,
            )[i] matches WalkItem::Entry(e) ==> e.depth >= o.min_depth && plain_entry(o.metadata, e)),
        forall|i: int|
            0 <= i < reported_items(walkdir_rule(o), o.metadata, log).len() ==> (#[trigger] reported_items(
                walkdir_rule(o),
                o.metadata,
                log,
            )[i] matches WalkItem::Entry(e) ==> (o.skip_hidden ==> !hidden_name(e.file_name@))
                && plain_entry(o.metadata, e)),
        forall|i: int|
            0 <= i < reported_items(jwalk_rule(o), o.metadata, log).len() ==> (#[trigger] reported_items(
                jwalk_rule(o),
                o.metadata,
                log,
            )[i] matches WalkItem::Entry(e) ==> plain_entry(o.metadata, e)),
{
    lemma_reported_entries(
        dua_rule(o),
        o.metadata,
        log,
        |e: WalkedEntry| e.depth >= o.min_depth && (o.skip_hidden ==> !hidden_name(e.file_name@)) && plain_entry(o.metadata, e),
    );
    lemma_reported_entries(
        ignore_rule(o),
        o.metadata,
        log,
        |e: WalkedEntry| e.depth >= o.min_depth && plain_entry(o.metadata, e),
    );
    lemma_reported_entries(
        walkdir_rule(o),
        o.metadata,
        log,
        |e: WalkedEntry| (o.skip_hidden ==> !hidden_name(e.file_name@)) && plain_entry(o.metadata, e),
    );
    lemma_reported_entries(jwalk_rule(o), o.metadata, log, |e: WalkedEntry| plain_entry(o.metadata, e));
}

/// In a walkdir walk, a directory below the root with a skipped name (not
/// left out as hidden) is yielded, and the walk told walkdir not to enter it.
pub proof fn lemma_walkdir_skip_dir_logged(o: WalkOptions, log: Seq<Reported>, i: int)
    requires
        walkdir_log_ok(o, log),
        0 <= i < log.len(),
        log[i] matches Reported::Entry { raw, .. } && raw.is_dir && raw.depth > 0 && is_skip_name(
            o.skip_dirs@,
            raw.file_name@,
        ) && raw.full_path@ != root_bytes(o) && !(o.skip_hidden && hidden_name(raw.file_name@)),
    ensures
        log[i] matches Reported::Entry { skipped, .. } && skipped,
        reported_item(walkdir_rule(o), o.metadata, log[i]) matches Some(WalkItem::Entry(_)),
{
    assert(handled(o.metadata, walkdir_rule(o), walkdir_skips_rule(o), log[i]));
}

/// Whether two options differ at most in the thread count and yield order.
pub open spec fn same_but_threads_order(o1: WalkOptions, o2: WalkOptions) -> bool {
    o2 == (WalkOptions { threads: o2.threads, order: o2.order, ..o1 })
}

/// walkdir is serial: `--threads` and `--order` change neither the settings
/// walkdir gets nor what the walk does with walkdir's reports.
pub proof fn lemma_walkdir_ignores_threads_order(
    o1: WalkOptions,
    o2: WalkOptions,
    root: WalkedEntry,
    log: Seq<Reported>,
)
    requires
        same_but_threads_order(o1, o2),
    ensures
        walkdir_settings_for(o1) == walkdir_settings_for(o2),
        walkdir_ran(o1, log) == walkdir_ran(o2, log),
        walkdir_log_ok(o1, log) == walkdir_log_ok(o2, log),
        walkdir_output(o1, root, log) == walkdir_output(o2, root, log),
{
    assert(walkdir_rule(o1) =~= walkdir_rule(o2));
    assert(walkdir_skips_rule(o1) =~= walkdir_skips_rule(o2));
}

/// The `--debug` text with a count is the text without one followed by the
/// count line; without a count it ends with the time taken.
pub proof fn lemma_debug_count_line(o: WalkOptions, secs: u64, nanos: u32, count: u64)
    ensures
        debug_summary_text(o, secs, nanos, Some(count)) == debug_summary_text(o, secs, nanos, None)
            + "\n  count: "@ + decimal_text(count as int),
        exists|head: Seq<char>|
            debug_summary_text(o, secs, nanos, None) == head + "\nTime: "@ + duration_debug_text(
                secs,
                nanos,
            ),
{
    let with_none = debug_summary_text(o, secs, nanos, None);
    assert(with_none + Seq::<char>::empty() =~= with_none);
    let head = "Running with these options:\n  engine: "@ + engine_name(o.engine) + "\n  order: "@
        + order_name(o.order) + "\n  sort: "@ + bool_text(o.sort) + "\n  skip_hidden: "@
        + bool_text(o.skip_hidden) + "\n  follow_links: "@ + bool_text(o.follow_links)
        + "\n  min_depth: "@ + decimal_text(o.min_depth as int) + "\n  max_depth: "@
        + decimal_text(o.max_depth as int) + "\n  threads: "@ + option_debug_text(o.threads)
        + "\n  skip_dirs: "@ + names_debug_text(names_view(o.skip_dirs@)) + "\n  metadata: "@
        + bool_text(o.metadata);
    assert(with_none =~= head + "\nTime: "@ + duration_debug_text(secs, nanos));
}

/// With hidden names skipped, dua neither enters nor keeps a hidden entry
/// below the root.
pub proof fn lemma_dua_hidden_skipped(o: WalkOptions, depth: usize, name: Seq<u8>, is_dir: bool)
    requires
        o.skip_hidden,
        depth > 0,
        hidden_name(name),
    ensures
        !descend_spec(o, depth, name, is_dir),
        !yield_spec(o, depth, name),
{
}

/// The serial ignore walk passes on no entry that lies inside a directory
/// with a skipped name, judged by the components of the entry's own path:
/// such a directory is yielded, and nothing below it.
pub proof fn lemma_ignore_nothing_below_skipped(o: WalkOptions, log: Seq<Reported>)
    ensures
        forall|i: int|
            0 <= i < reported_items(ignore_rule(o), o.metadata, log).len() ==> (#[trigger] reported_items(
                ignore_rule(o),
                o.metadata,
                log,
            )[i] matches WalkItem::Entry(e) ==> !under_skipped_dir_spec(
                path_components(e.full_path@),
                path_components(root_bytes(o)),
                o.skip_dirs@,
            )),
{
    lemma_reported_entries(
        ignore_rule(o),
        o.metadata,
        log,
        |e: WalkedEntry|
            !under_skipped_dir_spec(
                path_components(e.full_path@),
                path_components(root_bytes(o)),
                o.skip_dirs@,
            ),
    );
}

proof fn lemma_climb_only(rt: Seq<Seq<u8>>, rel: Seq<Seq<u8>>, skip: Seq<Vec<u8>>, k: int)
    requires
        0 <= k <= rel.len(),
        forall|i: int| 0 <= i < rel.len() ==> is_normal_comp(#[trigger] rel[i]),
        climb_skipped(rt + rel.take(k), rt, skip),
    ensures
        exists|j: int| 0 <= j < k && is_skip_name(skip, #[trigger] rel[j]),
    decreases k,
{
    let cur = rt + rel.take(k);
    if k == 0 {
        assert(rel.take(0) =~= Seq::<Seq<u8>>::empty());
        assert(cur =~= rt);
    } else {
        assert(cur.len() == rt.len() + k);
        assert(cur.last() == rel[k - 1]);
        assert(is_normal_comp(rel[k - 1]));
        if name_skipped(skip, comps_file_name(cur)) {
            assert(is_skip_name(skip, rel[k - 1]));
        } else {
            assert(cur.drop_last() =~= rt + rel.take(k - 1));
            lemma_climb_only(rt, rel, skip, k - 1);
        }
    }
}

/// An entry whose path runs from the root by ordinary names lies inside a
/// directory with a skipped name exactly when names are skipped and either
/// the root's own name is skipped or some directory on the way, below the
/// root and above the entry, has a skipped name.
pub proof fn lemma_under_skipped_iff(rt: Seq<Seq<u8>>, rel: Seq<Seq<u8>>, skip: Seq<Vec<u8>>)
    requires
        rel.len() > 0,
        forall|i: int| 0 <= i < rel.len() ==> is_normal_comp(#[trigger] rel[i]),
    ensures
        under_skipped_dir_spec(rt + rel, rt, skip) <==> (skip.len() > 0 && (name_skipped(
            skip,
            comps_file_name(rt),
        ) || exists|j: int| 0 <= j < rel.len() - 1 && is_skip_name(skip, #[trigger] rel[j]))),
{
    let path = rt + rel;
    assert(path.len() == rt.len() + rel.len());
    assert(path != rt);
    assert(path.last() == rel[rel.len() - 1]);
    assert(!is_root_dir_comp(path.last()));
    assert(path.drop_last() =~= rt + rel.take(rel.len() - 1));
    assert(comps_parent(path) == Some(rt + rel.take(rel.len() - 1)));
    if climb_skipped(rt + rel.take(rel.len() - 1), rt, skip) {
        lemma_climb_only(rt, rel, skip, rel.len() - 1);
    }
    if exists|j: int| 0 <= j < rel.len() - 1 && is_skip_name(skip, #[trigger] rel[j]) {
        let j = choose|j: int| 0 <= j < rel.len() - 1 && is_skip_name(skip, #[trigger] rel[j]);
        lemma_climb_finds(rt, rel, skip, rel.len() - 1, j);
    }
}

/// Every engine is handed the walk's own settings: the root, the depth
/// limits (the minimum as given; the maximum as given unless it is below
/// the minimum, when the engine raises it), the link, hidden-name and sort
/// settings; ignore with its ignore-file filters off; dua with the options
/// it decides where to descend by.
pub proof fn lemma_engines_get_the_options(o: WalkOptions, available: usize)
    ensures
        walkdir_settings_for(o).root == o.path@,
        walkdir_settings_for(o).min_depth == o.min_depth,
        walkdir_settings_for(o).max_depth >= o.max_depth,
        o.min_depth <= o.max_depth ==> walkdir_settings_for(o).max_depth == o.max_depth,
        walkdir_settings_for(o).follow_links == o.follow_links,
        walkdir_settings_for(o).sort_by_file_name == o.sort,
        jwalk_settings_for(o).root == o.path@,
        jwalk_settings_for(o).min_depth == o.min_depth,
        jwalk_settings_for(o).max_depth >= o.max_depth,
        o.min_depth <= o.max_depth ==> jwalk_settings_for(o).max_depth == o.max_depth,
        jwalk_settings_for(o).skip_hidden == o.skip_hidden,
        jwalk_settings_for(o).follow_links == o.follow_links,
        jwalk_settings_for(o).sort == o.sort,
        o.skip_dirs@.len() > 0 ==> jwalk_settings_for(o).prune == Some(names_view(o.skip_dirs@)),
        ignore_settings_for(o).root == o.path@,
        !ignore_settings_for(o).ignore_files,
        ignore_settings_for(o).hidden == o.skip_hidden,
        ignore_settings_for(o).follow_links == o.follow_links,
        ignore_settings_for(o).sort_by_file_name == o.sort,
        o.max_depth < usize::MAX ==> ignore_settings_for(o).max_depth == Some(o.max_depth),
        dua_settings_for(o, available).root == o.path@,
        dua_settings_for(o, available).order == o.order,
        dua_settings_for(o, available).descend == o,
{
}

/// The dua walk keeps exactly the entries below the root, not at the root's
/// path, not above the minimum depth, and not hidden when hidden names are
/// skipped: whatever kind of entry it is (directory, file, symbolic link).
pub proof fn lemma_dua_keeps(o: WalkOptions, raw: RawEntry)
    ensures
        dua_emits(o, raw) <==> (raw.depth > 0 && raw.depth >= o.min_depth && raw.full_path@ != root_bytes(o)
            && !(o.skip_hidden && hidden_name(raw.file_name@))),
{
}

/// The entry with the same name, path and depth as `raw` but of any kind.
pub open spec fn with_kind(raw: RawEntry, is_dir: bool, is_file: bool, is_symlink: bool, path_is_symlink: bool) -> RawEntry {
    RawEntry { is_dir, is_file, is_symlink, path_is_symlink, ..raw }
}

/// Whether a walk yields an entry never depends on its kind (directory,
/// file, symbolic link), with any engine; a kind only decides, through
/// `is_dir`, whether the walk enters it.
pub proof fn lemma_kind_does_not_decide_yield(
    o: WalkOptions,
    raw: RawEntry,
    is_dir: bool,
    is_file: bool,
    is_symlink: bool,
    path_is_symlink: bool,
)
    ensures
        dua_emits(o, with_kind(raw, is_dir, is_file, is_symlink, path_is_symlink)) == dua_emits(o, raw),
        jwalk_emits(o, with_kind(raw, is_dir, is_file, is_symlink, path_is_symlink)) == jwalk_emits(o, raw),
        walkdir_step_spec(o, with_kind(raw, is_dir, is_file, is_symlink, path_is_symlink)).emit
            == walkdir_step_spec(o, raw).emit,
        ignore_emits(o, with_kind(raw, is_dir, is_file, is_symlink, path_is_symlink)) == ignore_emits(o, raw),
{
}

/// The count of a walk's entries: none for no items, one more for each
/// entry of any kind, none more for an error.
pub proof fn lemma_count_laws(s: Seq<WalkItem>, e: WalkedEntry, msg: String)
    ensures
        entry_count(Seq::<WalkItem>::empty()) == 0,
        entry_count(s.push(WalkItem::Entry(e))) == entry_count(s) + 1,
        entry_count(s.push(WalkItem::Error(msg))) == entry_count(s),
        entry_count(s) <= s.len(),
{
    assert(s.push(WalkItem::Entry(e)).drop_last() =~= s);
    assert(s.push(WalkItem::Error(msg)).drop_last() =~= s);
    lemma_entry_count_is_entries(s);
    s.filter_lemma(entry_pred());
}

/// What each engine's rule keeps and where the walk tells walkdir not to
/// descend, in terms of the entry alone: jwalk keeps every entry below the
/// root and not at its path; walkdir also leaves out hidden names when they
/// are skipped, and does not enter a directory that is hidden (when hidden
/// names are skipped) or has a skipped name; the serial ignore walk keeps
/// entries below the root, not above the minimum depth and not inside a
/// directory with a skipped name.
pub proof fn lemma_rules_keep(o: WalkOptions, raw: RawEntry)
    ensures
        jwalk_emits(o, raw) <==> (raw.depth > 0 && raw.full_path@ != root_bytes(o)),
        walkdir_step_spec(o, raw).emit <==> (raw.depth > 0 && raw.full_path@ != root_bytes(o)
            && !(o.skip_hidden && hidden_name(raw.file_name@))),
        walkdir_step_spec(o, raw).skip_children <==> raw.is_dir && ((raw.depth > 0 && o.skip_hidden
            && hidden_name(raw.file_name@)) || is_skip_name(o.skip_dirs@, raw.file_name@)),
        ignore_emits(o, raw) <==> (raw.depth > 0 && raw.depth >= o.min_depth && raw.full_path@ != root_bytes(o)
            && !under_skipped_dir_spec(
            path_components(raw.full_path@),
            path_components(root_bytes(o)),
            o.skip_dirs@,
        )),
{
}

} // verus!
