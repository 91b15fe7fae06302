use nu_plugin_jwalk::dua_backend::{dua_threads, should_descend, should_yield};
use nu_plugin_jwalk::emit::{
    count_entries, is_root_item, item_shape, maybe_sort_items, record_value, root_entry,
    timestamp_from_offset, Cell, EpochOffset, ItemShape, RawEntry,
};
use nu_plugin_jwalk::ignore_backend::{
    classify_entry, ignore_max_depth, ignore_state, ignore_threads, ignore_use_parallel,
    under_skipped_dir, Classified, IgnoreWalkState,
};
use nu_plugin_jwalk::jwalk_backend::{
    custom_keeps, custom_plan, custom_stops, jwalk_emit, jwalk_parallelism, prune_positions,
    JwalkParallelism,
};
use nu_plugin_jwalk::options::{
    optional_threads, optional_usize, options_from_flags, CommandFlags,
};
use nu_plugin_jwalk::sys::{walked_meta, RawMeta};
use nu_plugin_jwalk::text::{bytes_le, str_eq};
use nu_plugin_jwalk::walkdir_backend::{walkdir_step, Step};
use nu_plugin_jwalk::dua_backend::dua_emit;
use nu_plugin_jwalk::zlob_backend::{
    ns_to_system_time, readonly_from_mode, walk_flags, zlob_item, zlob_max_depth, zlob_threads,
    zlob_walked_meta, ZlobFlags,
};
use nu_plugin_jwalk::{
    is_hidden_name, Engine, OptionError, Timestamp, WalkItem, WalkOptions, WalkOrder,
    WalkedEntry, WalkedMeta,
};


fn opts(engine: Engine) -> WalkOptions {
    WalkOptions {
        engine,
        path: "/data/root".to_string(),
        sort: false,
        custom: false,
        skip_hidden: false,
        follow_links: false,
        min_depth: 0,
        max_depth: usize::MAX,
        threads: None,
        skip_dirs: vec![b"target".to_vec(), b"node_modules".to_vec()],
        verbose: false,
        metadata: false,
        count: false,
        debug: false,
        order: WalkOrder::Completion,
    }
}

fn raw(depth: usize, name: &str, path: &str, is_dir: bool) -> RawEntry {
    RawEntry {
        depth,
        file_name: name.as_bytes().to_vec(),
        full_path: path.as_bytes().to_vec(),
        parent_path: Vec::new(),
        is_dir,
        is_file: !is_dir,
        is_symlink: false,
        path_is_symlink: false,
    }
}

fn entry(name: &str, depth: usize) -> WalkItem {
    WalkItem::Entry(WalkedEntry {
        depth,
        file_name: name.as_bytes().to_vec(),
        full_path: format!("/data/root/{name}").into_bytes(),
        is_dir: false,
        is_file: true,
        is_symlink: false,
        parent_path: b"/data/root".to_vec(),
        path_is_symlink: false,
        client_state: false,
        metadata: None,
    })
}

fn comps(parts: &[&str]) -> Vec<Vec<u8>> {
    parts.iter().map(|p| p.as_bytes().to_vec()).collect()
}

fn flags() -> CommandFlags {
    CommandFlags {
        engine: None,
        order: None,
        skip_dirs: None,
        sort: false,
        custom: false,
        skip_hidden: false,
        follow_links: false,
        verbose: false,
        metadata: false,
        count: false,
        debug: false,
        min_depth: None,
        max_depth: None,
        threads: None,
    }
}

#[test]
fn engine_names_parse_back() {
    for e in [Engine::Jwalk, Engine::Dua, Engine::Ignore, Engine::Walkdir, Engine::Zlob] {
        assert_eq!(Engine::parse(Some(e.as_str())).unwrap(), e);
    }
    assert_eq!(Engine::parse(None).unwrap(), Engine::Jwalk);
    assert_eq!(Engine::Walkdir.as_str(), "walkdir");
    for o in [WalkOrder::Completion, WalkOrder::ParentFirst] {
        assert_eq!(WalkOrder::parse(Some(o.as_str())).unwrap(), o);
    }
    assert_eq!(WalkOrder::parse(None).unwrap(), WalkOrder::Completion);
    assert_eq!(WalkOrder::ParentFirst.as_str(), "parent-first");
}

#[test]
fn unknown_engine_and_order_are_refused() {
    let err = Engine::parse(Some("fd")).unwrap_err();
    assert!(matches!(&err, OptionError::InvalidEngine(s) if s == "fd"));
    assert_eq!(err.title(), "invalid engine");
    assert_eq!(
        err.label(),
        "expected 'jwalk', 'dua', 'ignore', 'walkdir', or 'zlob', got 'fd'"
    );
    let err = WalkOrder::parse(Some("depth")).unwrap_err();
    assert_eq!(err.title(), "invalid order");
    assert_eq!(
        err.label(),
        "expected 'completion' or 'parent-first', got 'depth'"
    );
}

#[test]
fn negative_depths_and_threads_are_refused() {
    assert_eq!(optional_usize(None, 7).unwrap(), 7);
    assert_eq!(optional_usize(Some(3), 7).unwrap(), 3);
    let err = optional_usize(Some(-3), 7).unwrap_err();
    assert_eq!(err.title(), "invalid depth");
    assert_eq!(err.label(), "expected a non-negative integer, got -3");
    assert_eq!(optional_threads(None).unwrap(), None);
    assert_eq!(optional_threads(Some(0)).unwrap(), Some(0));
    let err = optional_threads(Some(-12)).unwrap_err();
    assert_eq!(err.title(), "invalid thread count");
    assert_eq!(err.label(), "expected a non-negative integer, got -12");
}

#[test]
fn validation_rules() {
    assert!(opts(Engine::Jwalk).validate().is_ok());
    let mut o = opts(Engine::Zlob);
    assert!(matches!(o.validate(), Err(OptionError::ZlobNotBuilt)));
    o.engine = Engine::Dua;
    o.follow_links = true;
    let err = o.validate().unwrap_err();
    assert!(matches!(err, OptionError::FollowLinksUnsupported));
    assert!(err.label().contains("--engine jwalk"));
    o.engine = Engine::Walkdir;
    assert!(o.validate().is_ok());
    o.custom = true;
    assert!(matches!(o.validate(), Err(OptionError::CustomNeedsJwalk)));
    o.engine = Engine::Jwalk;
    assert!(matches!(o.validate(), Err(OptionError::CustomNeedsRecords)));
    o.verbose = true;
    assert!(o.validate().is_ok());
    assert!(o.records());
    o.verbose = false;
    o.metadata = true;
    assert!(o.records());
}

#[test]
fn flags_become_options() {
    let mut f = flags();
    f.engine = Some("dua".to_string());
    f.order = Some("parent-first".to_string());
    f.skip_dirs = Some(vec!["target".to_string(), ".git".to_string()]);
    f.sort = true;
    f.min_depth = Some(1);
    f.threads = Some(4);
    let o = options_from_flags("/tmp/x".to_string(), &f).unwrap();
    assert_eq!(o.engine, Engine::Dua);
    assert_eq!(o.order, WalkOrder::ParentFirst);
    assert_eq!(o.skip_dirs, vec![b"target".to_vec(), b".git".to_vec()]);
    assert!(o.sort);
    assert_eq!(o.min_depth, 1);
    assert_eq!(o.max_depth, usize::MAX);
    assert_eq!(o.threads, Some(4));
    assert_eq!(o.path, "/tmp/x");

    let defaults = options_from_flags("/".to_string(), &flags()).unwrap();
    assert_eq!(defaults.engine, Engine::Jwalk);
    assert_eq!(defaults.order, WalkOrder::Completion);
    assert!(defaults.skip_dirs.is_empty());
    assert_eq!(defaults.threads, None);
}

#[test]
fn flags_report_the_first_malformed_one() {
    let mut f = flags();
    f.engine = Some("bogus".to_string());
    f.min_depth = Some(-1);
    assert!(matches!(
        options_from_flags("/".to_string(), &f),
        Err(OptionError::InvalidEngine(s)) if s == "bogus"
    ));
    f.engine = None;
    f.order = Some("sideways".to_string());
    assert!(matches!(
        options_from_flags("/".to_string(), &f),
        Err(OptionError::InvalidOrder(_))
    ));
    f.order = None;
    f.max_depth = Some(-2);
    assert!(matches!(
        options_from_flags("/".to_string(), &f),
        Err(OptionError::InvalidDepth(-1))
    ));
    f.min_depth = None;
    assert!(matches!(
        options_from_flags("/".to_string(), &f),
        Err(OptionError::InvalidDepth(-2))
    ));
    f.max_depth = None;
    f.threads = Some(-5);
    assert!(matches!(
        options_from_flags("/".to_string(), &f),
        Err(OptionError::InvalidThreadCount(-5))
    ));
}

#[test]
fn names_and_skip_dirs() {
    assert!(is_hidden_name(b".git"));
    assert!(is_hidden_name(b"."));
    assert!(!is_hidden_name(b"src"));
    assert!(!is_hidden_name(b""));
    let o = opts(Engine::Jwalk);
    assert!(o.should_skip_dir_name(b"target"));
    assert!(o.should_skip_dir_name(b"node_modules"));
    assert!(!o.should_skip_dir_name(b"targets"));
    assert!(!o.should_skip_dir_name(b"Target"));
}

#[test]
fn byte_and_text_comparisons() {
    assert!(bytes_le(b"a", b"b"));
    assert!(bytes_le(b"ab", b"ab"));
    assert!(bytes_le(b"ab", b"abc"));
    assert!(!bytes_le(b"abc", b"ab"));
    assert!(!bytes_le(b"b", b"abc"));
    assert!(bytes_le(b"", b""));
    assert!(str_eq("héllo", "héllo"));
    assert!(!str_eq("héllo", "hello"));
}

#[test]
fn sorting_orders_entries_by_name_and_keeps_ties_in_walk_order() {
    let mut first_b = entry("b", 1);
    if let WalkItem::Entry(e) = &mut first_b {
        e.depth = 5;
    }
    let items = vec![
        WalkItem::Error("late".to_string()),
        entry("c", 1),
        first_b,
        entry("a", 2),
        WalkItem::Error("early".to_string()),
        entry("b", 3),
    ];
    let sorted = maybe_sort_items(items, true);
    let shown: Vec<String> = sorted
        .iter()
        .map(|item| match item {
            WalkItem::Entry(e) => format!("{}@{}", String::from_utf8_lossy(&e.file_name), e.depth),
            WalkItem::Error(m) => format!("error {m}"),
        })
        .collect();
    assert_eq!(
        shown,
        vec!["a@2", "b@5", "b@3", "c@1", "error late", "error early"]
    );
}

#[test]
fn unsorted_items_come_back_unchanged() {
    let items = vec![entry("z", 1), entry("a", 1)];
    let same = maybe_sort_items(items, false);
    assert!(matches!(&same[0], WalkItem::Entry(e) if e.file_name == b"z"));
    assert!(matches!(&same[1], WalkItem::Entry(e) if e.file_name == b"a"));
    assert!(maybe_sort_items(Vec::new(), true).is_empty());
}

#[test]
fn counting_and_root_items() {
    let items = vec![
        entry("a", 0),
        WalkItem::Error("x".to_string()),
        entry("b", 1),
        entry("c", 2),
    ];
    assert_eq!(count_entries(&items), 3);
    assert_eq!(count_entries(&Vec::new()), 0);
    assert!(is_root_item(&items[0], b"/elsewhere"));
    assert!(!is_root_item(&items[1], b"/data/root/b"));
    assert!(is_root_item(&items[2], b"/data/root/b"));
    assert!(!is_root_item(&items[3], b"/data/root/b"));
}

#[test]
fn nanoseconds_become_timestamps() {
    assert_eq!(ns_to_system_time(None), None);
    assert_eq!(
        ns_to_system_time(Some(1_500_000_000)),
        Some(Timestamp { secs: 1, nanos: 500_000_000 })
    );
    assert_eq!(
        ns_to_system_time(Some(-1)),
        Some(Timestamp { secs: -1, nanos: 999_999_999 })
    );
    assert_eq!(
        ns_to_system_time(Some(-2_000_000_000)),
        Some(Timestamp { secs: -2, nanos: 0 })
    );
    assert_eq!(ns_to_system_time(Some(0)), Some(Timestamp { secs: 0, nanos: 0 }));
    assert_eq!(
        ns_to_system_time(Some(i64::MIN)),
        Some(Timestamp { secs: -9_223_372_037, nanos: 145_224_192 })
    );
}

#[test]
fn epoch_offsets_become_timestamps() {
    assert_eq!(
        timestamp_from_offset(EpochOffset::After { secs: 5, nanos: 7 }),
        Some(Timestamp { secs: 5, nanos: 7 })
    );
    assert_eq!(
        timestamp_from_offset(EpochOffset::Before { secs: 1, nanos: 0 }),
        Some(Timestamp { secs: -1, nanos: 0 })
    );
    assert_eq!(
        timestamp_from_offset(EpochOffset::Before { secs: 1, nanos: 1 }),
        Some(Timestamp { secs: -2, nanos: 999_999_999 })
    );
    assert_eq!(
        timestamp_from_offset(EpochOffset::After { secs: u64::MAX, nanos: 0 }),
        None
    );
}

#[test]
fn metadata_times_convert_through_the_epoch() {
    let meta = walked_meta(&RawMeta {
        accessed: Some(EpochOffset::After { secs: 5, nanos: 250 }),
        created: Some(EpochOffset::Before { secs: 1, nanos: 1 }),
        modified: None,
        size: 42,
        readonly: true,
    });
    assert_eq!(meta.accessed, Some(Timestamp { secs: 5, nanos: 250 }));
    assert_eq!(meta.created, Some(Timestamp { secs: -2, nanos: 999_999_999 }));
    assert_eq!(meta.modified, None);
    assert_eq!(meta.size, 42);
    assert!(meta.readonly);
    let far = walked_meta(&RawMeta {
        accessed: Some(EpochOffset::After { secs: u64::MAX, nanos: 0 }),
        created: Some(EpochOffset::Before { secs: 9_223_372_036_854_775_808, nanos: 0 }),
        modified: Some(EpochOffset::After { secs: 1, nanos: 1_000_000_000 }),
        size: 0,
        readonly: false,
    });
    assert_eq!(far.accessed, None);
    assert_eq!(far.created, Some(Timestamp { secs: i64::MIN, nanos: 0 }));
    assert_eq!(far.modified, None);
}

#[test]
fn zlob_rules() {
    assert_eq!(zlob_threads(None), 0);
    assert_eq!(zlob_threads(Some(0)), 1);
    assert_eq!(zlob_threads(Some(6)), 6);
    assert_eq!(zlob_max_depth(usize::MAX), None);
    assert_eq!(zlob_max_depth(3), Some(3));
    let mut o = opts(Engine::Zlob);
    o.skip_hidden = true;
    assert_eq!(walk_flags(&o), ZlobFlags { skip_hidden: true, follow_symlinks: false });
    o.min_depth = 2;
    assert_eq!(zlob_item(&o, 1, false, false, Some(b"a")), None);
    assert_eq!(zlob_item(&o, 2, true, true, Some(b"target")), None);
    assert_eq!(zlob_item(&o, 2, false, true, Some(b"target")), Some(true));
    assert_eq!(zlob_item(&o, 2, false, false, Some(b"target")), Some(false));
    assert_eq!(zlob_item(&o, 3, false, true, None), Some(false));
    assert!(readonly_from_mode(Some(0o444)));
    assert!(!readonly_from_mode(Some(0o644)));
    assert!(!readonly_from_mode(None));
    let m = zlob_walked_meta(Some(2_000_000_001), None, Some(-1), None, Some(0o400));
    assert_eq!(m.accessed, Some(Timestamp { secs: 2, nanos: 1 }));
    assert_eq!(m.created, None);
    assert_eq!(m.modified, Some(Timestamp { secs: -1, nanos: 999_999_999 }));
    assert_eq!(m.size, 0);
    assert!(m.readonly);
}

#[test]
fn dua_rules() {
    assert_eq!(dua_threads(Some(0), 8), 1);
    assert_eq!(dua_threads(Some(1), 8), 1);
    assert_eq!(dua_threads(Some(3), 8), 3);
    assert_eq!(dua_threads(None, 8), 8);
    let mut o = opts(Engine::Dua);
    o.max_depth = 2;
    o.min_depth = 1;
    o.skip_hidden = true;
    assert!(should_descend(&o, 0, b".root", true));
    assert!(should_descend(&o, 1, b"src", true));
    assert!(!should_descend(&o, 2, b"src", true));
    assert!(!should_descend(&o, 1, b".git", true));
    assert!(!should_descend(&o, 1, b"target", true));
    assert!(!should_yield(&o, 0, b"root"));
    assert!(should_yield(&o, 1, b"target"));
    assert!(!should_yield(&o, 1, b".env"));
}

#[test]
fn jwalk_rules() {
    assert_eq!(jwalk_parallelism(Some(0)), JwalkParallelism::Serial);
    assert_eq!(jwalk_parallelism(Some(4)), JwalkParallelism::RayonNewPool(4));
    assert_eq!(
        jwalk_parallelism(None),
        JwalkParallelism::RayonDefaultPool { busy_timeout_secs: 1 }
    );
    assert!(custom_keeps(b".config"));
    assert!(!custom_keeps(b"config"));
    assert!(!custom_keeps(&[0x2e, 0xff, 0xfe]));
    assert!(custom_stops(2));
    assert!(!custom_stops(1));
    assert!(!custom_stops(3));
}

#[test]
fn walkdir_rules() {
    let mut o = opts(Engine::Walkdir);
    o.skip_hidden = true;
    assert_eq!(
        walkdir_step(&o, &raw(1, ".git", "/data/root/.git", true)),
        Step { emit: false, skip_children: true }
    );
    assert_eq!(
        walkdir_step(&o, &raw(1, ".env", "/data/root/.env", false)),
        Step { emit: false, skip_children: false }
    );
    assert_eq!(
        walkdir_step(&o, &raw(1, "target", "/data/root/target", true)),
        Step { emit: true, skip_children: true }
    );
    assert_eq!(
        walkdir_step(&o, &raw(2, "a.rs", "/data/root/src/a.rs", false)),
        Step { emit: true, skip_children: false }
    );
    assert_eq!(
        walkdir_step(&o, &raw(0, ".root", "/data/root", true)),
        Step { emit: false, skip_children: false }
    );
    assert_eq!(
        walkdir_step(&o, &raw(0, "target", "/data/target", true)),
        Step { emit: false, skip_children: true }
    );
    o.min_depth = 1;
    assert_eq!(
        walkdir_step(&o, &raw(0, "root", "/data/root", true)),
        Step { emit: false, skip_children: false }
    );
    assert_eq!(
        walkdir_step(&o, &raw(3, "root", "/data/root", true)),
        Step { emit: false, skip_children: false }
    );
}

#[test]
fn ignore_rules() {
    let o = opts(Engine::Ignore);
    let skip = &o.skip_dirs;
    let root = comps(&["/", "data", "root"]);
    let inside = comps(&["/", "data", "root", "target", "junk.txt"]);
    let deeper = comps(&["/", "data", "root", "a", "node_modules", "b", "c"]);
    let fine = comps(&["/", "data", "root", "src", "a.rs"]);
    assert!(under_skipped_dir(&inside, &root, skip));
    assert!(under_skipped_dir(&deeper, &root, skip));
    assert!(!under_skipped_dir(&fine, &root, skip));
    assert!(!under_skipped_dir(&comps(&["/", "data", "root", "target"]), &root, skip));
    assert!(!under_skipped_dir(&inside, &root, &Vec::new()));
    let skipped_root = comps(&["/", "data", "target"]);
    assert!(under_skipped_dir(&comps(&["/", "data", "target", "x"]), &skipped_root, skip));
    assert!(!under_skipped_dir(&skipped_root, &skipped_root, skip));

    assert_eq!(
        classify_entry(&o, &raw(1, "target", "/data/root/target", true), &comps(&["/", "data", "root", "target"]), &root),
        Classified::Emit { skip: true }
    );
    assert_eq!(
        classify_entry(&o, &raw(2, "junk.txt", "/data/root/target/junk.txt", false), &inside, &root),
        Classified::Drop
    );
    assert_eq!(
        classify_entry(&o, &raw(0, "root", "/data/root", true), &root, &root),
        Classified::Drop
    );
    let mut shallow = opts(Engine::Ignore);
    shallow.min_depth = 3;
    assert_eq!(
        classify_entry(&shallow, &raw(1, "src", "/data/root/src", true), &comps(&["/", "data", "root", "src"]), &root),
        Classified::Emit { skip: false }
    );
    let mut deep = opts(Engine::Ignore);
    deep.min_depth = 1;
    deep.path = "/data/target".to_string();
    assert_eq!(
        classify_entry(&deep, &raw(0, "target", "/data/target", true), &skipped_root, &skipped_root),
        Classified::SkipRoot
    );
    assert_eq!(
        classify_entry(&o, &raw(1, "root", "/data/root", true), &root, &root),
        Classified::Drop
    );

    assert_eq!(ignore_state(Classified::Drop, true), IgnoreWalkState::Continue);
    assert_eq!(ignore_state(Classified::SkipRoot, true), IgnoreWalkState::Skip);
    assert_eq!(ignore_state(Classified::Emit { skip: true }, true), IgnoreWalkState::Skip);
    assert_eq!(ignore_state(Classified::Emit { skip: false }, true), IgnoreWalkState::Continue);
    assert_eq!(ignore_state(Classified::Emit { skip: false }, false), IgnoreWalkState::Quit);

    let mut p = opts(Engine::Ignore);
    assert!(ignore_use_parallel(&p));
    p.threads = Some(1);
    assert!(!ignore_use_parallel(&p));
    p.threads = Some(8);
    assert!(ignore_use_parallel(&p));
    p.sort = true;
    assert!(!ignore_use_parallel(&p));
    assert_eq!(ignore_threads(None), 0);
    assert_eq!(ignore_threads(Some(0)), 0);
    assert_eq!(ignore_threads(Some(5)), 5);
    assert_eq!(ignore_max_depth(usize::MAX), None);
    assert_eq!(ignore_max_depth(4), Some(4));
}

#[test]
fn records_have_nine_or_fourteen_columns() {
    let WalkItem::Entry(mut e) = entry("a.txt", 1) else { unreachable!() };
    let plain = record_value(&e, false);
    let names: Vec<&str> = plain.iter().map(|(n, _)| *n).collect();
    assert_eq!(
        names,
        vec![
            "depth", "client_state", "file_name", "full_path", "is_dir", "is_file", "is_symlink",
            "parent_path", "path_is_symlink"
        ]
    );
    assert!(matches!(plain[0].1, Cell::Int(1)));
    assert!(matches!(&plain[2].1, Cell::Text(b) if b == b"a.txt"));

    let missing = record_value(&e, true);
    assert_eq!(missing.len(), 14);
    assert_eq!(missing[12].0, "size");
    assert!(matches!(missing[12].1, Cell::Int(0)));
    assert!(matches!(&missing[13].1, Cell::Text(b) if b.is_empty()));

    e.metadata = Some(WalkedMeta {
        accessed: Some(Timestamp { secs: 10, nanos: 0 }),
        created: None,
        modified: None,
        size: 2048,
        readonly: false,
    });
    let full = record_value(&e, true);
    assert!(matches!(full[9].1, Cell::Date(Timestamp { secs: 10, nanos: 0 })));
    assert!(matches!(&full[10].1, Cell::Text(b) if b.is_empty()));
    assert!(matches!(full[12].1, Cell::Filesize(2048)));
    assert!(matches!(full[13].1, Cell::Bool(false)));

    assert_eq!(item_shape(&WalkItem::Error("e".to_string()), true), ItemShape::Error);
    assert_eq!(item_shape(&entry("a", 1), true), ItemShape::Record);
    assert_eq!(item_shape(&entry("a", 1), false), ItemShape::Path);
}

#[test]
fn debug_summary_lists_the_walk_settings() {
    let mut o = opts(Engine::Dua);
    o.threads = Some(2);
    o.min_depth = 1;
    o.max_depth = 3;
    o.sort = true;
    let text = o.debug_summary(1, 500_000_000, Some(42));
    assert_eq!(
        text,
        "Running with these options:\n  engine: dua\n  order: completion\n  sort: true\n  skip_hidden: false\n  follow_links: false\n  min_depth: 1\n  max_depth: 3\n  threads: Some(2)\n  skip_dirs: [\"target\", \"node_modules\"]\n  metadata: false\nTime: 1.5s\n  count: 42"
    );
    o.threads = None;
    o.skip_dirs = Vec::new();
    let text = o.debug_summary(0, 250_000, None);
    assert!(text.ends_with("threads: None\n  skip_dirs: []\n  metadata: false\nTime: 250µs"));
}

#[test]
fn debug_summary_with_a_count_adds_one_line() {
    let o = opts(Engine::Walkdir);
    let without = o.debug_summary(2, 0, None);
    let with = o.debug_summary(2, 0, Some(7));
    assert_eq!(with, format!("{without}\n  count: 7"));
    assert!(without.ends_with("\nTime: 2s"));
}

#[test]
fn root_entry_takes_name_parent_and_kind_from_the_path() {
    let e = root_entry("/data/root", Some((true, false, false)), None);
    assert_eq!(e.depth, 0);
    assert_eq!(e.file_name, b"root".to_vec());
    assert_eq!(e.full_path, b"/data/root".to_vec());
    assert_eq!(e.parent_path, b"/data".to_vec());
    assert!(e.is_dir && !e.is_file && !e.is_symlink && !e.path_is_symlink);
    assert!(!e.client_state);
    assert!(e.metadata.is_none());
    let slash = root_entry("/", None, None);
    assert_eq!(slash.file_name, b"/".to_vec());
    assert_eq!(slash.parent_path, Vec::<u8>::new());
    assert!(!slash.is_dir && !slash.is_file && !slash.is_symlink);
    let link = root_entry("here/link", Some((false, false, true)), None);
    assert_eq!(link.file_name, b"link".to_vec());
    assert_eq!(link.parent_path, b"here".to_vec());
    assert!(link.is_symlink && link.path_is_symlink);
    let dots = root_entry("..", Some((true, false, false)), None);
    assert_eq!(dots.file_name, b"..".to_vec());
    assert_eq!(dots.parent_path, b"".to_vec());
}

#[test]
fn custom_plan_keeps_dot_names_sorted_with_ties_in_read_order() {
    let children = vec![
        Some(b".zeta".to_vec()),
        None,
        Some(b"visible".to_vec()),
        Some(b".alpha".to_vec()),
        Some(vec![0x2e, 0xff]),
        Some(b".alpha".to_vec()),
        Some(b".m".to_vec()),
    ];
    assert_eq!(custom_plan(&children), vec![3, 5, 6, 0]);
    assert_eq!(custom_plan(&Vec::new()), Vec::<usize>::new());
    assert_eq!(custom_plan(&vec![None, Some(b"a".to_vec())]), Vec::<usize>::new());
}

#[test]
fn the_engines_leave_the_root_to_the_walk() {
    let o = opts(Engine::Jwalk);
    assert!(!jwalk_emit(&o, &raw(0, "root", "/data/root", true)));
    assert!(!jwalk_emit(&o, &raw(2, "root", "/data/root", true)));
    assert!(jwalk_emit(&o, &raw(1, "a", "/data/root/a", false)));
    let d = opts(Engine::Dua);
    assert!(!dua_emit(&d, &raw(0, "root", "/data/root", true)));
    assert!(dua_emit(&d, &raw(1, "a", "/data/root/a", false)));
}

#[test]
fn jwalk_prunes_exactly_the_skipped_directories_read() {
    let skip = vec![b"target".to_vec(), b"node_modules".to_vec()];
    let children = vec![
        Some((true, b"target".to_vec())),
        None,
        Some((false, b"target".to_vec())),
        Some((true, b"src".to_vec())),
        Some((true, b"node_modules".to_vec())),
    ];
    assert_eq!(prune_positions(&children, &skip), vec![0, 4]);
    assert_eq!(prune_positions(&children, &Vec::new()), Vec::<usize>::new());
    assert_eq!(prune_positions(&Vec::new(), &skip), Vec::<usize>::new());
}

#[test]
fn sorting_twice_is_sorting_once() {
    let items = vec![entry("c", 1), entry("a", 1), entry("b", 2), WalkItem::Error("e".to_string()), entry("a", 3)];
    let once = maybe_sort_items(items, true);
    let names = |v: &Vec<WalkItem>| -> Vec<(Vec<u8>, usize)> {
        v.iter()
            .map(|i| match i {
                WalkItem::Entry(e) => (e.file_name.clone(), e.depth),
                WalkItem::Error(_) => (b"!".to_vec(), 0),
            })
            .collect()
    };
    let first = names(&once);
    let twice = maybe_sort_items(once, true);
    assert_eq!(names(&twice), first);
    assert_eq!(first[0], (b"a".to_vec(), 1));
    assert_eq!(first[1], (b"a".to_vec(), 3));
}
