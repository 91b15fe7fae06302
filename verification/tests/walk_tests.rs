use nu_plugin_jwalk::emit::{count_entries, root_entry, EpochOffset};
use nu_plugin_jwalk::sys::{walked_meta, RawMeta};
use nu_plugin_jwalk::{
    dua_backend, ignore_backend, jwalk_backend, walkdir_backend, Engine, WalkItem, WalkOptions,
    WalkOrder, WalkedEntry,
};
use std::collections::BTreeSet;
use std::io::Write;
use std::path::{Path, PathBuf};
use std::time::SystemTime;

/// The engines that this build walks with (zlob is not built here).
const ENGINES: [Engine; 4] = [Engine::Dua, Engine::Jwalk, Engine::Walkdir, Engine::Ignore];

fn make_file(dir: &Path, name: &str, body: &[u8]) {
    let mut file = tempfile::Builder::new()
        .prefix(name)
        .rand_bytes(0)
        .disable_cleanup(true)
        .tempfile_in(dir)
        .unwrap();
    file.write_all(body).unwrap();
}

fn make_dir(dir: &Path, name: &str) -> PathBuf {
    tempfile::Builder::new()
        .prefix(name)
        .rand_bytes(0)
        .disable_cleanup(true)
        .tempdir_in(dir)
        .unwrap()
        .keep()
}

fn fixture_tree() -> tempfile::TempDir {
    let dir = tempfile::tempdir().expect("temp dir");
    let root = dir.path();
    make_file(root, "visible.txt", b"ok");
    make_file(root, ".hidden.txt", b"hid");
    let hidden = make_dir(root, ".hiddendir");
    make_file(&hidden, "secret.txt", b"s");
    let target = make_dir(root, "target");
    make_file(&target, "junk.txt", b"j");
    let keep = make_dir(root, "keep");
    make_file(&keep, "file.txt", b"f");
    dir
}

fn options(root: &Path, engine: Engine) -> WalkOptions {
    WalkOptions {
        engine,
        path: root.to_str().unwrap().to_string(),
        sort: false,
        custom: false,
        skip_hidden: false,
        follow_links: false,
        min_depth: 0,
        max_depth: usize::MAX,
        threads: Some(2),
        skip_dirs: Vec::new(),
        verbose: false,
        metadata: false,
        count: false,
        debug: false,
        order: WalkOrder::Completion,
    }
}

fn relative_names(root: &str, items: Vec<WalkItem>) -> BTreeSet<String> {
    items
        .into_iter()
        .map(|item| match item {
            WalkItem::Entry(entry) => String::from_utf8(entry.full_path).unwrap(),
            WalkItem::Error(err) => panic!("walk error: {err}"),
        })
        .map(|path| {
            if path == root {
                return String::new();
            }
            path.strip_prefix(root)
                .map(|rel| rel.trim_start_matches('/').to_string())
                .unwrap_or(path.clone())
                .replace('\\', "/")
        })
        .collect()
}

fn epoch_offset(t: std::io::Result<SystemTime>) -> Option<EpochOffset> {
    let t = t.ok()?;
    Some(match t.duration_since(SystemTime::UNIX_EPOCH) {
        Ok(d) => EpochOffset::After { secs: d.as_secs(), nanos: d.subsec_nanos() },
        Err(e) => EpochOffset::Before { secs: e.duration().as_secs(), nanos: e.duration().subsec_nanos() },
    })
}

/// The walk root's entry, read as the plugin reads it (links not followed).
fn root_of(options: &WalkOptions) -> WalkedEntry {
    let e = walkdir::WalkDir::new(&options.path)
        .max_depth(0)
        .into_iter()
        .next()
        .and_then(|r| r.ok());
    let kind = e.as_ref().map(|e| {
        let ft = e.file_type();
        (ft.is_dir(), ft.is_file(), ft.is_symlink())
    });
    let meta = if options.metadata {
        e.as_ref().and_then(|e| e.metadata().ok()).map(|m| {
            walked_meta(&RawMeta {
                accessed: epoch_offset(m.accessed()),
                created: epoch_offset(m.created()),
                modified: epoch_offset(m.modified()),
                size: m.len(),
                readonly: m.permissions().readonly(),
            })
        })
    } else {
        None
    };
    root_entry(&options.path, kind, meta)
}

fn walk_items(options: &WalkOptions) -> Vec<WalkItem> {
    let root = root_of(options);
    match options.engine {
        Engine::Dua => dua_backend::walk_items(options.clone(), 2, root),
        Engine::Jwalk => jwalk_backend::walk_items(options.clone(), root),
        Engine::Walkdir => walkdir_backend::walk_items(options.clone(), root),
        Engine::Ignore => ignore_backend::walk_items(options.clone(), root),
        Engine::Zlob => panic!("zlob is not built"),
    }
}

fn walk_names(options: &WalkOptions) -> BTreeSet<String> {
    relative_names(&options.path, walk_items(options))
}

#[test]
fn default_lists_hidden_and_target_for_both_engines() {
    let dir = fixture_tree();
    for engine in ENGINES {
        let names = walk_names(&options(dir.path(), engine));
        assert!(
            names.contains(".hidden.txt"),
            "{engine:?} should list hidden files by default: {names:?}"
        );
        assert!(
            names.contains("target/junk.txt"),
            "{engine:?} should descend into target by default: {names:?}"
        );
        assert!(
            names.contains("keep/file.txt"),
            "{engine:?} should list nested files: {names:?}"
        );
    }
}

#[test]
fn skip_hidden_drops_dotfiles_for_both_engines() {
    let dir = fixture_tree();
    for engine in ENGINES {
        let mut opts = options(dir.path(), engine);
        opts.skip_hidden = true;
        let names = walk_names(&opts);
        assert!(
            !names
                .iter()
                .any(|name| name.starts_with('.') || name.contains("/.")),
            "{engine:?} --skip-hidden should drop hidden paths: {names:?}"
        );
        assert!(names.contains("visible.txt"), "{engine:?}: {names:?}");
        assert!(names.contains("keep/file.txt"), "{engine:?}: {names:?}");
    }
}

#[test]
fn skip_dir_yields_directory_but_not_children() {
    let dir = fixture_tree();
    for engine in ENGINES {
        let mut opts = options(dir.path(), engine);
        opts.skip_dirs = vec![b"target".to_vec()];
        let names = walk_names(&opts);
        assert!(
            names.contains("target"),
            "{engine:?} should yield the skipped directory: {names:?}"
        );
        assert!(
            !names.contains("target/junk.txt"),
            "{engine:?} should not descend into skipped directories: {names:?}"
        );
    }
}

#[test]
fn count_matches_streamed_length() {
    let dir = fixture_tree();
    for engine in ENGINES {
        let items = walk_items(&options(dir.path(), engine));
        let streamed = count_entries(&items);
        assert!(streamed > 0, "{engine:?} should walk some entries");
        assert_eq!(
            streamed,
            items.len(),
            "{engine:?} should not emit walk errors"
        );
    }
}

#[test]
fn max_depth_one_does_not_list_nested_file() {
    let dir = fixture_tree();
    for engine in ENGINES {
        let mut opts = options(dir.path(), engine);
        opts.max_depth = 1;
        let names = walk_names(&opts);
        assert!(
            !names.contains("keep/file.txt"),
            "{engine:?} --max-depth 1 should not list nested files: {names:?}"
        );
        assert!(names.contains("keep"), "{engine:?}: {names:?}");
        assert!(names.contains("visible.txt"), "{engine:?}: {names:?}");
    }
}

#[test]
fn first_item_is_the_root_for_all_engines() {
    let dir = fixture_tree();
    for engine in ENGINES {
        let first = walk_items(&options(dir.path(), engine)).into_iter().next();
        match first {
            Some(WalkItem::Entry(entry)) => {
                assert_eq!(entry.depth, 0, "{engine:?}");
                assert_eq!(
                    entry.full_path,
                    dir.path().as_os_str().as_encoded_bytes(),
                    "{engine:?}"
                );
            }
            other => panic!("{engine:?}: expected root entry, got {other:?}"),
        }
    }
}

#[test]
fn dua_follow_links_errors() {
    let mut opts = options(Path::new("."), Engine::Dua);
    opts.follow_links = true;
    let err = opts.validate().expect_err("dua cannot follow links");
    assert!(
        err.title().contains("jwalk"),
        "error should mention the jwalk engine: {err:?}"
    );
}

#[test]
fn metadata_is_optional_on_walked_entries() {
    let dir = fixture_tree();
    for engine in ENGINES {
        let without = walk_items(&options(dir.path(), engine));
        let without_meta = without.iter().find_map(|item| match item {
            WalkItem::Entry(entry) => Some(entry),
            WalkItem::Error(_) => None,
        });
        assert!(
            without_meta.is_some_and(|entry| entry.metadata.is_none()),
            "{engine:?} should omit metadata unless requested"
        );

        let mut opts = options(dir.path(), engine);
        opts.metadata = true;
        let with = walk_items(&opts);
        let with_meta = with.iter().find_map(|item| match item {
            WalkItem::Entry(entry) => Some(entry),
            WalkItem::Error(_) => None,
        });
        assert!(
            with_meta.is_some_and(|entry| entry.metadata.is_some()),
            "{engine:?} should populate metadata when requested"
        );
    }
}

#[test]
fn sorted_walks_list_each_directory_by_name() {
    let dir = fixture_tree();
    for engine in ENGINES {
        let mut opts = options(dir.path(), engine);
        opts.sort = true;
        let top: Vec<Vec<u8>> = walk_items(&opts)
            .into_iter()
            .filter_map(|item| match item {
                WalkItem::Entry(e) if e.depth == 1 => Some(e.file_name),
                _ => None,
            })
            .collect();
        let expected: Vec<Vec<u8>> = [".hidden.txt", ".hiddendir", "keep", "target", "visible.txt"]
            .iter()
            .map(|n| n.as_bytes().to_vec())
            .collect();
        assert_eq!(top, expected, "{engine:?}");
    }
}

#[test]
fn min_depth_one_leaves_out_the_root() {
    let dir = fixture_tree();
    for engine in ENGINES {
        let mut opts = options(dir.path(), engine);
        opts.min_depth = 1;
        let items = walk_items(&opts);
        assert!(
            items
                .iter()
                .all(|item| matches!(item, WalkItem::Entry(e) if e.depth >= 1)),
            "{engine:?}"
        );
        assert!(walk_names(&opts).contains("keep/file.txt"), "{engine:?}");
    }
}

#[test]
fn root_with_a_skipped_name_is_yielded_alone() {
    let dir = fixture_tree();
    let target = dir.path().join("target");
    for engine in ENGINES {
        let mut opts = options(&target, engine);
        opts.skip_dirs = vec![b"target".to_vec()];
        let names = walk_names(&opts);
        let expected: BTreeSet<String> = [String::new()].into_iter().collect();
        assert_eq!(names, expected, "{engine:?}");
    }
}

#[test]
fn walks_fill_metadata_sizes() {
    let dir = fixture_tree();
    for engine in ENGINES {
        let mut opts = options(dir.path(), engine);
        opts.metadata = true;
        let sizes: Vec<u64> = walk_items(&opts)
            .into_iter()
            .filter_map(|item| match item {
                WalkItem::Entry(e) if e.file_name == b"visible.txt" => e.metadata.map(|m| m.size),
                _ => None,
            })
            .collect();
        assert_eq!(sizes, vec![2], "{engine:?}");
    }
}

#[test]
fn sorted_dua_walk_gives_the_root_then_names_in_order() {
    let dir = fixture_tree();
    let mut opts = options(dir.path(), Engine::Dua);
    opts.sort = true;
    let items = walk_items(&opts);
    let names: Vec<(usize, Vec<u8>)> = items
        .into_iter()
        .map(|item| match item {
            WalkItem::Entry(e) => (e.depth, e.file_name),
            WalkItem::Error(err) => panic!("walk error: {err}"),
        })
        .collect();
    assert_eq!(names[0].0, 0);
    let rest: Vec<Vec<u8>> = names[1..].iter().map(|(_, n)| n.clone()).collect();
    let mut expected = rest.clone();
    expected.sort();
    assert_eq!(rest, expected);
    assert_eq!(rest.len(), 8);
}

#[test]
fn walkdir_ignores_threads_and_order() {
    let dir = fixture_tree();
    let mut a = options(dir.path(), Engine::Walkdir);
    a.sort = true;
    let mut b = a.clone();
    b.threads = None;
    b.order = WalkOrder::ParentFirst;
    let paths = |o: &WalkOptions| -> Vec<Vec<u8>> {
        walk_items(o)
            .into_iter()
            .map(|item| match item {
                WalkItem::Entry(e) => e.full_path,
                WalkItem::Error(err) => panic!("walk error: {err}"),
            })
            .collect()
    };
    assert_eq!(paths(&a), paths(&b));
}

#[test]
fn the_root_comes_once_and_first() {
    let dir = fixture_tree();
    for engine in ENGINES {
        let opts = options(dir.path(), engine);
        let items = walk_items(&opts);
        let roots: Vec<usize> = items
            .iter()
            .enumerate()
            .filter_map(|(i, item)| match item {
                WalkItem::Entry(e) if e.depth == 0 || e.full_path == opts.path.as_bytes() => Some(i),
                _ => None,
            })
            .collect();
        assert_eq!(roots, vec![0], "{engine:?}");
    }
}

#[test]
fn walked_times_are_offsets_from_the_epoch() {
    let dir = fixture_tree();
    for engine in ENGINES {
        let mut opts = options(dir.path(), engine);
        opts.metadata = true;
        let times: Vec<i64> = walk_items(&opts)
            .into_iter()
            .filter_map(|item| match item {
                WalkItem::Entry(e) if e.file_name == b"visible.txt" => {
                    e.metadata.and_then(|m| m.modified).map(|t| t.secs)
                }
                _ => None,
            })
            .collect();
        assert_eq!(times.len(), 1, "{engine:?}");
        assert!(times[0] > 1_500_000_000, "{engine:?}: {times:?}");
    }
}
