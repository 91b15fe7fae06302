//! Walk options: the engines, the yield orders, and the rules on which
//! option combinations a walk accepts.
use vstd::prelude::*;
use vstd::string::*;
use vstd::utf8::encode_utf8;
use crate::text::{bytes_eq, names_view, str_eq};
use std::time::Duration;

verus! {

/// The engine that walks the tree.
#[derive(Clone, Copy, Debug, PartialEq, Eq, Structural)]
pub enum Engine {
    Jwalk,
    Dua,
    Ignore,
    Walkdir,
    Zlob,
}

/// The name by which the command line selects an engine.
pub open spec fn engine_name(e: Engine) -> Seq<char> {
    match e {
        Engine::Jwalk => "jwalk"@,
        Engine::Dua => "dua"@,
        Engine::Ignore => "ignore"@,
        Engine::Walkdir => "walkdir"@,
        Engine::Zlob => "zlob"@,
    }
}

/// The order in which the dua engine yields entries.
#[derive(Clone, Copy, Debug, PartialEq, Eq, Structural)]
pub enum WalkOrder {
    Completion,
    ParentFirst,
}

/// The name by which the command line selects a yield order.
pub open spec fn order_name(o: WalkOrder) -> Seq<char> {
    match o {
        WalkOrder::Completion => "completion"@,
        WalkOrder::ParentFirst => "parent-first"@,
    }
}

/// Why a set of options was refused.
#[derive(Clone, Debug)]
pub enum OptionError {
    /// `--engine` named no known engine; holds the name given.
    InvalidEngine(String),
    /// `--order` named no known order; holds the name given.
    InvalidOrder(String),
    /// A depth below zero was given.
    InvalidDepth(i64),
    /// A thread count below zero was given.
    InvalidThreadCount(i64),
    /// No path to walk was given.
    MissingPath,
    /// `--follow-links` was given with the dua engine, which never follows links.
    FollowLinksUnsupported,
    /// `--custom` was given with an engine other than jwalk.
    CustomNeedsJwalk,
    /// `--custom` was given without record output.
    CustomNeedsRecords,
    /// `--engine zlob` was given to a build without the zlob engine.
    ZlobNotBuilt,
}

/// The decimal text of an integer, with a leading minus sign when it is negative.
pub open spec fn decimal_text(n: int) -> Seq<char>
    decreases (if n < 0 { -n + 1 } else { n }),
{
    if n < 0 {
        seq!['-'] + decimal_text(-n)
    } else if n < 10 {
        seq![digit_char(n)]
    } else {
        decimal_text(n / 10) + seq![digit_char(n % 10)]
    }
}

pub open spec fn digit_char(d: int) -> char {
    (d + 48) as char
}

fn digit_str(d: u64) -> (s: &'static str)
    requires
        d < 10,
    ensures
        s@ == seq![digit_char(d as int)],
{
    proof {
        reveal_strlit("0");
        reveal_strlit("1");
        reveal_strlit("2");
        reveal_strlit("3");
        reveal_strlit("4");
        reveal_strlit("5");
        reveal_strlit("6");
        reveal_strlit("7");
        reveal_strlit("8");
        reveal_strlit("9");
    }
    let s = match d {
        0 => "0",
        1 => "1",
        2 => "2",
        3 => "3",
        4 => "4",
        5 => "5",
        6 => "6",
        7 => "7",
        8 => "8",
        _ => "9",
    };
    assert(s@ =~= seq![digit_char(d as int)]);
    s
}

/// Writes an unsigned integer in decimal, as `Display` for `u64` does.
fn u64_text(n: u64) -> (text: String)
    ensures
        text@ == decimal_text(n as int),
    decreases n,
{
    if n < 10 {
        String::from_str(digit_str(n))
    } else {
        let head = u64_text(n / 10);
        head.concat(digit_str(n % 10))
    }
}

/// Writes an integer in decimal, as `Display` for `i64` does.
fn i64_text(n: i64) -> (text: String)
    ensures
        text@ == decimal_text(n as int),
{
    if n < 0 {
        let m: u64 = (-(n + 1)) as u64 + 1;
        assert(m as int == -(n as int));
        let digits = u64_text(m);
        proof {
            reveal_strlit("-");
        }
        let t = String::from_str("-").concat(digits.as_str());
        assert(t@ =~= decimal_text(n as int));
        t
    } else {
        u64_text(n as u64)
    }
}

/// The headline of the error that a refused option gives.
pub open spec fn error_title(e: OptionError) -> Seq<char> {
    match e {
        OptionError::InvalidEngine(_) => "invalid engine"@,
        OptionError::InvalidOrder(_) => "invalid order"@,
        OptionError::InvalidDepth(_) => "invalid depth"@,
        OptionError::InvalidThreadCount(_) => "invalid thread count"@,
        OptionError::MissingPath => "Please pass a path parameter to walk"@,
        OptionError::FollowLinksUnsupported => "follow-links requires the jwalk engine"@,
        OptionError::CustomNeedsJwalk => "custom walker requires the jwalk engine"@,
        OptionError::CustomNeedsRecords => "Please remove the custom flag"@,
        OptionError::ZlobNotBuilt => "zlob engine not available"@,
    }
}

/// The explanation attached to the error that a refused option gives.
pub open spec fn error_label(e: OptionError) -> Seq<char> {
    match e {
        OptionError::InvalidEngine(s) =>
            "expected 'jwalk', 'dua', 'ignore', 'walkdir', or 'zlob', got '"@ + s@ + "'"@,
        OptionError::InvalidOrder(s) => "expected 'completion' or 'parent-first', got '"@ + s@
            + "'"@,
        OptionError::InvalidDepth(n) => "expected a non-negative integer, got "@ + decimal_text(
            n as int,
        ),
        OptionError::InvalidThreadCount(n) => "expected a non-negative integer, got "@
            + decimal_text(n as int),
        OptionError::MissingPath => "No pattern provided"@,
        OptionError::FollowLinksUnsupported =>
            "dua never follows symbolic links; pass --engine jwalk"@,
        OptionError::CustomNeedsJwalk =>
            "--custom uses jwalk process_read_dir; pass --engine jwalk --verbose"@,
        OptionError::CustomNeedsRecords => "Custom walker only supported with verbose mode"@,
        OptionError::ZlobNotBuilt =>
            "this build has no zlob engine; rebuild with --features zlob"@,
    }
}

impl OptionError {
    /// The headline of the error.
    pub fn title(&self) -> (t: String)
        ensures
            t@ == error_title(*self),
    {
        let s = match self {
            OptionError::InvalidEngine(_) => "invalid engine",
            OptionError::InvalidOrder(_) => "invalid order",
            OptionError::InvalidDepth(_) => "invalid depth",
            OptionError::InvalidThreadCount(_) => "invalid thread count",
            OptionError::MissingPath => "Please pass a path parameter to walk",
            OptionError::FollowLinksUnsupported => "follow-links requires the jwalk engine",
            OptionError::CustomNeedsJwalk => "custom walker requires the jwalk engine",
            OptionError::CustomNeedsRecords => "Please remove the custom flag",
            OptionError::ZlobNotBuilt => "zlob engine not available",
        };
        String::from_str(s)
    }

    /// The explanation attached to the error.
    pub fn label(&self) -> (t: String)
        ensures
            t@ == error_label(*self),
    {
        match self {
            OptionError::InvalidEngine(s) => {
                let t = String::from_str(
                    "expected 'jwalk', 'dua', 'ignore', 'walkdir', or 'zlob', got '",
                );
                t.concat(s.as_str()).concat("'")
            },
            OptionError::InvalidOrder(s) => {
                let t = String::from_str("expected 'completion' or 'parent-first', got '");
                t.concat(s.as_str()).concat("'")
            },
            OptionError::InvalidDepth(n) => {
                let t = String::from_str("expected a non-negative integer, got ");
                let d = i64_text(*n);
                t.concat(d.as_str())
            },
            OptionError::InvalidThreadCount(n) => {
                let t = String::from_str("expected a non-negative integer, got ");
                let d = i64_text(*n);
                t.concat(d.as_str())
            },
            OptionError::MissingPath => String::from_str("No pattern provided"),
            OptionError::FollowLinksUnsupported => String::from_str(
                "dua never follows symbolic links; pass --engine jwalk",
            ),
            OptionError::CustomNeedsJwalk => String::from_str(
                "--custom uses jwalk process_read_dir; pass --engine jwalk --verbose",
            ),
            OptionError::CustomNeedsRecords => String::from_str(
                "Custom walker only supported with verbose mode",
            ),
            OptionError::ZlobNotBuilt => String::from_str(
                "this build has no zlob engine; rebuild with --features zlob",
            ),
        }
    }
}

/// What `Engine::parse` gives for an optional engine name: no name selects jwalk.
pub open spec fn parse_engine_spec(value: Option<Seq<char>>) -> Option<Engine> {
    match value {
        None => Some(Engine::Jwalk),
        Some(s) => if s == "jwalk"@ {
            Some(Engine::Jwalk)
        } else if s == "dua"@ {
            Some(Engine::Dua)
        } else if s == "ignore"@ {
            Some(Engine::Ignore)
        } else if s == "walkdir"@ {
            Some(Engine::Walkdir)
        } else if s == "zlob"@ {
            Some(Engine::Zlob)
        } else {
            None
        },
    }
}

/// What `WalkOrder::parse` gives for an optional order name: no name selects completion order.
pub open spec fn parse_order_spec(value: Option<Seq<char>>) -> Option<WalkOrder> {
    match value {
        None => Some(WalkOrder::Completion),
        Some(s) => if s == "completion"@ {
            Some(WalkOrder::Completion)
        } else if s == "parent-first"@ {
            Some(WalkOrder::ParentFirst)
        } else {
            None
        },
    }
}

pub open spec fn opt_view(value: Option<&str>) -> Option<Seq<char>> {
    match value {
        None => None,
        Some(s) => Some(s@),
    }
}

impl Engine {
    /// Reads the `--engine` flag.
    pub fn parse(value: Option<&str>) -> (r: Result<Engine, OptionError>)
        ensures
            match parse_engine_spec(opt_view(value)) {
                Some(e) => r == Ok::<Engine, OptionError>(e),
                None => r matches Err(OptionError::InvalidEngine(s)) && s@ == value.unwrap()@,
            },
    {
        match value {
            None => Ok(Engine::Jwalk),
            Some(s) => {
                if str_eq(s, "jwalk") {
                    Ok(Engine::Jwalk)
                } else if str_eq(s, "dua") {
                    Ok(Engine::Dua)
                } else if str_eq(s, "ignore") {
                    Ok(Engine::Ignore)
                } else if str_eq(s, "walkdir") {
                    Ok(Engine::Walkdir)
                } else if str_eq(s, "zlob") {
                    Ok(Engine::Zlob)
                } else {
                    Err(OptionError::InvalidEngine(String::from_str(s)))
                }
            },
        }
    }

    /// The name by which the command line selects this engine.
    pub fn as_str(self) -> (s: &'static str)
        ensures
            s@ == engine_name(self),
    {
        match self {
            Engine::Jwalk => "jwalk",
            Engine::Dua => "dua",
            Engine::Ignore => "ignore",
            Engine::Walkdir => "walkdir",
            Engine::Zlob => "zlob",
        }
    }
}

impl WalkOrder {
    /// Reads the `--order` flag.
    pub fn parse(value: Option<&str>) -> (r: Result<WalkOrder, OptionError>)
        ensures
            match parse_order_spec(opt_view(value)) {
                Some(o) => r == Ok::<WalkOrder, OptionError>(o),
                None => r matches Err(OptionError::InvalidOrder(s)) && s@ == value.unwrap()@,
            },
    {
        match value {
            None => Ok(WalkOrder::Completion),
            Some(s) => {
                if str_eq(s, "completion") {
                    Ok(WalkOrder::Completion)
                } else if str_eq(s, "parent-first") {
                    Ok(WalkOrder::ParentFirst)
                } else {
                    Err(OptionError::InvalidOrder(String::from_str(s)))
                }
            },
        }
    }

    /// The name by which the command line selects this order.
    pub fn as_str(self) -> (s: &'static str)
        ensures
            s@ == order_name(self),
    {
        match self {
            WalkOrder::Completion => "completion",
            WalkOrder::ParentFirst => "parent-first",
        }
    }
}

/// Everything a walk is told.
#[derive(Clone, Debug)]
pub struct WalkOptions {
    pub engine: Engine,
    /// The root of the walk.
    pub path: String,
    /// Yield the entries of each directory sorted by file name.
    pub sort: bool,
    /// Use the hard-coded jwalk walker.
    pub custom: bool,
    /// Leave out entries whose name starts with a dot.
    pub skip_hidden: bool,
    pub follow_links: bool,
    pub min_depth: usize,
    pub max_depth: usize,
    /// Worker threads; `None` leaves the choice to the engine.
    pub threads: Option<usize>,
    /// Names of directories that are yielded but not entered.
    pub skip_dirs: Vec<Vec<u8>>,
    pub verbose: bool,
    pub metadata: bool,
    pub count: bool,
    pub debug: bool,
    pub order: WalkOrder,
}

/// Whether `name` is one of the names in `skip_dirs`.
pub open spec fn is_skip_name(skip_dirs: Seq<Vec<u8>>, name: Seq<u8>) -> bool {
    exists|i: int| 0 <= i < skip_dirs.len() && #[trigger] skip_dirs[i]@ == name
}

/// Whether a file name marks a hidden entry: its first byte is a dot.
pub open spec fn hidden_name(name: Seq<u8>) -> bool {
    name.len() > 0 && name[0] == 0x2eu8
}

/// The first check that a set of options fails, if any.
pub open spec fn validation_error(o: WalkOptions) -> Option<OptionError> {
    if o.engine == Engine::Zlob {
        Some(OptionError::ZlobNotBuilt)
    } else if o.engine == Engine::Dua && o.follow_links {
        Some(OptionError::FollowLinksUnsupported)
    } else if o.engine != Engine::Jwalk && o.custom {
        Some(OptionError::CustomNeedsJwalk)
    } else if o.custom && !(o.verbose || o.metadata) {
        Some(OptionError::CustomNeedsRecords)
    } else {
        None
    }
}

/// The bytes of the walk root's path.
pub open spec fn root_bytes(o: WalkOptions) -> Seq<u8> {
    encode_utf8(o.path@)
}

impl WalkOptions {
    /// The bytes of the walk root's path.
    pub fn root_path_bytes(&self) -> (b: &[u8])
        ensures
            b@ == root_bytes(*self),
    {
        self.path.as_str().as_bytes()
    }

    /// Whether each entry becomes a record rather than a bare path.
    pub fn records(&self) -> (r: bool)
        ensures
            r == (self.verbose || self.metadata),
    {
        self.verbose || self.metadata
    }

    /// Refuses option combinations that no engine can honour.
    pub fn validate(&self) -> (r: Result<(), OptionError>)
        ensures
            match validation_error(*self) {
                None => r is Ok,
                Some(e) => r == Err::<(), OptionError>(e),
            },
    {
        if self.engine == Engine::Zlob {
            return Err(OptionError::ZlobNotBuilt);
        }
        if self.engine == Engine::Dua && self.follow_links {
            return Err(OptionError::FollowLinksUnsupported);
        }
        if self.engine != Engine::Jwalk && self.custom {
            return Err(OptionError::CustomNeedsJwalk);
        }
        if self.custom && !self.records() {
            return Err(OptionError::CustomNeedsRecords);
        }
        Ok(())
    }

    /// Whether `name` is one of the directory names that are yielded but not entered.
    pub fn should_skip_dir_name(&self, name: &[u8]) -> (skip: bool)
        ensures
            skip == is_skip_name(self.skip_dirs@, name@),
    {
        name_in(&self.skip_dirs, name)
    }
}

/// Whether `name` is one of `names`.
pub fn name_in(names: &Vec<Vec<u8>>, name: &[u8]) -> (found: bool)
    ensures
        found == is_skip_name(names@, name@),
{
    let mut i: usize = 0;
    while i < names.len()
        invariant
            i <= names@.len(),
            forall|k: int| 0 <= k < i ==> #[trigger] names@[k]@ != name@,
        decreases names@.len() - i,
    {
        if bytes_eq(names[i].as_slice(), name) {
            assert(names@[i as int]@ == name@);
            return true;
        }
        i = i + 1;
    }
    false
}

/// Whether a file name marks a hidden entry: its first byte is a dot.
pub fn is_hidden_name(name: &[u8]) -> (hidden: bool)
    ensures
        hidden == hidden_name(name@),
{
    name.len() > 0 && name[0] == 0x2eu8
}

/// Reads a depth flag: no value gives `default`, a negative one is refused.
pub fn optional_usize(value: Option<i64>, default: usize) -> (r: Result<usize, OptionError>)
    ensures
        match value {
            None => r == Ok::<usize, OptionError>(default),
            Some(n) => if n >= 0 {
                r == Ok::<usize, OptionError>(n as usize)
            } else {
                r == Err::<usize, OptionError>(OptionError::InvalidDepth(n))
            },
        },
{
    match value {
        None => Ok(default),
        Some(n) => if n >= 0 {
            Ok(n as usize)
        } else {
            Err(OptionError::InvalidDepth(n))
        },
    }
}

/// Reads the thread-count flag: no value leaves the choice to the engine, a negative one is refused.
pub fn optional_threads(value: Option<i64>) -> (r: Result<Option<usize>, OptionError>)
    ensures
        match value {
            None => r == Ok::<Option<usize>, OptionError>(None),
            Some(n) => if n >= 0 {
                r == Ok::<Option<usize>, OptionError>(Some(n as usize))
            } else {
                r == Err::<Option<usize>, OptionError>(OptionError::InvalidThreadCount(n))
            },
        },
{
    match value {
        None => Ok(None),
        Some(n) => if n >= 0 {
            Ok(Some(n as usize))
        } else {
            Err(OptionError::InvalidThreadCount(n))
        },
    }
}

/// The flags of one call of the command, as plain values.
#[derive(Clone, Debug)]
pub struct CommandFlags {
    pub engine: Option<String>,
    pub order: Option<String>,
    pub skip_dirs: Option<Vec<String>>,
    pub sort: bool,
    pub custom: bool,
    pub skip_hidden: bool,
    pub follow_links: bool,
    pub verbose: bool,
    pub metadata: bool,
    pub count: bool,
    pub debug: bool,
    pub min_depth: Option<i64>,
    pub max_depth: Option<i64>,
    pub threads: Option<i64>,
}

pub open spec fn str_opt_view(value: Option<String>) -> Option<Seq<char>> {
    match value {
        None => None,
        Some(s) => Some(s@),
    }
}

/// A depth flag that is given and negative.
pub open spec fn negative(value: Option<i64>) -> bool {
    value matches Some(n) && n < 0
}

pub open spec fn depth_value(value: Option<i64>, default: usize) -> usize {
    match value {
        None => default,
        Some(n) => n as usize,
    }
}

pub open spec fn threads_value(value: Option<i64>) -> Option<usize> {
    match value {
        None => None,
        Some(n) => Some(n as usize),
    }
}

/// The skip-dir names of the flags, as the bytes that file names are compared with.
pub open spec fn skip_names_match(flags: CommandFlags, names: Seq<Vec<u8>>) -> bool {
    match flags.skip_dirs {
        None => names.len() == 0,
        Some(v) => names.len() == v@.len() && forall|i: int|
            0 <= i < names.len() ==> #[trigger] names[i]@ == encode_utf8(v@[i]@),
    }
}

/// The options that the flags give when every flag is well formed.
pub open spec fn options_match(path: String, flags: CommandFlags, o: WalkOptions) -> bool {
    &&& o.path == path
    &&& Some(o.engine) == parse_engine_spec(str_opt_view(flags.engine))
    &&& Some(o.order) == parse_order_spec(str_opt_view(flags.order))
    &&& skip_names_match(flags, o.skip_dirs@)
    &&& o.sort == flags.sort
    &&& o.custom == flags.custom
    &&& o.skip_hidden == flags.skip_hidden
    &&& o.follow_links == flags.follow_links
    &&& o.verbose == flags.verbose
    &&& o.metadata == flags.metadata
    &&& o.count == flags.count
    &&& o.debug == flags.debug
    &&& o.min_depth == depth_value(flags.min_depth, 0)
    &&& o.max_depth == depth_value(flags.max_depth, usize::MAX)
    &&& o.threads == threads_value(flags.threads)
}

fn names_to_bytes(names: &Vec<String>) -> (r: Vec<Vec<u8>>)
    ensures
        r@.len() == names@.len(),
        forall|i: int| 0 <= i < r@.len() ==> #[trigger] r@[i]@ == encode_utf8(names@[i]@),
{
    let mut r: Vec<Vec<u8>> = Vec::new();
    let mut i: usize = 0;
    while i < names.len()
        invariant
            i <= names@.len(),
            r@.len() == i,
            forall|k: int| 0 <= k < i ==> #[trigger] r@[k]@ == encode_utf8(names@[k]@),
        decreases names@.len() - i,
    {
        let b = vstd::slice::slice_to_vec(names[i].as_str().as_bytes());
        r.push(b);
        i = i + 1;
    }
    r
}

/// Builds the options of one call from the walk root (already resolved to
/// an absolute path) and the flags. The engine, then the order, then the
/// minimum depth, the maximum depth and the thread count are read in turn,
/// and the first that is malformed is refused.
pub fn options_from_flags(path: String, flags: &CommandFlags) -> (r: Result<WalkOptions, OptionError>)
    ensures
        parse_engine_spec(str_opt_view(flags.engine)) is None ==> (r matches Err(
            OptionError::InvalidEngine(s),
        ) && s@ == flags.engine.unwrap()@),
        parse_engine_spec(str_opt_view(flags.engine)) is Some ==> {
            &&& parse_order_spec(str_opt_view(flags.order)) is None ==> (r matches Err(
                OptionError::InvalidOrder(s),
            ) && s@ == flags.order.unwrap()@)
            &&& parse_order_spec(str_opt_view(flags.order)) is Some ==> if negative(
                flags.min_depth,
            ) {
                r == Err::<WalkOptions, OptionError>(
                    OptionError::InvalidDepth(flags.min_depth.unwrap()),
                )
            } else if negative(flags.max_depth) {
                r == Err::<WalkOptions, OptionError>(
                    OptionError::InvalidDepth(flags.max_depth.unwrap()),
                )
            } else if negative(flags.threads) {
                r == Err::<WalkOptions, OptionError>(
                    OptionError::InvalidThreadCount(flags.threads.unwrap()),
                )
            } else {
                (r matches Ok(o) && options_match(path, *flags, o))
            }
        },
{
    let engine = match &flags.engine {
        None => Engine::parse(None),
        Some(s) => Engine::parse(Some(s.as_str())),
    }?;
    let order = match &flags.order {
        None => WalkOrder::parse(None),
        Some(s) => WalkOrder::parse(Some(s.as_str())),
    }?;
    let skip_dirs = match &flags.skip_dirs {
        None => Vec::new(),
        Some(v) => names_to_bytes(v),
    };
    let min_depth = optional_usize(flags.min_depth, 0)?;
    let max_depth = optional_usize(flags.max_depth, usize::MAX)?;
    let threads = optional_threads(flags.threads)?;
    Ok(WalkOptions {
        engine,
        path,
        sort: flags.sort,
        custom: flags.custom,
        skip_hidden: flags.skip_hidden,
        follow_links: flags.follow_links,
        min_depth,
        max_depth,
        threads,
        skip_dirs,
        verbose: flags.verbose,
        metadata: flags.metadata,
        count: flags.count,
        debug: flags.debug,
        order,
    })
}

// ---------------------------------------------------------------------
// The debug summary
// ---------------------------------------------------------------------

/// The text that `{:?}` gives for a duration of this many seconds and nanoseconds.
pub uninterp spec fn duration_debug_text(secs: u64, nanos: u32) -> Seq<char>;

/// The text that `{:?}` gives for a list of names, each read as UTF-8 (lossily).
pub uninterp spec fn names_debug_text(names: Seq<Seq<u8>>) -> Seq<char>;

/// `format!("{:?}", Duration::new(secs, nanos))`.
#[verifier::external_body]
fn duration_debug(secs: u64, nanos: u32) -> (text: String)
    requires
        nanos < 1_000_000_000,
    ensures
        text@ == duration_debug_text(secs, nanos),
{
    format!("{:?}", Duration::new(secs, nanos))
}

/// `format!("{:?}", names)` over the names read as UTF-8 (lossily).
#[verifier::external_body]
fn names_debug(names: &Vec<Vec<u8>>) -> (text: String)
    ensures
        text@ == names_debug_text(names_view(names@)),
{
    let shown: Vec<String> = names.iter().map(|n| String::from_utf8_lossy(n).into_owned()).collect();
    format!("{:?}", shown)
}

pub open spec fn bool_text(b: bool) -> Seq<char> {
    if b {
        "true"@
    } else {
        "false"@
    }
}

/// The text that `{:?}` gives for an optional count.
pub open spec fn option_debug_text(n: Option<usize>) -> Seq<char> {
    match n {
        None => "None"@,
        Some(n) => "Some("@ + decimal_text(n as int) + ")"@,
    }
}

/// The lines that `--debug` prints: the options that shape the walk, the
/// time taken and, for a count, the count.
pub open spec fn debug_summary_text(
    o: WalkOptions,
    elapsed_secs: u64,
    elapsed_nanos: u32,
    count: Option<u64>,
) -> Seq<char> {
    "Running with these options:\n  engine: "@ + engine_name(o.engine) + "\n  order: "@
        + order_name(o.order) + "\n  sort: "@ + bool_text(o.sort) + "\n  skip_hidden: "@
        + bool_text(o.skip_hidden) + "\n  follow_links: "@ + bool_text(o.follow_links)
        + "\n  min_depth: "@ + decimal_text(o.min_depth as int) + "\n  max_depth: "@
        + decimal_text(o.max_depth as int) + "\n  threads: "@ + option_debug_text(o.threads)
        + "\n  skip_dirs: "@ + names_debug_text(names_view(o.skip_dirs@)) + "\n  metadata: "@
        + bool_text(o.metadata) + "\nTime: "@ + duration_debug_text(elapsed_secs, elapsed_nanos)
        + match count {
        Some(n) => "\n  count: "@ + decimal_text(n as int),
        None => Seq::<char>::empty(),
    }
}

fn bool_str(b: bool) -> (s: &'static str)
    ensures
        s@ == bool_text(b),
{
    if b {
        "true"
    } else {
        "false"
    }
}

fn option_debug(n: Option<usize>) -> (s: String)
    ensures
        s@ == option_debug_text(n),
{
    match n {
        None => String::from_str("None"),
        Some(n) => {
            let d = u64_text(n as u64);
            String::from_str("Some(").concat(d.as_str()).concat(")")
        },
    }
}

impl WalkOptions {
    /// The lines that `--debug` prints after a walk that took
    /// `elapsed_secs` seconds and `elapsed_nanos` nanoseconds (a `Duration`'s
    /// `as_secs` and `subsec_nanos`).
    pub fn debug_summary(&self, elapsed_secs: u64, elapsed_nanos: u32, count: Option<u64>) -> (text: String)
        requires
            elapsed_nanos < 1_000_000_000,
        ensures
            text@ == debug_summary_text(*self, elapsed_secs, elapsed_nanos, count),
    {
        let secs = elapsed_secs;
        let nanos = elapsed_nanos;
        let mut t = String::from_str("Running with these options:\n  engine: ");
        t = t.concat(self.engine.as_str());
        t = t.concat("\n  order: ");
        t = t.concat(self.order.as_str());
        t = t.concat("\n  sort: ");
        t = t.concat(bool_str(self.sort));
        t = t.concat("\n  skip_hidden: ");
        t = t.concat(bool_str(self.skip_hidden));
        t = t.concat("\n  follow_links: ");
        t = t.concat(bool_str(self.follow_links));
        t = t.concat("\n  min_depth: ");
        let min = u64_text(self.min_depth as u64);
        t = t.concat(min.as_str());
        t = t.concat("\n  max_depth: ");
        let max = u64_text(self.max_depth as u64);
        t = t.concat(max.as_str());
        t = t.concat("\n  threads: ");
        let threads = option_debug(self.threads);
        t = t.concat(threads.as_str());
        t = t.concat("\n  skip_dirs: ");
        let names = names_debug(&self.skip_dirs);
        t = t.concat(names.as_str());
        t = t.concat("\n  metadata: ");
        t = t.concat(bool_str(self.metadata));
        t = t.concat("\nTime: ");
        let time = duration_debug(secs, nanos);
        t = t.concat(time.as_str());
        match count {
            Some(n) => {
                let c = u64_text(n);
                t = t.concat("\n  count: ").concat(c.as_str());
            },
            None => {},
        }
        assert(t@ =~= debug_summary_text(*self, secs, nanos, count));
        t
    }
}

} // verus!
