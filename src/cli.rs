use vstd::prelude::*;
use vstd::string::*;

verus! {

/// The options of a run over a tree.
#[derive(Clone, Debug, PartialEq, Eq)]
pub struct RunOptions {
    /// Write the changes; without it the run is a dry run.
    pub confirm: bool,
    /// Report each change with its old and new time and the day delta.
    pub show_dates: bool,
    /// The root of the tree; the current directory when absent.
    pub path: Option<String>,
}

/// What the command line asks for.
#[derive(Clone, Debug, PartialEq, Eq)]
pub enum Command {
    Help,
    Version,
    Run(RunOptions),
    /// An option that is not known; nothing is traversed.
    Unknown(String),
}

/// The meaning of a command line, over the text of its arguments.
pub enum CommandModel {
    Help,
    Version,
    Run { confirm: bool, show_dates: bool, path: Option<Seq<char>> },
    Unknown(Seq<char>),
}

impl Command {
    pub open spec fn model(&self) -> CommandModel {
        match self {
            Command::Help => CommandModel::Help,
            Command::Version => CommandModel::Version,
            Command::Run(o) => CommandModel::Run {
                confirm: o.confirm,
                show_dates: o.show_dates,
                path: match o.path {
                    Some(p) => Some(p@),
                    None => None,
                },
            },
            Command::Unknown(a) => CommandModel::Unknown(a@),
        }
    }
}

/// Reads the arguments left to right: help and version stop at once, the two
/// flags accumulate, an unknown option (any other word starting with `-`)
/// stops with an error, and the first other word is the root, after which
/// the rest is ignored.
pub open spec fn command_of(args: Seq<Seq<char>>, confirm: bool, show_dates: bool) -> CommandModel
    decreases args.len(),
{
    if args.len() == 0 {
        CommandModel::Run { confirm, show_dates, path: None }
    } else {
        let a = args[0];
        if a == "-h"@ || a == "--help"@ {
            CommandModel::Help
        } else if a == "-V"@ || a == "--version"@ {
            CommandModel::Version
        } else if a == "-C"@ || a == "--confirm"@ {
            command_of(args.drop_first(), true, show_dates)
        } else if a == "-D"@ || a == "--show-dates"@ {
            command_of(args.drop_first(), confirm, true)
        } else if a.len() > 0 && a[0] == '-' {
            CommandModel::Unknown(a)
        } else {
            CommandModel::Run { confirm, show_dates, path: Some(a) }
        }
    }
}

/// The text of each argument.
pub open spec fn texts(args: Seq<String>) -> Seq<Seq<char>> {
    args.map_values(|s: String| s@)
}

/// Whether two strings hold the same characters.
pub fn text_eq(a: &str, b: &str) -> (r: bool)
    ensures
        r == (a@ == b@),
{
    let n = a.unicode_len();
    if n != b.unicode_len() {
        return false;
    }
    let mut i: usize = 0;
    while i < n
        invariant
            n == a@.len(),
            n == b@.len(),
            i <= n,
            a@.take(i as int) == b@.take(i as int),
        decreases n - i,
    {
        if a.get_char(i) != b.get_char(i) {
            assert(a@[i as int] != b@[i as int]);
            return false;
        }
        assert(a@.take(i + 1) == a@.take(i as int).push(a@[i as int]));
        assert(b@.take(i + 1) == b@.take(i as int).push(b@[i as int]));
        i = i + 1;
    }
    assert(a@ == a@.take(n as int));
    assert(b@ == b@.take(n as int));
    true
}

/// Parses the command-line arguments (without the program name).
pub fn parse_args(args: &Vec<String>) -> (r: Command)
    ensures
        r.model() == command_of(texts(args@), false, false),
{
    let ghost all = texts(args@);
    let mut confirm = false;
    let mut show_dates = false;
    let mut i: usize = 0;
    assert(all.skip(0) == all);
    while i < args.len()
        invariant
            i <= args.len(),
            all == texts(args@),
            command_of(all, false, false) == command_of(all.skip(i as int), confirm, show_dates),
        decreases args.len() - i,
    {
        let a = args[i].as_str();
        let ghost rest = all.skip(i as int);
        assert(rest[0] == a@);
        assert(rest.drop_first() == all.skip(i + 1));
        if text_eq(a, "-h") || text_eq(a, "--help") {
            return Command::Help;
        } else if text_eq(a, "-V") || text_eq(a, "--version") {
            return Command::Version;
        } else if text_eq(a, "-C") || text_eq(a, "--confirm") {
            confirm = true;
        } else if text_eq(a, "-D") || text_eq(a, "--show-dates") {
            show_dates = true;
        } else if a.unicode_len() > 0 && a.get_char(0) == '-' {
            return Command::Unknown(args[i].clone());
        } else {
            return Command::Run(RunOptions { confirm, show_dates, path: Some(args[i].clone()) });
        }
        i = i + 1;
    }
    assert(all.skip(i as int).len() == 0);
    Command::Run(RunOptions { confirm, show_dates, path: None })
}

/// The usage text that follows the first line.
pub const USAGE_BODY: &'static str = "

Usage:
  dirstamp [PATH] [OPTIONS]

Options:
  -C, --confirm     Apply changes (default is dry run)
  -D, --show-dates  Show from \u{2192} to timestamps and \u{b1}days for each change
  -V, --version     Show version information
  -h, --help        Show this help message
";

/// The help text for the given version.
pub fn usage_text(version: &str) -> (r: String)
    ensures
        r@ == "dirstamp "@ + version@ + USAGE_BODY@,
{
    let r = String::from_str("dirstamp ");
    let r = r.concat(version);
    r.concat(USAGE_BODY)
}

/// The version line: the build's revision and date follow the version where
/// a non-empty revision is known.
pub open spec fn version_text(version: Seq<char>, hash: Option<Seq<char>>, date: Option<Seq<char>>) -> Seq<char> {
    match (hash, date) {
        (Some(h), Some(d)) if h.len() > 0 => "dirstamp "@ + version + " ("@ + h + " "@ + d + ")"@,
        (Some(h), None) if h.len() > 0 => "dirstamp "@ + version + " ("@ + h + ")"@,
        _ => "dirstamp "@ + version,
    }
}

pub open spec fn opt_text(s: Option<&str>) -> Option<Seq<char>> {
    match s {
        Some(t) => Some(t@),
        None => None,
    }
}

/// The line that `--version` prints.
pub fn version_line(version: &str, hash: Option<&str>, date: Option<&str>) -> (r: String)
    ensures
        r@ == version_text(version@, opt_text(hash), opt_text(date)),
{
    let r = String::from_str("dirstamp ").concat(version);
    match (hash, date) {
        (Some(h), Some(d)) if h.unicode_len() > 0 => r.concat(" (").concat(h).concat(" ").concat(d).concat(")"),
        (Some(h), None) if h.unicode_len() > 0 => r.concat(" (").concat(h).concat(")"),
        _ => r,
    }
}

} // verus!
