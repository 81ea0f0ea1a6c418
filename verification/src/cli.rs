//! Command line.
use vstd::prelude::*;

use crate::text;
use crate::text::{chars_of, parse_number, same_text};

verus! {

/// Where the ARC's counters are read from unless told otherwise.
pub const DEFAULT_SOURCE: &'static str = "/proc/spl/kstat/zfs/arcstats";

/// Milliseconds between two refreshes unless told otherwise.
pub const DEFAULT_INTERVAL_MS: u64 = 1000;

/// What `--help` prints.
pub const HELP: &'static str = "zftop - a terminal dashboard for ZFS

Usage: zftop [OPTIONS]

Options:
  -n, --interval <MS>   Milliseconds between refreshes (default: 1000)
      --source <PATH>   Where to read arcstats from (Linux only)
      --meminfo <PATH>  Where to read meminfo from (Linux only)
      --help            Show this help

Controls:
  (all tabs)
    1 / 2 / 3 / 4       Switch to Overview / Pools / Datasets / ARC
    Tab / Shift+Tab     Next / previous tab
    r                   Force refresh
    q / Ctrl+C          Quit

  (Pools tree)
    Up / Down, k / j    Select row
    Home / End          Jump to first / last visible row
    Right, l            Expand selected pool
    Left, h             Collapse selected pool, or jump to parent pool
    Enter               Show details of the row's pool

  (Pools detail)
    Esc / Backspace     Return to tree

  (Datasets tree)
    Up / Down, k / j    Select row
    Home / End          Jump to first / last visible row
    Right, l            Expand selected dataset
    Left, h             Collapse selected dataset, or jump to parent
    Enter               Show details of the selected dataset

  (Datasets detail)
    Esc / Backspace     Return to tree
";

/// What the command line asks for.
#[derive(Debug)]
pub struct Options {
    pub source: String,
    pub meminfo: Option<String>,
    pub interval_ms: u64,
    pub help: bool,
}

/// What `Options` holds.
pub ghost struct OptionsModel {
    pub source: Seq<char>,
    pub meminfo: Option<Seq<char>>,
    pub interval_ms: u64,
    pub help: bool,
}

impl View for Options {
    type V = OptionsModel;

    open spec fn view(&self) -> OptionsModel {
        OptionsModel {
            source: self.source@,
            meminfo: text::opt_text(self.meminfo),
            interval_ms: self.interval_ms,
            help: self.help,
        }
    }
}

/// What holds where the command line says nothing.
pub open spec fn defaults() -> OptionsModel {
    OptionsModel {
        source: DEFAULT_SOURCE@,
        meminfo: None,
        interval_ms: DEFAULT_INTERVAL_MS,
        help: false,
    }
}

/// The argument that follows `name` is its value.
pub open spec fn takes_value(name: Seq<char>) -> bool {
    name == "--source"@ || name == "--meminfo"@ || name == "-n"@ || name == "--interval"@
}

/// The options after `name` with its value. A value that is no number leaves the interval as it
/// is.
pub open spec fn with_value(o: OptionsModel, name: Seq<char>, value: Seq<char>) -> OptionsModel {
    if name == "--source"@ {
        OptionsModel { source: value, ..o }
    } else if name == "--meminfo"@ {
        OptionsModel { meminfo: Some(value), ..o }
    } else {
        match text::number(value) {
            Some(n) => OptionsModel { interval_ms: n, ..o },
            None => o,
        }
    }
}

/// The options after the arguments `args`. What is not known is passed over, and so is a name
/// whose value is missing.
pub open spec fn parsed(args: Seq<Seq<char>>, o: OptionsModel) -> OptionsModel
    decreases args.len(),
{
    if args.len() == 0 {
        o
    } else if takes_value(args[0]) && args.len() > 1 {
        parsed(args.skip(2), with_value(o, args[0], args[1]))
    } else if args[0] == "--help"@ {
        parsed(args.skip(1), OptionsModel { help: true, ..o })
    } else {
        parsed(args.skip(1), o)
    }
}

/// The contents of each argument.
pub open spec fn contents(args: Seq<String>) -> Seq<Seq<char>> {
    Seq::new(args.len(), |i: int| args[i]@)
}

/// The options of a command line, whose first argument is the program's own name.
pub open spec fn options_of(args: Seq<Seq<char>>) -> OptionsModel {
    if args.len() == 0 {
        defaults()
    } else {
        parsed(args.skip(1), defaults())
    }
}

/// Reads the arguments; the first is the program's own name.
pub fn parse_args(args: &Vec<String>) -> (r: Options)
    ensures
        r@ == options_of(contents(args@)),
{
    let mut o = Options {
        source: DEFAULT_SOURCE.to_owned(),
        meminfo: None,
        interval_ms: DEFAULT_INTERVAL_MS,
        help: false,
    };
    let mut i: usize = 1;
    let ghost all = contents(args@);
    while i < args.len()
        invariant
            1 <= i,
            all == contents(args@),
            args.len() == 0 ==> o@ == defaults(),
            args.len() > 0 ==> i <= args.len(),
            args.len() > 0 ==> parsed(all.skip(i as int), o@) == parsed(all.skip(1), defaults()),
        decreases args.len() - i,
    {
        let name: &String = &args[i];
        let ghost rest = all.skip(i as int);
        proof {
            assert(rest.skip(1) =~= all.skip(i + 1));
            assert(rest[0] == name@);
            if i + 1 < args.len() {
                assert(rest.skip(2) =~= all.skip(i + 2));
                assert(rest[1] == args@[i + 1]@);
            }
        }
        let last: bool = i + 1 == args.len();
        if same_text(name, "--source") && !last {
            o.source = args[i + 1].clone();
            i = i + 2;
        } else if same_text(name, "--meminfo") && !last {
            o.meminfo = Some(args[i + 1].clone());
            i = i + 2;
        } else if (same_text(name, "-n") || same_text(name, "--interval")) && !last {
            if let Some(n) = parse_number(&chars_of(args[i + 1].as_str())) {
                o.interval_ms = n;
            }
            i = i + 2;
        } else {
            if same_text(name, "--help") {
                o.help = true;
            }
            i = i + 1;
        }
    }
    assert(args.len() > 0 ==> all.skip(i as int).len() == 0);
    o
}

} // verus!
