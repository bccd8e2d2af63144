//! The command line.
use crate::text::{self, texts_view};
use vstd::prelude::*;

verus! {

/// What the command line asks for.
#[derive(Debug, Clone, PartialEq, Eq)]
pub enum Args {
    /// Run, with the configuration file that was given.
    Run { config: Option<String> },
    /// `--config` without a path.
    MissingPath,
    Help,
    Unknown(String),
}

/// The contents of an [`Args`].
pub enum ArgsModel {
    Run { config: Option<Seq<char>> },
    MissingPath,
    Help,
    Unknown(Seq<char>),
}

impl View for Args {
    type V = ArgsModel;

    open spec fn view(&self) -> ArgsModel {
        match self {
            Args::Run { config } => ArgsModel::Run {
                config: match config {
                    Some(path) => Some(path@),
                    None => None,
                },
            },
            Args::MissingPath => ArgsModel::MissingPath,
            Args::Help => ArgsModel::Help,
            Args::Unknown(arg) => ArgsModel::Unknown(arg@),
        }
    }
}

/// What the arguments from the `i`-th on ask for, when those before it gave `config`. The last
/// path counts; the first argument that is not `--config` decides.
pub open spec fn read_args(args: Seq<Seq<char>>, i: int, config: Option<Seq<char>>) -> ArgsModel
    decreases args.len() - i,
{
    if i >= args.len() {
        ArgsModel::Run { config }
    } else if args[i] == "--config"@ {
        if i + 1 < args.len() {
            read_args(args, i + 2, Some(args[i + 1]))
        } else {
            ArgsModel::MissingPath
        }
    } else if args[i] == "-h"@ || args[i] == "--help"@ {
        ArgsModel::Help
    } else {
        ArgsModel::Unknown(args[i])
    }
}

/// What the command line asks for; the name of the program is not among the arguments.
pub fn parse_args(args: &[String]) -> (res: Args)
    ensures
        res@ == read_args(texts_view(args@), 0, None),
{
    let mut config: Option<String> = None;
    let mut i: usize = 0;
    let ghost names = texts_view(args@);
    let n: usize = args.len();
    while i < n
        invariant
            i <= n,
            n == args@.len(),
            names == texts_view(args@),
            read_args(names, 0, None) == read_args(
                names,
                i as int,
                match config {
                    Some(path) => Some(path@),
                    None => None,
                },
            ),
        decreases n - i,
    {
        let arg = args[i].as_str();
        assert(names[i as int] == arg@);
        if text::same_text(arg, "--config") {
            if i + 1 >= n {
                return Args::MissingPath;
            }
            config = Some(args[i + 1].clone());
            i += 2;
        } else if text::same_text(arg, "-h") || text::same_text(arg, "--help") {
            return Args::Help;
        } else {
            return Args::Unknown(args[i].clone());
        }
    }
    Args::Run { config }
}

/// A command line of `--config` and a path, any number of times, runs with the last path; a
/// `--config` at its end lacks a path.
pub proof fn law_last_path_counts(args: Seq<Seq<char>>, i: int, config: Option<Seq<char>>)
    requires
        0 <= i <= args.len(),
        forall|k: int| i <= k < args.len() && (k - i) % 2 == 0 ==> #[trigger] args[k] == "--config"@,
    ensures
        (args.len() - i) % 2 == 0 ==> read_args(args, i, config) == (ArgsModel::Run {
            config: if args.len() > i {
                Some(args.last())
            } else {
                config
            },
        }),
        (args.len() - i) % 2 == 1 ==> read_args(args, i, config) == ArgsModel::MissingPath,
    decreases args.len() - i,
{
    if i < args.len() {
        assert(args[i] == "--config"@);
        if i + 1 < args.len() {
            law_last_path_counts(args, i + 2, Some(args[i + 1]));
        }
    }
}

/// Another argument in the place of a `--config` decides, whatever stands before it and behind it:
/// `-h` and `--help` ask for help, anything else is unknown.
pub proof fn law_other_argument_decides(
    args: Seq<Seq<char>>,
    i: int,
    k: int,
    config: Option<Seq<char>>,
)
    requires
        0 <= i <= k < args.len(),
        (k - i) % 2 == 0,
        forall|j: int| i <= j < k && (j - i) % 2 == 0 ==> #[trigger] args[j] == "--config"@,
        args[k] != "--config"@,
    ensures
        read_args(args, i, config) == (if args[k] == "-h"@ || args[k] == "--help"@ {
            ArgsModel::Help
        } else {
            ArgsModel::Unknown(args[k])
        }),
    decreases k - i,
{
    if i < k {
        assert(args[i] == "--config"@);
        law_other_argument_decides(args, i + 2, k, Some(args[i + 1]));
    }
}

} // verus!
