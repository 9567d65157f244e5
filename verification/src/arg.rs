use vstd::prelude::*;

use crate::opt::{Opt, OptV, Options, opt_values, seq_add};
use crate::text::str_eq;

verus! {

/// What the command line asks the generator to do.
#[derive(Debug)]
pub enum OperationMode {
    /// Print the version; `true` asks for the long form.
    Version(bool),
    /// Generate a header from these options and input files.
    Normal(Options, Vec<String>),
    /// Print the usage text.
    Help,
}

/// The mathematical value of an [`OperationMode`].
pub enum ModeV {
    Version(bool),
    Normal(Seq<OptV>, Seq<Seq<char>>),
    Help,
}

/// The texts of a sequence of strings.
pub open spec fn texts(s: Seq<String>) -> Seq<Seq<char>> {
    s.map_values(|a: String| a@)
}

impl View for OperationMode {
    type V = ModeV;

    open spec fn view(&self) -> ModeV {
        match self {
            OperationMode::Version(v) => ModeV::Version(*v),
            OperationMode::Normal(o, f) => ModeV::Normal(opt_values(o.elems()), texts(f@)),
            OperationMode::Help => ModeV::Help,
        }
    }
}

/// The command line grammar, read from argument `i` on: `look` tells whether
/// flags are still read, `opts` and `files` hold what was read before `i`
/// (`opts` in the order in which each option first appeared).
/// `-h`, `-v` and `-V` count only as the first argument; `-s`, `-e <exec>`,
/// `-o <file>`, `-u` and `-` only while flags are read; the first other
/// argument, and every argument after `-`, is an input file and stops the reading of flags.
pub open spec fn parse_from(
    args: Seq<Seq<char>>,
    i: int,
    look: bool,
    opts: Seq<OptV>,
    files: Seq<Seq<char>>,
) -> Result<ModeV, Seq<char>>
    decreases args.len() - i,
{
    if i >= args.len() {
        if files.len() < 1 {
            Err("No files specified. For help run with `-h`"@)
        } else {
            Ok(ModeV::Normal(opts, files))
        }
    } else {
        let a = args[i];
        if a == "-h"@ && i == 1 {
            Ok(ModeV::Help)
        } else if a == "-v"@ && i == 1 {
            Ok(ModeV::Version(false))
        } else if a == "-V"@ && i == 1 {
            Ok(ModeV::Version(true))
        } else if a == "-s"@ && look {
            parse_from(args, i + 1, look, seq_add(opts, OptV::Silent), files)
        } else if a == "-e"@ && look {
            if i < args.len() - 1 {
                parse_from(args, i + 2, look, seq_add(opts, OptV::Execute(args[i + 1])), files)
            } else {
                Err("-e expects an argument that wasn't given."@)
            }
        } else if a == "-o"@ && look {
            if i < args.len() - 1 {
                parse_from(args, i + 2, look, seq_add(opts, OptV::Output(args[i + 1])), files)
            } else {
                Err("-o expects an argument that wasn't given."@)
            }
        } else if a == "-u"@ && look {
            parse_from(args, i + 1, look, seq_add(opts, OptV::NoHash), files)
        } else if a == "-"@ && look {
            parse_from(args, i + 1, false, opts, files)
        } else {
            parse_from(args, i + 1, false, opts, files.push(a))
        }
    }
}

/// What the whole command line `args` (the program's name first) asks for.
pub open spec fn parse_spec(args: Seq<Seq<char>>) -> Result<ModeV, Seq<char>> {
    parse_from(args, 1, true, seq![], seq![])
}

/// Whether an argument is read as a flag when flags are still read.
pub open spec fn is_flag(a: Seq<char>) -> bool {
    a == "-h"@ || a == "-v"@ || a == "-V"@ || a == "-s"@ || a == "-e"@ || a == "-o"@
        || a == "-u"@ || a == "-"@
}

/// Once flags are no longer read (after the first input file or `-`), every later
/// argument is an input file, whatever it says, and no option is added: the run takes
/// the files read so far followed by all the remaining arguments, and fails only when
/// there is no file at all.
pub proof fn law_no_flags_after_files(
    args: Seq<Seq<char>>,
    i: int,
    opts: Seq<OptV>,
    files: Seq<Seq<char>>,
)
    requires
        2 <= i,
    ensures
        parse_from(args, i, false, opts, files) == if i < args.len() {
            Ok::<ModeV, Seq<char>>(ModeV::Normal(opts, files + args.skip(i)))
        } else if files.len() < 1 {
            Err::<ModeV, Seq<char>>("No files specified. For help run with `-h`"@)
        } else {
            Ok::<ModeV, Seq<char>>(ModeV::Normal(opts, files))
        },
    decreases args.len() - i,
{
    if i < args.len() {
        law_no_flags_after_files(args, i + 1, opts, files.push(args[i]));
        if i + 1 < args.len() {
            assert(files.push(args[i]) + args.skip(i + 1) =~= files + args.skip(i));
        } else {
            assert(files.push(args[i]) =~= files + args.skip(i));
        }
    }
}

/// A command line whose first argument is not a flag is a run on all its arguments as
/// input files, with no option.
pub proof fn law_first_file_ends_flags(args: Seq<Seq<char>>)
    requires
        args.len() >= 2,
        !is_flag(args[1]),
    ensures
        parse_spec(args) == Ok::<ModeV, Seq<char>>(ModeV::Normal(Seq::empty(), args.skip(1))),
{
    law_no_flags_after_files(args, 2, Seq::empty(), seq![args[1]]);
    if args.len() > 2 {
        assert(seq![args[1]] + args.skip(2) =~= args.skip(1));
    } else {
        assert(seq![args[1]] =~= args.skip(1));
    }
    assert(Seq::<Seq<char>>::empty().push(args[1]) =~= seq![args[1]]);
}

/// Reads the command line `args`, whose first element is the program's name.
pub fn parse(args: &[String]) -> (r: Result<OperationMode, &'static str>)
    ensures
        match r {
            Ok(m) => parse_spec(texts(args@)) == Ok::<ModeV, Seq<char>>(m@),
            Err(e) => parse_spec(texts(args@)) == Err::<ModeV, Seq<char>>(e@),
        },
{
    let ghost a = texts(args@);
    let mut opt = Options::new();
    let mut files: Vec<String> = Vec::new();
    let mut look = true;
    let mut i: usize = 1;
    assert(texts(files@) =~= Seq::<Seq<char>>::empty());
    assert(opt_values(opt.elems()) =~= Seq::<OptV>::empty());
    while i < args.len()
        invariant
            a == texts(args@),
            1 <= i,
            parse_spec(a) == parse_from(a, i as int, look, opt_values(opt.elems()), texts(files@)),
        decreases args@.len() - i,
    {
        let arg = args[i].as_str();
        assert(arg@ == a[i as int]);
        if str_eq(arg, "-h") && i == 1 {
            return Ok(OperationMode::Help);
        } else if str_eq(arg, "-v") && i == 1 {
            return Ok(OperationMode::Version(false));
        } else if str_eq(arg, "-V") && i == 1 {
            return Ok(OperationMode::Version(true));
        } else if str_eq(arg, "-s") && look {
            opt.insert(Opt::Silent);
        } else if str_eq(arg, "-e") && look {
            if i < args.len() - 1 {
                assert(args[i + 1 as int]@ == a[i + 1]);
                opt.insert(Opt::Execute(args[i + 1].clone()));
            } else {
                return Err("-e expects an argument that wasn't given.");
            }
            i = i + 1;
        } else if str_eq(arg, "-o") && look {
            if i < args.len() - 1 {
                assert(args[i + 1 as int]@ == a[i + 1]);
                opt.insert(Opt::Output(args[i + 1].clone()));
            } else {
                return Err("-o expects an argument that wasn't given.");
            }
            i = i + 1;
        } else if str_eq(arg, "-u") && look {
            opt.insert(Opt::NoHash);
        } else if str_eq(arg, "-") && look {
            look = false;
        } else {
            let ghost before = files@;
            files.push(args[i].clone());
            assert(texts(files@) =~= texts(before).push(a[i as int]));
            look = false;
        }
        i = i + 1;
    }
    if files.len() < 1 {
        return Err("No files specified. For help run with `-h`");
    }
    Ok(OperationMode::Normal(opt, files))
}

} // verus!
