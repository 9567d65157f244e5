use vstd::prelude::*;

use crate::opt::{Opt, OptV, Options};

verus! {

/// What the final component of a path is, as std's `Path::file_name` reads it:
/// `None` when the path has no final file name (it is empty, a root, or ends in `..`).
pub uninterp spec fn path_file_name(path: Seq<char>) -> Option<Seq<char>>;

/// Calls std's `Path::file_name` on `path` and converts the component back to `str`
/// with `OsStr::to_str`; the contract claims that a name is found exactly when
/// [`path_file_name`] gives one, that the conversion succeeds (the component is a
/// piece of the text `path`, cut at separators, so it is valid text), and that the
/// converted name is the one [`path_file_name`] gives.
#[verifier::external_body]
fn file_name_of(path: &str) -> (r: Option<Option<&str>>)
    ensures
        r is None <==> path_file_name(path@) is None,
        r matches Some(x) ==> x is Some,
        r matches Some(Some(n)) ==> path_file_name(path@) == Some(n@),
{
    match std::path::Path::new(path).file_name() {
        Some(n) => Some(n.to_str()),
        None => None,
    }
}

/// The file name that a path's final component gives, or why there is none:
/// no component at all, or one that is not valid text.
pub fn name_from_component<'a>(component: Option<Option<&'a str>>) -> (r: Result<&'a str, &'static str>)
    ensures
        match component {
            Some(Some(n)) => r == Ok::<&'a str, &'static str>(n),
            Some(None) => r matches Err(e) && e@ == "Invalid unicode in filename"@,
            None => r matches Err(e) && e@ == "No filename, are you trying to add a directory?"@,
        },
{
    match component {
        Some(c) => match c {
            Some(file_name) => Ok(file_name),
            None => Err("Invalid unicode in filename"),
        },
        None => Err("No filename, are you trying to add a directory?"),
    }
}

/// The file name of `path`, its final component.
pub fn attempt_get_name<'a>(path: &'a str) -> (r: Result<&'a str, &'static str>)
    ensures
        match path_file_name(path@) {
            Some(n) => r matches Ok(m) && m@ == n,
            None => r matches Err(e) && e@ == "No filename, are you trying to add a directory?"@,
        },
{
    let c = file_name_of(path);
    name_from_component(c)
}

/// Whether an option is an output file name.
pub open spec fn is_output(v: OptV) -> bool {
    v is Output
}

/// Whether an option is a post-extraction hook.
pub open spec fn is_execute(v: OptV) -> bool {
    v is Execute
}

/// What the options of one run of the generator settle.
pub struct Settings {
    /// Where the header is written.
    pub output: String,
    /// The post-extraction hook.
    pub execute: Option<String>,
    /// Whether the generated archive extracts silently.
    pub silent: bool,
    /// Whether the inputs are left unhashed.
    pub no_hash: bool,
}

impl Settings {
    /// The settings of `options`: the first output file name in the order in which the
    /// options were added (for the options that [`crate::arg::parse`] reads, the order
    /// of the command line), `file.h` when there is none; the first post-extraction
    /// hook in that order, none when there is none; and whether the silent and
    /// unhashed flags are set.
    pub fn from_options(options: &Options) -> (r: Settings)
        ensures
            r.silent == options@.contains(OptV::Silent),
            r.no_hash == options@.contains(OptV::NoHash),
            (forall|i: int| 0 <= i < options.elems().len() ==> !is_output(#[trigger] options.elems()[i]@))
                ==> r.output@ == "file.h"@,
            !(forall|i: int| 0 <= i < options.elems().len() ==> !is_output(#[trigger] options.elems()[i]@))
                ==> exists|i: int| 0 <= i < options.elems().len()
                    && #[trigger] options.elems()[i]@ == OptV::Output(r.output@)
                    && forall|j: int| 0 <= j < i ==> !is_output(options.elems()[j]@),
            r.execute is None <==> forall|i: int| 0 <= i < options.elems().len()
                ==> !is_execute(#[trigger] options.elems()[i]@),
            r.execute matches Some(e) ==> exists|i: int| 0 <= i < options.elems().len()
                && #[trigger] options.elems()[i]@ == OptV::Execute(e@)
                && forall|j: int| 0 <= j < i ==> !is_execute(options.elems()[j]@),
    {
        let pick_output = |opt: &Opt| -> (r: Option<String>)
            ensures
                match opt@ {
                    OptV::Output(s) => r matches Some(x) && x@ == s,
                    _ => r is None,
                },
            {
                match opt {
                    Opt::Output(output) => Some(output.clone()),
                    _ => None,
                }
            };
        let found = options.find(pick_output);
        let ghost e = options.elems();
        proof {
            if found is Some {
                let x = found->0;
                {
                    let i = choose|i: int| 0 <= i < e.len()
                        && #[trigger] pick_output.ensures((&e[i],), Some(x))
                        && forall|j: int| 0 <= j < i ==> pick_output.ensures((&e[j],), None);
                    assert(e[i]@ == OptV::Output(x@));
                    assert forall|j: int| 0 <= j < i implies !is_output(e[j]@) by {
                        assert(pick_output.ensures((&e[j],), None));
                    }
                }
            } else {
                {
                    assert forall|i: int| 0 <= i < e.len() implies !is_output(#[trigger] e[i]@) by {
                        assert(pick_output.ensures((&e[i],), None));
                    }
                }
            }
        }
        let output = match found {
            Some(o) => o,
            None => {
                let mut d = String::new();
                d.push_str("file.h");
                d
            },
        };
        let pick_execute = |opt: &Opt| -> (r: Option<String>)
            ensures
                match opt@ {
                    OptV::Execute(s) => r matches Some(x) && x@ == s,
                    _ => r is None,
                },
            {
                match opt {
                    Opt::Execute(e) => Some(e.clone()),
                    _ => None,
                }
            };
        let execute = options.find(pick_execute);
        proof {
            if execute is Some {
                let x = execute->0;
                {
                    let i = choose|i: int| 0 <= i < e.len()
                        && #[trigger] pick_execute.ensures((&e[i],), Some(x))
                        && forall|j: int| 0 <= j < i ==> pick_execute.ensures((&e[j],), None);
                    assert(e[i]@ == OptV::Execute(x@));
                    assert(!is_execute(e[i]@) == false);
                    assert forall|j: int| 0 <= j < i implies !is_execute(e[j]@) by {
                        assert(pick_execute.ensures((&e[j],), None));
                    }
                }
            } else {
                {
                    assert forall|i: int| 0 <= i < e.len() implies !is_execute(#[trigger] e[i]@) by {
                        assert(pick_execute.ensures((&e[i],), None));
                    }
                }
            }
        }
        let silent = options.has_tag(&Opt::Silent);
        let no_hash = options.has_tag(&Opt::NoHash);
        Settings { output, execute, silent, no_hash }
    }
}


/// What the version request prints: the long form names the program, version,
/// author and license; the short form is the bare version.
pub open spec fn version_spec(verbose: bool, version: Seq<char>, authors: Seq<char>) -> Seq<char> {
    if verbose {
        "sfexec-generator-native verison: "@ + version + "\n"@
        + "author: "@ + authors + " (https://flanchan.moe/)\n"@
        + "license: GPL 3.0\n\n"@
    } else {
        version
    }
}

/// The text of the version request, as [`version_spec`] states.
pub fn version_text(verbose: bool, version: &str, authors: &str) -> (r: String)
    ensures
        r@ == version_spec(verbose, version@, authors@),
{
    let mut out = String::new();
    if verbose {
        out.push_str("sfexec-generator-native verison: ");
        out.push_str(version);
        out.push_str("\n");
        out.push_str("author: ");
        out.push_str(authors);
        out.push_str(" (https://flanchan.moe/)\n");
        out.push_str("license: GPL 3.0\n\n");
    } else {
        out.push_str(version);
    }
    out
}

/// The usage text: the long version text, the three forms of the command line for
/// the program `prog`, and what each flag does.
pub open spec fn usage_spec(prog: Seq<char>, version: Seq<char>, authors: Seq<char>) -> Seq<char> {
    version_spec(true, version, authors)
    + "Usage: "@ + prog + " [-s] [-e <exec string>] [-o <output file>] [-u] [-] <files...>\n"@
    + "Usage: "@ + prog + " -h\n"@
    + "Usage: "@ + prog + " -v|-V\n"@
    + "\n"@
    + " -h\t\tPrint this message.\n"@
    + " -v\t\tPrint version.\n"@
    + " -V\t\tPrint program info.\n"@
    + " -\t\tStop reading options.\n"@
    + " -s\t\tSilent mode.\n"@
    + " -e <exec>\tScript to run after extraction.\n"@
    + " -o <file>\tOutput filename.\n"@
    + " -u\t\tUnchecked mode. Do not compute hashes of inputs.\n"@
}

/// The usage text, as [`usage_spec`] states.
pub fn usage_text(prog: &str, version: &str, authors: &str) -> (r: String)
    ensures
        r@ == usage_spec(prog@, version@, authors@),
{
    let mut out = version_text(true, version, authors);
    out.push_str("Usage: ");
    out.push_str(prog);
    out.push_str(" [-s] [-e <exec string>] [-o <output file>] [-u] [-] <files...>\n");
    out.push_str("Usage: ");
    out.push_str(prog);
    out.push_str(" -h\n");
    out.push_str("Usage: ");
    out.push_str(prog);
    out.push_str(" -v|-V\n");
    out.push_str("\n");
    out.push_str(" -h\t\tPrint this message.\n");
    out.push_str(" -v\t\tPrint version.\n");
    out.push_str(" -V\t\tPrint program info.\n");
    out.push_str(" -\t\tStop reading options.\n");
    out.push_str(" -s\t\tSilent mode.\n");
    out.push_str(" -e <exec>\tScript to run after extraction.\n");
    out.push_str(" -o <file>\tOutput filename.\n");
    out.push_str(" -u\t\tUnchecked mode. Do not compute hashes of inputs.\n");
    out
}

} // verus!
