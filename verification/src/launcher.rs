//! How the Codex CLI is started, from what `where codex` printed, and how a
//! process listing is read.

use vstd::prelude::*;

use crate::text::{
    ascii_lowercase, concat_str, decimal, decimal_string, contains_str, first_nonblank,
    first_nonblank_line, occurs_in, str_eq, to_ascii_lowercase,
};

verus! {

broadcast use vstd::string::group_string_axioms;

/// The program to start for a Codex session, its arguments, and the text
/// shown for it.
#[derive(Debug)]
pub struct CodexLaunchSpec {
    pub program: String,
    pub args: Vec<String>,
    pub display: String,
}

/// The texts of a list of strings.
pub open spec fn texts(v: Seq<String>) -> Seq<Seq<char>> {
    v.map_values(|s: String| s@)
}

/// `"cmd.exe"`.
pub open spec fn cmd_exe() -> Seq<char> {
    seq!['c', 'm', 'd', '.', 'e', 'x', 'e']
}

/// `"/D"`.
pub open spec fn flag_d() -> Seq<char> {
    seq!['/', 'D']
}

/// `"/K"`.
pub open spec fn flag_k() -> Seq<char> {
    seq!['/', 'K']
}

/// `s` in double quotes.
pub open spec fn quoted(s: Seq<char>) -> Seq<char> {
    seq!['"'] + s + seq!['"']
}

/// The extensions of launchers that have to be run by `cmd.exe`:
/// `cmd`, `bat` and `ps1`.
pub open spec fn is_script_extension(ext: Seq<char>) -> bool {
    ||| ext == seq!['c', 'm', 'd']
    ||| ext == seq!['b', 'a', 't']
    ||| ext == seq!['p', 's', '1']
}

/// A launcher with this file extension (`None`: without one) is started
/// through `cmd.exe`; the extension is compared in lower case.
pub open spec fn runs_through_cmd(extension: Option<Seq<char>>) -> bool {
    match extension {
        Some(e) => is_script_extension(ascii_lowercase(e)),
        None => false,
    }
}

/// How the launcher at `launcher` is started: through `cmd.exe /D /K
/// "<launcher>"` when `through_cmd`, directly otherwise; it is shown as
/// `launcher` either way.
pub open spec fn is_launch_of(
    spec: CodexLaunchSpec,
    launcher: Seq<char>,
    through_cmd: bool,
) -> bool {
    &&& spec.display@ == launcher
    &&& if through_cmd {
        &&& spec.program@ == cmd_exe()
        &&& texts(spec.args@) == seq![flag_d(), flag_k(), quoted(launcher)]
    } else {
        &&& spec.program@ == launcher
        &&& spec.args@.len() == 0
    }
}

/// Why the Codex CLI could not be found.
#[derive(Debug)]
pub enum LaunchError {
    /// `where codex` did not succeed.
    NotInstalled,
    /// `where codex` printed no path.
    Unresolved,
}

/// `"codex CLI is not installed or not available in PATH"`.
pub open spec fn not_installed_message() -> Seq<char> {
    seq![
        'c', 'o', 'd', 'e', 'x', ' ', 'C', 'L', 'I', ' ', 'i', 's', ' ', 'n', 'o', 't', ' ', 'i',
        'n', 's', 't', 'a', 'l', 'l', 'e', 'd', ' ', 'o', 'r', ' ', 'n', 'o', 't', ' ', 'a', 'v',
        'a', 'i', 'l', 'a', 'b', 'l', 'e', ' ', 'i', 'n', ' ', 'P', 'A', 'T', 'H',
    ]
}

/// `"codex CLI path could not be resolved"`.
pub open spec fn unresolved_message() -> Seq<char> {
    seq![
        'c', 'o', 'd', 'e', 'x', ' ', 'C', 'L', 'I', ' ', 'p', 'a', 't', 'h', ' ', 'c', 'o', 'u',
        'l', 'd', ' ', 'n', 'o', 't', ' ', 'b', 'e', ' ', 'r', 'e', 's', 'o', 'l', 'v', 'e', 'd',
    ]
}

impl LaunchError {
    /// The message shown for the error.
    pub fn message(&self) -> (r: String)
        ensures
            r@ == match self {
                LaunchError::NotInstalled => not_installed_message(),
                LaunchError::Unresolved => unresolved_message(),
            },
    {
        match self {
            LaunchError::NotInstalled => {
                let m = "codex CLI is not installed or not available in PATH";
                proof {
                    reveal_strlit("codex CLI is not installed or not available in PATH");
                    assert(m@ =~= not_installed_message());
                }
                m.to_owned()
            },
            LaunchError::Unresolved => {
                let m = "codex CLI path could not be resolved";
                proof {
                    reveal_strlit("codex CLI path could not be resolved");
                    assert(m@ =~= unresolved_message());
                }
                m.to_owned()
            },
        }
    }
}

/// A character that separates path components on some platform: `/`
/// everywhere, `\` on Windows as well.
pub open spec fn is_separator(c: char) -> bool {
    c == '/' || c == '\\'
}

/// The position of the last `.` in `p`, or -1.
pub open spec fn last_dot(p: Seq<char>) -> int
    decreases p.len(),
{
    if p.len() == 0 {
        -1
    } else if p.last() == '.' {
        p.len() - 1
    } else {
        last_dot(p.drop_last())
    }
}

/// The extension of `p` where every platform reads it alike: the text after
/// the last `.`, when it is not empty and holds no separator, when the
/// character before the dot is none of `/`, `\` and `:` (so the dot does not
/// begin a component or follow a drive), and when `p` does not begin with two
/// separators (a UNC, device or verbatim prefix on Windows). Otherwise none.
pub open spec fn plain_extension(p: Seq<char>) -> Option<Seq<char>> {
    let i = last_dot(p);
    let e = p.skip(i + 1);
    if i >= 1 && e.len() > 0 && (forall|k: int| 0 <= k < e.len() ==> !is_separator(#[trigger] e[k]))
        && !is_separator(p[i - 1]) && p[i - 1] != ':' && !(p.len() >= 2 && is_separator(p[0])
        && is_separator(p[1])) {
        Some(e)
    } else {
        None
    }
}

/// The extension of the path `p`: `Path::extension`, read as UTF-8 text
/// (`OsStr::to_str`, which cannot fail on a part of a `str`). It is the part
/// of the path's last component after that component's last `.`, and none
/// where the component has no `.` but a leading one. Which characters
/// separate components depends on the platform (on Windows `\` does, and
/// prefixes such as `C:` or `\\server\share` are parsed), so what is stated
/// is what holds on every platform: a path without `.` has no extension;
/// an extension holds no `.` and stands in the path right after a `.`; and
/// where `plain_extension` gives one, it is that one.
#[verifier::external_body]
fn path_extension(p: &str) -> (r: Option<String>)
    ensures
        !p@.contains('.') ==> r is None,
        r matches Some(e) ==> !e@.contains('.'),
        r matches Some(e) ==> occurs_in(seq!['.'] + e@, p@),
        r is Some || plain_extension(p@) is None,
        r is Some ==> plain_extension(p@) is None || r.unwrap()@ == plain_extension(p@).unwrap(),
{
    match std::path::Path::new(p).extension() {
        Some(e) => match e.to_str() {
            Some(t) => Some(t.to_owned()),
            None => None,
        },
        None => None,
    }
}

/// `p`, in lower case, holds `.cmd`, `.bat` or `.ps1` somewhere: a path
/// without any of these has no script extension on any platform.
pub open spec fn names_script(p: Seq<char>) -> bool {
    let l = ascii_lowercase(p);
    ||| occurs_in(seq!['.', 'c', 'm', 'd'], l)
    ||| occurs_in(seq!['.', 'b', 'a', 't'], l)
    ||| occurs_in(seq!['.', 'p', 's', '1'], l)
}

proof fn lemma_lower_occurs(needle: Seq<char>, hay: Seq<char>)
    requires
        occurs_in(needle, hay),
    ensures
        occurs_in(ascii_lowercase(needle), ascii_lowercase(hay)),
{
    let i = choose|i: int|
        0 <= i && i + needle.len() <= hay.len() && #[trigger] hay.subrange(i, i + needle.len())
            == needle;
    assert(ascii_lowercase(hay).subrange(i, i + needle.len()) =~= ascii_lowercase(needle));
}

/// A launcher whose extension is a script's names one.
proof fn lemma_script_named(p: Seq<char>, e: Seq<char>)
    requires
        occurs_in(seq!['.'] + e, p),
        is_script_extension(ascii_lowercase(e)),
    ensures
        names_script(p),
{
    lemma_lower_occurs(seq!['.'] + e, p);
    assert(ascii_lowercase(seq!['.'] + e) =~= seq!['.'] + ascii_lowercase(e));
    let le = ascii_lowercase(e);
    if le == seq!['c', 'm', 'd'] {
        assert(seq!['.'] + le =~= seq!['.', 'c', 'm', 'd']);
    } else if le == seq!['b', 'a', 't'] {
        assert(seq!['.'] + le =~= seq!['.', 'b', 'a', 't']);
    } else {
        assert(seq!['.'] + le =~= seq!['.', 'p', 's', '1']);
    }
}

/// Whether the lower-cased extension `ext` is one of a script.
fn is_script(ext: &str) -> (r: bool)
    ensures
        r == is_script_extension(ext@),
{
    let cmd = "cmd";
    let bat = "bat";
    let ps1 = "ps1";
    proof {
        reveal_strlit("cmd");
        reveal_strlit("bat");
        reveal_strlit("ps1");
        assert(cmd@ =~= seq!['c', 'm', 'd']);
        assert(bat@ =~= seq!['b', 'a', 't']);
        assert(ps1@ =~= seq!['p', 's', '1']);
    }
    str_eq(ext, cmd) || str_eq(ext, bat) || str_eq(ext, ps1)
}

/// How to start the launcher at `launcher`, whose file extension is
/// `extension`: scripts (`cmd`, `bat`, `ps1`, in any case) through
/// `cmd.exe /D /K "<launcher>"`, anything else directly.
pub fn launch_spec_for(launcher: &str, extension: Option<String>) -> (r: CodexLaunchSpec)
    ensures
        is_launch_of(
            r,
            launcher@,
            runs_through_cmd(
                match extension {
                    Some(e) => Some(e@),
                    None => None,
                },
            ),
        ),
{
    let through_cmd = match &extension {
        Some(e) => {
            let lower = to_ascii_lowercase(e.as_str());
            is_script(lower.as_str())
        },
        None => false,
    };
    if through_cmd {
        let program = "cmd.exe";
        let d = "/D";
        let k = "/K";
        let q = "\"";
        proof {
            reveal_strlit("cmd.exe");
            reveal_strlit("/D");
            reveal_strlit("/K");
            reveal_strlit("\"");
            assert(program@ =~= cmd_exe());
            assert(d@ =~= flag_d());
            assert(k@ =~= flag_k());
        }
        let opened = concat_str(q, launcher);
        let quoted_launcher = concat_str(opened.as_str(), q);
        assert(quoted_launcher@ =~= quoted(launcher@));
        let mut args: Vec<String> = Vec::new();
        args.push(d.to_owned());
        args.push(k.to_owned());
        args.push(quoted_launcher);
        let r = CodexLaunchSpec { program: program.to_owned(), args, display: launcher.to_owned() };
        assert(texts(r.args@) =~= seq![flag_d(), flag_k(), quoted(launcher@)]);
        r
    } else {
        CodexLaunchSpec {
            program: launcher.to_owned(),
            args: Vec::new(),
            display: launcher.to_owned(),
        }
    }
}

/// How to start the Codex CLI, from whether `where codex` succeeded and what
/// it printed: the launcher is the first non-blank line, trimmed (see
/// `first_nonblank_line`). Whether it runs through `cmd.exe` goes by its
/// file extension (see `launch_spec_for`), which `path_extension` reads;
/// where the launcher's extension reads alike on every platform (see
/// `plain_extension`), the choice is stated: scripts run through `cmd.exe`;
/// a launcher that names no script extension (see `names_script`), such as
/// one without any `.`, runs directly.
pub fn resolve_codex_launcher(where_succeeded: bool, where_output: &str) -> (r: Result<
    CodexLaunchSpec,
    LaunchError,
>)
    ensures
        !where_succeeded ==> r matches Err(LaunchError::NotInstalled),
        where_succeeded && first_nonblank_line(where_output@) is None ==> r matches Err(
            LaunchError::Unresolved,
        ),
        where_succeeded && first_nonblank_line(where_output@) is Some ==> match r {
            Ok(spec) => is_launch_of(spec, first_nonblank_line(where_output@).unwrap(), true)
                || is_launch_of(spec, first_nonblank_line(where_output@).unwrap(), false),
            Err(_) => false,
        },
        where_succeeded && first_nonblank_line(where_output@) is Some && plain_extension(
            first_nonblank_line(where_output@).unwrap(),
        ) is Some ==> r is Ok && is_launch_of(
            r->Ok_0,
            first_nonblank_line(where_output@).unwrap(),
            is_script_extension(
                ascii_lowercase(plain_extension(first_nonblank_line(where_output@).unwrap()).unwrap()),
            ),
        ),
        where_succeeded && first_nonblank_line(where_output@) is Some && !names_script(
            first_nonblank_line(where_output@).unwrap(),
        ) ==> r is Ok && is_launch_of(r->Ok_0, first_nonblank_line(where_output@).unwrap(), false),
{
    if !where_succeeded {
        return Err(LaunchError::NotInstalled);
    }
    match first_nonblank(where_output) {
        None => Err(LaunchError::Unresolved),
        Some(launcher) => {
            let extension = path_extension(launcher.as_str());
            proof {
                if extension is Some && is_script_extension(ascii_lowercase(extension->0@)) {
                    lemma_script_named(launcher@, extension->0@);
                }
            }
            Ok(launch_spec_for(launcher.as_str(), extension))
        },
    }
}

/// Whether a process listing shows the process `pid`: the listing command
/// succeeded and its output holds the decimal numeral of `pid`.
pub fn process_listed(query_succeeded: bool, output: &str, pid: u32) -> (r: bool)
    ensures
        r == (query_succeeded && occurs_in(decimal(pid as nat), output@)),
{
    if !query_succeeded {
        return false;
    }
    let numeral = decimal_string(pid as u64);
    contains_str(output, numeral.as_str())
}

} // verus!
