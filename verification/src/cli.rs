//! The command line and the pid file.
use crate::config::env::{self, Environment};
use crate::path;
use crate::text;
use vstd::prelude::*;
use vstd::string::StringExecFns;

verus! {

/// What the command line asks for.
#[derive(Debug)]
pub enum Command {
    /// Run the relays.
    Run,
    /// Print the usage.
    Help,
    /// Print the version.
    Version,
    /// Signal the daemon whose pid file is at this path, or at the default path.
    Reload(Option<String>),
    /// An option that there is not.
    Unknown(String),
}

/// What a command line asks for, by its text.
pub enum CommandView {
    Run,
    Help,
    Version,
    Reload(Option<Seq<char>>),
    Unknown(Seq<char>),
}

impl View for Command {
    type V = CommandView;

    open spec fn view(&self) -> CommandView {
        match *self {
            Command::Run => CommandView::Run,
            Command::Help => CommandView::Help,
            Command::Version => CommandView::Version,
            Command::Reload(path) => CommandView::Reload(text::text_of(path)),
            Command::Unknown(option) => CommandView::Unknown(option@),
        }
    }
}

/// What the arguments of a process ask for. The first argument is the name of the program.
pub open spec fn asked_for(args: Seq<Seq<char>>) -> CommandView {
    if args.len() < 2 {
        CommandView::Run
    } else if args[1] == "-h"@ || args[1] == "--help"@ {
        CommandView::Help
    } else if args[1] == "-V"@ || args[1] == "--version"@ {
        CommandView::Version
    } else if args[1] == "-r"@ || args[1] == "--reload"@ {
        if args.len() > 2 && !(args[2].len() > 0 && args[2][0] == '-') {
            CommandView::Reload(Some(args[2]))
        } else {
            CommandView::Reload(None)
        }
    } else {
        CommandView::Unknown(args[1])
    }
}

/// The directory of the pid file.
pub open spec fn pid_directory(vars: Seq<(Seq<char>, Seq<char>)>) -> Seq<char> {
    env::value_or(env::value_of(vars, "NAUTROUDS_PID_DIR"@), "/usr/local/tentacle"@)
}

/// The path of the pid file of a service.
pub open spec fn pid_file(
    vars: Seq<(Seq<char>, Seq<char>)>,
    service_name: Seq<char>,
) -> Seq<char> {
    path::joined(pid_directory(vars), service_name + ".pid"@)
}

/// Reads the arguments of a process.
pub fn parse_args(args: &Vec<String>) -> (r: Command)
    ensures
        r@ == asked_for(text::texts(args@)),
{
    let ghost all = text::texts(args@);
    if args.len() < 2 {
        return Command::Run;
    }
    assert(all[1] == args@[1]@);
    let option = args[1].as_str();
    if text::same(option, "-h") || text::same(option, "--help") {
        return Command::Help;
    }
    if text::same(option, "-V") || text::same(option, "--version") {
        return Command::Version;
    }
    if text::same(option, "-r") || text::same(option, "--reload") {
        if args.len() > 2 {
            assert(all[2] == args@[2]@);
            let v = text::chars(args[2].as_str());
            if !(v.len() > 0 && v[0] == '-') {
                return Command::Reload(Some(args[2].clone()));
            }
        }
        return Command::Reload(None);
    }
    Command::Unknown(args[1].clone())
}

/// The directory of the pid file.
pub fn pid_dir(env: &Environment) -> (r: String)
    ensures
        r@ == pid_directory(env@),
{
    match env::pid_dir_from_env(env) {
        Some(dir) => dir,
        None => "/usr/local/tentacle".to_owned(),
    }
}

/// The path of the pid file of a service.
pub fn pid_file_path(env: &Environment, service_name: &str) -> (r: String)
    ensures
        r@ == pid_file(env@, service_name@),
{
    let name = service_name.to_owned().concat(".pid");
    path::join(pid_dir(env).as_str(), name.as_str())
}

/// The pid file to signal for a reload: the one that was asked for, or else the one of the service
/// that the environment names; `None` where there is neither.
pub fn reload_path(env: &Environment, explicit: Option<String>) -> (r: Option<String>)
    ensures
        text::text_of(r) == (match explicit {
            Some(path) => Some(path@),
            None => match env::first_value(env@, env::service_name_keys()) {
                Some(name) => Some(pid_file(env@, name)),
                None => None,
            },
        }),
{
    if explicit.is_some() {
        return explicit;
    }
    match env::service_name_from_env(env) {
        Some(name) => Some(pid_file_path(env, name.as_str())),
        None => None,
    }
}

/// The process that a pid file names, if it names one.
pub fn parse_pid(contents: &str) -> (r: Option<i32>)
    ensures
        match r {
            Some(pid) => text::signed_32(text::trimmed(contents@)) == Some(pid as int),
            None => text::signed_32(text::trimmed(contents@)) is None,
        },
{
    text::parse_signed_32(text::trim(contents))
}

/// How a reload ends, by its exit code: 0 where the pid file named a process and the signal was
/// delivered to it, 1 otherwise.
pub fn reload_exit_code(pid: Option<i32>, delivered: bool) -> (r: i32)
    ensures
        r == (if pid is Some && delivered {
            0i32
        } else {
            1i32
        }),
{
    if pid.is_some() && delivered {
        0
    } else {
        1
    }
}

/// Whether a pid file names the process `own`. `None` stands for a file that cannot be read.
pub fn is_own_pid_file(contents: Option<String>, own: u32) -> (r: bool)
    ensures
        r == (match contents {
            Some(c) => text::unsigned(text::trimmed(c@), u32::MAX as nat) == Some(own as nat),
            None => false,
        }),
{
    match contents {
        Some(c) => match text::parse_unsigned(text::trim(c.as_str()), u32::MAX as u64) {
            Some(pid) => pid == own as u64,
            None => false,
        },
        None => false,
    }
}

/// The decimal digits of a process id.
pub fn pid_text(pid: u32) -> (r: String)
    ensures
        r@ == text::decimal(pid as nat),
{
    let mut r = String::new();
    text::push_decimal(&mut r, pid);
    r
}

/// A process recognises the pid file that it wrote.
pub proof fn a_written_pid_is_recognised(pid: u32)
    ensures
        text::unsigned(text::trimmed(text::decimal(pid as nat)), u32::MAX as nat) == Some(
            pid as nat,
        ),
{
    let s = text::decimal(pid as nat);
    text::decimal_parses_back(pid as nat);
    assert(text::is_digit(s[0]));
    assert(text::is_digit(s[s.len() - 1]));
    assert(text::trimmed(s) == s);
}

/// The command line: no option runs the relays; each other command has a short and a long option; a
/// path behind the reload option counts unless it looks like an option; any other option is unknown.
pub proof fn options_are_understood(args: Seq<Seq<char>>)
    ensures
        asked_for(args) is Run <==> args.len() < 2,
        args.len() >= 2 ==> {
            let option = args[1];
            &&& asked_for(args) is Help <==> option == "-h"@ || option == "--help"@
            &&& asked_for(args) is Version <==> option == "-V"@ || option == "--version"@
            &&& asked_for(args) is Reload <==> option == "-r"@ || option == "--reload"@
            &&& asked_for(args) is Unknown <==> option != "-h"@ && option != "--help"@ && option
                != "-V"@ && option != "--version"@ && option != "-r"@ && option != "--reload"@
            &&& asked_for(args) matches CommandView::Unknown(o) ==> o == option
            &&& asked_for(args) matches CommandView::Reload(path) ==> (path is Some <==> args.len()
                > 2 && (args[2].len() == 0 || args[2][0] != '-'))
            &&& asked_for(args) matches CommandView::Reload(Some(path)) ==> path == args[2]
        },
{
    reveal_strlit("-h");
    reveal_strlit("--help");
    reveal_strlit("-V");
    reveal_strlit("--version");
    reveal_strlit("-r");
    reveal_strlit("--reload");
    assert("-h"@[1] == 'h' && "-V"@[1] == 'V' && "-r"@[1] == 'r');
    assert("--help"@.len() == 6 && "--version"@.len() == 9 && "--reload"@.len() == 8);
}

/// The pid file of a service is in the directory that the variable names, or else in the default
/// one, under the name of the service with the extension `pid`.
pub proof fn pid_files_are_named_after_the_service(
    vars: Seq<(Seq<char>, Seq<char>)>,
    service_name: Seq<char>,
)
    requires
        !(service_name.len() > 0 && service_name[0] == '/'),
    ensures
        ({
            let dir = match env::value_of(vars, "NAUTROUDS_PID_DIR"@) {
                Some(dir) => dir,
                None => "/usr/local/tentacle"@,
            };
            let file = service_name + ".pid"@;
            let path = pid_file(vars, service_name);
            &&& path.len() >= dir.len() + file.len()
            &&& path.take(dir.len() as int) == dir
            &&& path.skip(path.len() - file.len()) == file
            &&& path == path::joined(dir, file)
        }),
{
    reveal_strlit(".pid");
    let dir = pid_directory(vars);
    let file = service_name + ".pid"@;
    assert(file[0] != '/') by {
        if service_name.len() > 0 {
            assert(file[0] == service_name[0]);
        }
    }
    path::joining_keeps_both(dir, file);
}

/// Pid files of different services in one directory are different.
pub proof fn services_have_their_own_pid_files(
    vars: Seq<(Seq<char>, Seq<char>)>,
    a: Seq<char>,
    b: Seq<char>,
)
    requires
        !(a.len() > 0 && a[0] == '/'),
        !(b.len() > 0 && b[0] == '/'),
        pid_file(vars, a) == pid_file(vars, b),
    ensures
        a == b,
{
    pid_files_are_named_after_the_service(vars, a);
    pid_files_are_named_after_the_service(vars, b);
    reveal_strlit(".pid");
    let dir = pid_directory(vars);
    let f = a + ".pid"@;
    let g = b + ".pid"@;
    path::joining_keeps_both(dir, f);
    path::joining_keeps_both(dir, g);
    assert(f[0] != '/') by {
        if a.len() > 0 {
            assert(f[0] == a[0]);
        }
    }
    assert(g[0] != '/') by {
        if b.len() > 0 {
            assert(g[0] == b[0]);
        }
    }
    assert(f.len() == g.len());
    assert(f == g);
    assert(f.take(a.len() as int) == a);
    assert(g.take(b.len() as int) == b);
}

/// A pid is read from a pid file whatever white space surrounds it, and only the pid that was
/// written is recognised as one's own.
pub proof fn pids_are_read_back(pid: u32, other: u32, before: Seq<char>, after: Seq<char>)
    requires
        forall|i: int| 0 <= i < before.len() ==> text::is_white_space(#[trigger] before[i]),
        forall|i: int| 0 <= i < after.len() ==> text::is_white_space(#[trigger] after[i]),
    ensures
        ({
            let contents = before + text::decimal(pid as nat) + after;
            &&& text::trimmed(contents) == text::decimal(pid as nat)
            &&& text::unsigned(text::trimmed(contents), u32::MAX as nat) == Some(other as nat)
                <==> other == pid
            &&& pid <= i32::MAX ==> text::signed_32(text::trimmed(contents)) == Some(pid as int)
        }),
{
    let d = text::decimal(pid as nat);
    text::decimal_parses_back(pid as nat);
    assert(text::is_digit(d[0]));
    assert(text::is_digit(d[d.len() - 1]));
    surrounding_white_space_goes(before, d, after);
    text::unsigned_numbers_are_read(pid as nat, u32::MAX as nat, seq!['x'], 0);
    text::signed_numbers_are_read(pid as nat);
}

proof fn surrounding_white_space_goes(before: Seq<char>, d: Seq<char>, after: Seq<char>)
    requires
        forall|i: int| 0 <= i < before.len() ==> text::is_white_space(#[trigger] before[i]),
        forall|i: int| 0 <= i < after.len() ==> text::is_white_space(#[trigger] after[i]),
        d.len() > 0,
        !text::is_white_space(d[0]),
        !text::is_white_space(d.last()),
    ensures
        text::trimmed(before + d + after) == d,
{
    let s = before + d + after;
    let (i, j) = text::trimming_cuts_white_space_only(s);
    let b = before.len() as int;
    let e = b + d.len();
    assert(s[b] == d[0]);
    assert(s[e - 1] == d.last());
    assert(i <= b);
    assert(j >= e);
    if i < b {
        assert(s[i] == before[i]);
    }
    if j > e {
        assert(s[j - 1] == after[j - 1 - e]);
    }
    assert(s.subrange(b, e) =~= d);
}

} // verus!
