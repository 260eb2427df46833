//! What processes are given when they start.
use vstd::prelude::*;

use crate::command::displayed;
use crate::environment::{effective_env, SurroundingsView};
use crate::laws::texts::{blank, law_blanks_are_trimmed};
use crate::platform::{cmd_quoted, kept_entries, lsof, path_entries, unix, windows, Platform};
use crate::text::{decimal, is_space, joined, lower, lower_char, split, upper_char};

verus! {

/// A process without a `PATH` of its own gets the default one of the system; with one it gets
/// nothing.
pub proof fn law_path_is_given(
    env: Map<Seq<char>, Seq<char>>,
    platform: Platform,
    around: SurroundingsView,
)
    ensures
        env.contains_key("PATH"@) ==> effective_env(env, platform, around) == env,
        !env.contains_key("PATH"@) ==> effective_env(env, platform, around) == env.insert(
            "PATH"@,
            effective_env(env, platform, around)["PATH"@],
        ),
        !env.contains_key("PATH"@) && platform == Platform::Unix ==> effective_env(
            env,
            platform,
            around,
        )["PATH"@] == joined(
            unix::deduped(
                unix::default_paths(
                    around.path,
                    if around.home is Some {
                        around.home
                    } else {
                        around.user_profile
                    },
                ),
            ),
            seq![':'],
        ),
        !env.contains_key("PATH"@) && platform == Platform::Windows ==> effective_env(
            env,
            platform,
            around,
        )["PATH"@] == joined(
            windows::deduped(
                windows::default_paths(
                    around.path,
                    if around.home is Some {
                        around.home
                    } else {
                        around.user_profile
                    },
                    around.local_app_data,
                ),
            ),
            seq![';'],
        ),
{
}

/// The default folders come in a fixed order: that of Herd in the home directory, those of the
/// system, and then what was inherited.
pub proof fn law_folders_in_order(inherited: Option<Seq<char>>, home: Option<Seq<char>>)
    ensures
        ({
            let system = seq![
                "/opt/homebrew/bin"@,
                "/usr/local/bin"@,
                "/usr/bin"@,
                "/bin"@,
                "/usr/sbin"@,
                "/sbin"@,
            ];
            let rest = match inherited {
                Some(path) => path_entries(path, ':'),
                None => Seq::empty(),
            };
            match home {
                Some(home) => unix::default_paths(inherited, Some(home)) == seq![
                    home + "/Library/Application Support/Herd/bin"@,
                ] + system + rest,
                None => unix::default_paths(inherited, None) == system + rest,
            }
        }),
{
    let all = unix::default_paths(inherited, home);
    assert(Seq::<Seq<char>>::empty() + unix::standard_paths() =~= unix::standard_paths());
}

/// On Windows the folder of Herd in the local data comes first, or else in the home directory, and
/// then what was inherited.
pub proof fn law_windows_folders_in_order(
    inherited: Option<Seq<char>>,
    home: Option<Seq<char>>,
    data: Option<Seq<char>>,
)
    ensures
        ({
            let rest = match inherited {
                Some(path) => path_entries(path, ';'),
                None => Seq::empty(),
            };
            let all = windows::default_paths(inherited, home, data);
            &&& data is Some ==> all == seq![data->0 + "\\Herd\\bin"@] + rest
            &&& data is None && home is Some ==> all == seq![home->0 + "\\Herd\\bin"@] + rest
            &&& data is None && home is None ==> all == rest
        }),
{
    if data is None && home is None {
        let all = windows::default_paths(inherited, home, data);
        let rest = match inherited {
            Some(path) => path_entries(path, ';'),
            None => Seq::empty(),
        };
        assert(all =~= rest);
    }
}

/// Of folders that occur again the first stays, and only it: by their letters, or on Windows by
/// their letters in either case.
pub proof fn law_first_folder_stays(paths: Seq<Seq<char>>, path: Seq<char>)
    ensures
        unix::deduped(Seq::empty()).len() == 0,
        windows::deduped(Seq::empty()).len() == 0,
        (exists|i: int| 0 <= i < paths.len() && #[trigger] paths[i] == path) ==> unix::deduped(
            paths.push(path),
        ) == unix::deduped(paths),
        (forall|i: int| 0 <= i < paths.len() ==> #[trigger] paths[i] != path) ==> unix::deduped(
            paths.push(path),
        ) == unix::deduped(paths).push(path),
        (exists|i: int| 0 <= i < paths.len() && lower(#[trigger] paths[i]) == lower(path))
            ==> windows::deduped(paths.push(path)) == windows::deduped(paths),
        (forall|i: int| 0 <= i < paths.len() ==> lower(#[trigger] paths[i]) != lower(path))
            ==> windows::deduped(paths.push(path)) == windows::deduped(paths).push(path),
{
    assert(paths.push(path).drop_last() =~= paths);
    if exists|i: int| 0 <= i < paths.len() && #[trigger] paths[i] == path {
        let i = choose|i: int| 0 <= i < paths.len() && #[trigger] paths[i] == path;
        assert(paths.contains(path));
    }
    if windows::occurs(paths, path) {
        let i = choose|i: int| 0 <= i < paths.len() && lower(#[trigger] paths[i]) == lower(path);
        assert(lower(paths[i]) == lower(path));
    }
}

/// Capitals and small letters answer each other; other characters stay.
pub proof fn law_letters_in_either_case(c: char)
    ensures
        'A' <= c <= 'Z' ==> lower_char(c) as u32 == c as u32 + 32 && upper_char(c) == c,
        'a' <= c <= 'z' ==> upper_char(c) as u32 == c as u32 - 32 && lower_char(c) == c,
        !('A' <= c <= 'Z') ==> lower_char(c) == c,
        !('a' <= c <= 'z') ==> upper_char(c) == c,
{
}

/// The entries of a path are its pieces without the blanks around them, but for those that are
/// blank.
pub proof fn law_entries_one_by_one(
    pieces: Seq<Seq<char>>,
    a: Seq<char>,
    entry: Seq<char>,
    b: Seq<char>,
)
    requires
        blank(a),
        blank(b),
        entry.len() > 0 ==> !is_space(entry[0]) && !is_space(entry.last()),
    ensures
        kept_entries(Seq::empty()).len() == 0,
        kept_entries(pieces.push(a + entry + b)) == (if entry.len() > 0 {
            kept_entries(pieces).push(entry)
        } else {
            kept_entries(pieces)
        }),
{
    law_blanks_are_trimmed(a, entry, b);
    assert(pieces.push(a + entry + b).drop_last() =~= pieces);
}

/// A path is taken apart at its separators.
pub proof fn law_entries_of_a_path(path: Seq<char>, separator: char)
    ensures
        path_entries(path, separator) == kept_entries(split(path, separator)),
{
}

/// A command that a shell runs replaces the shell, on Unix; on Windows the command processor runs
/// it.
pub proof fn law_commands_in_a_shell(comspec: Option<Seq<char>>, tokens: Seq<Seq<char>>)
    ensures
        unix::shell_line(tokens).program == "/bin/zsh"@,
        unix::shell_line(tokens).args == seq!["-lc"@, "exec "@ + displayed(tokens)],
        comspec is Some ==> windows::shell_line(comspec, tokens).program == comspec->0,
        comspec is None ==> windows::shell_line(comspec, tokens).program == "cmd.exe"@,
        windows::shell_line(comspec, tokens).args.len() == 2,
        windows::shell_line(comspec, tokens).args[0] == "/C"@,
        windows::shell_line(comspec, tokens).args[1] == joined(
            Seq::new(tokens.len(), |i: int| cmd_quoted(tokens[i])),
            seq![' '],
        ),
{
    assert(tokens.map_values(|token: Seq<char>| cmd_quoted(token)) =~= Seq::new(
        tokens.len(),
        |i: int| cmd_quoted(tokens[i]),
    ));
}

/// A word needs quotes for the command processor exactly if it is empty or holds a blank or a
/// character that means something there; a quote in it is doubled.
pub proof fn law_quoting_for_windows(token: Seq<char>, c: char)
    ensures
        ({
            let special = |c: char|
                is_space(c) || c == '&' || c == '|' || c == '<' || c == '>' || c == '^' || c == '('
                    || c == ')' || c == '"';
            let doubled = |s: Seq<char>| crate::text::replaced(s, '"', seq!['"', '"']);
            &&& token.len() > 0 && (forall|i: int|
                0 <= i < token.len() ==> !special(#[trigger] token[i])) ==> cmd_quoted(token)
                == token
            &&& token.len() == 0 || (exists|i: int|
                0 <= i < token.len() && special(#[trigger] token[i])) ==> cmd_quoted(token) == seq![
                '"',
            ] + doubled(token) + seq!['"']
            &&& doubled(Seq::empty()).len() == 0
            &&& doubled(token.push(c)) == doubled(token) + (if c == '"' {
                seq!['"', '"']
            } else {
                seq![c]
            })
        }),
{
    let special = |c: char|
        is_space(c) || c == '&' || c == '|' || c == '<' || c == '>' || c == '^' || c == '(' || c
            == ')' || c == '"';
    assert(token.push(c).drop_last() =~= token);
    let before = crate::text::replaced(token, '"', seq!['"', '"']);
    assert(before + seq![c] =~= before.push(c));
    assert forall|d: char| special(d) == crate::platform::is_special(d) by {
    }
    if exists|i: int| 0 <= i < token.len() && special(#[trigger] token[i]) {
        let i = choose|i: int| 0 <= i < token.len() && special(#[trigger] token[i]);
        assert(crate::platform::is_special(token[i]));
    }
    if forall|i: int| 0 <= i < token.len() ==> !special(#[trigger] token[i]) {
        assert forall|i: int| 0 <= i < token.len() implies !crate::platform::is_special(
            #[trigger] token[i],
        ) by {
            assert(!special(token[i]));
        }
    }
}

/// What the system is asked about all processes: the columns come in the order in which they are
/// read.
pub proof fn law_questions_about_all(pids: Seq<u32>)
    ensures
        unix::list_line().program == "ps"@,
        unix::list_line().args == seq![
            "-ax"@,
            "-o"@,
            "pid="@,
            "-o"@,
            "pgid="@,
            "-o"@,
            "user="@,
            "-o"@,
            "rss="@,
            "-o"@,
            "pcpu="@,
            "-o"@,
            "etime="@,
            "-o"@,
            "stat="@,
            "-o"@,
            "lstart="@,
            "-o"@,
            "command="@,
        ],
        unix::group_list_line().program == "ps"@,
        unix::group_list_line().args == seq![
            "-ax"@,
            "-o"@,
            "pid="@,
            "-o"@,
            "pgid="@,
            "-o"@,
            "stat="@,
        ],
        lsof::all_cwds_line().program == "lsof"@,
        lsof::all_cwds_line().args == seq!["-d"@, "cwd"@, "-Fpn"@],
        lsof::ports_line(pids).program == "lsof"@,
        lsof::ports_line(pids).args == seq![
            "-iTCP"@,
            "-sTCP:LISTEN"@,
            "-P"@,
            "-n"@,
            "-Fpn"@,
            "-p"@,
            joined(Seq::new(pids.len(), |i: int| decimal(pids[i] as nat)), seq![',']),
        ],
{
    assert(pids.map_values(|pid: u32| decimal(pid as nat)) =~= Seq::new(
        pids.len(),
        |i: int| decimal(pids[i] as nat),
    ));
}

/// A file is shown where it lies, with the separators of Windows.
pub proof fn law_showing_a_file(path: Seq<char>, c: char)
    ensures
        windows::select_argument(Seq::empty()) == "/select,"@,
        windows::select_argument(path.push(c)) == windows::select_argument(path).push(
            if c == '/' {
                '\\'
            } else {
                c
            },
        ),
{
    assert(path.push(c).drop_last() =~= path);
    let before = crate::text::replaced(path, '/', seq!['\\']);
    assert("/select,"@ + Seq::<char>::empty() =~= "/select,"@);
    assert(before + seq!['\\'] =~= before.push('\\'));
    assert(windows::select_argument(path.push(c)) =~= windows::select_argument(path).push(
        if c == '/' {
            '\\'
        } else {
            c
        },
    ));
}

/// What the system is asked about one process names that process, and about a port that port.
pub proof fn law_questions_name_their_subject(pid: u32, port: u16, force: bool)
    ensures
        unix::process_info_line(pid).program == "ps"@,
        unix::process_info_line(pid).args == seq![
            "-o"@,
            "pgid="@,
            "-o"@,
            "stat="@,
            "-p"@,
            decimal(pid as nat),
        ],
        unix::metrics_line(pid).program == "ps"@,
        unix::metrics_line(pid).args == seq!["-o"@, "rss=,pcpu="@, "-p"@, decimal(pid as nat)],
        lsof::cwd_line(pid).program == "lsof"@,
        lsof::cwd_line(pid).args == seq![
            "-a"@,
            "-p"@,
            decimal(pid as nat),
            "-d"@,
            "cwd"@,
            "-Fn"@,
        ],
        lsof::listener_line(port).program == "lsof"@,
        lsof::listener_line(port).args == seq![
            "-iTCP:"@ + decimal(port as nat),
            "-sTCP:LISTEN"@,
            "-P"@,
            "-n"@,
            "-Fpcg"@,
        ],
        windows::process_line(pid).program == "tasklist"@,
        windows::process_line(pid).args == seq![
            "/FI"@,
            "PID eq "@ + decimal(pid as nat),
            "/NH"@,
            "/FO"@,
            "CSV"@,
        ],
        windows::taskkill_line(pid, force).program == "taskkill"@,
        windows::taskkill_line(pid, force).args == (if force {
            seq!["/PID"@, decimal(pid as nat), "/T"@, "/F"@]
        } else {
            seq!["/PID"@, decimal(pid as nat), "/T"@]
        }),
{
    assert(seq!["/PID"@, decimal(pid as nat), "/T"@].push("/F"@) =~= seq![
        "/PID"@,
        decimal(pid as nat),
        "/T"@,
        "/F"@,
    ]);
}

} // verus!
