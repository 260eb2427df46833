//! How launchd is asked and believed.
use vstd::prelude::*;

use crate::clock::Timestamp;
use crate::laws::frames::shows;
use crate::laws::texts::{blank, law_blanks_are_trimmed, law_numbers_read_back, law_one_piece};
use crate::launchd::{
    action_args, domain_of, is_safe_char, is_safe_token, kickstart_error, line_pid, listed_pid,
    observed_state, shell_request, supervised, target_of, tokens_safe, unsafe_service,
    LaunchdAction, LaunchdStateView,
};
use crate::models::{
    CommandOutputView, ConfigView, HealthStatus, LaunchdSupervisionView, LogLevel,
    ProcessDefinitionView, ProcessRuntimeStateView, ProcessStatus,
};
use crate::paths::lemma_split_concat;
use crate::runtime::{EffectView, RuntimeEvent, RuntimeView, StampView};
use crate::text::{
    decimal, has_prefix, is_digit, is_space, joined, lemma_decimal_digits, lines, split, trimmed,
    without_trailing,
};

verus! {

/// A service is addressed in its domain, without the blanks around it, or else in that of the
/// first user.
pub proof fn law_where_a_service_is(
    sup: LaunchdSupervisionView,
    a: Seq<char>,
    domain: Seq<char>,
    b: Seq<char>,
)
    requires
        blank(a),
        blank(b),
        domain.len() > 0 ==> !is_space(domain[0]) && !is_space(domain.last()),
    ensures
        sup.domain is None ==> target_of(sup) == "gui/501/"@ + sup.label,
        sup.domain == Some(a + domain + b) && domain.len() == 0 ==> target_of(sup) == "gui/501/"@
            + sup.label,
        sup.domain == Some(a + domain + b) && domain.len() > 0 ==> target_of(sup) == domain + "/"@
            + sup.label,
{
    law_blanks_are_trimmed(a, domain, b);
    reveal_strlit("gui/501");
    reveal_strlit("/");
    reveal_strlit("gui/501/");
    assert("gui/501"@ + "/"@ =~= "gui/501/"@);
}

/// A label or a domain is safe exactly if it is not empty and holds only letters, digits, dots,
/// dashes, underscores and slashes.
pub proof fn law_safe_tokens(token: Seq<char>)
    ensures
        is_safe_token(token) <==> token.len() > 0 && forall|i: int|
            0 <= i < token.len() ==> {
                let c = #[trigger] token[i];
                ('a' <= c <= 'z') || ('A' <= c <= 'Z') || ('0' <= c <= '9') || c == '.' || c == '-'
                    || c == '_' || c == '/'
            },
{
    if is_safe_token(token) {
        assert forall|i: int| 0 <= i < token.len() implies {
            let c = #[trigger] token[i];
            ('a' <= c <= 'z') || ('A' <= c <= 'Z') || ('0' <= c <= '9') || c == '.' || c == '-'
                || c == '_' || c == '/'
        } by {
            assert(is_safe_char(token[i]));
        }
    }
}

/// A service may be named on another machine exactly if its label and its domain are safe.
pub proof fn law_safe_services(sup: LaunchdSupervisionView)
    ensures
        tokens_safe(sup) <==> is_safe_token(sup.label) && is_safe_token(domain_of(sup)),
{
}

/// What launchd is asked, word by word and as one line.
pub proof fn law_what_launchd_is_asked(sup: LaunchdSupervisionView)
    ensures
        action_args(LaunchdAction::List, sup) == seq!["list"@, sup.label],
        action_args(LaunchdAction::Enable, sup) == seq!["enable"@, target_of(sup)],
        action_args(LaunchdAction::Kickstart, sup) == seq!["kickstart"@, target_of(sup)],
        action_args(LaunchdAction::Restart, sup) == seq!["kickstart"@, "-k"@, target_of(sup)],
        action_args(LaunchdAction::Terminate, sup) == seq!["kill"@, "SIGTERM"@, target_of(sup)],
        shell_request(LaunchdAction::List, sup) == "launchctl list "@ + sup.label,
        shell_request(LaunchdAction::Enable, sup) == "launchctl enable "@ + target_of(sup),
        shell_request(LaunchdAction::Kickstart, sup) == "launchctl kickstart "@ + target_of(sup),
        shell_request(LaunchdAction::Restart, sup) == "launchctl kickstart -k "@ + target_of(sup),
        shell_request(LaunchdAction::Terminate, sup) == "launchctl kill SIGTERM "@ + target_of(
            sup,
        ),
{
    reveal_strlit("launchctl ");
    reveal_strlit("list");
    reveal_strlit("enable");
    reveal_strlit("kickstart");
    reveal_strlit("-k");
    reveal_strlit("kill");
    reveal_strlit("SIGTERM");
    reveal_strlit("launchctl list ");
    reveal_strlit("launchctl enable ");
    reveal_strlit("launchctl kickstart ");
    reveal_strlit("launchctl kickstart -k ");
    reveal_strlit("launchctl kill SIGTERM ");
    lemma_two_joined("list"@, sup.label);
    lemma_two_joined("enable"@, target_of(sup));
    lemma_two_joined("kickstart"@, target_of(sup));
    lemma_three_joined("kickstart"@, "-k"@, target_of(sup));
    lemma_three_joined("kill"@, "SIGTERM"@, target_of(sup));
    assert(shell_request(LaunchdAction::List, sup) =~= "launchctl list "@ + sup.label);
    assert(shell_request(LaunchdAction::Enable, sup) =~= "launchctl enable "@ + target_of(sup));
    assert(shell_request(LaunchdAction::Kickstart, sup) =~= "launchctl kickstart "@ + target_of(
        sup,
    ));
    assert(shell_request(LaunchdAction::Restart, sup) =~= "launchctl kickstart -k "@ + target_of(
        sup,
    ));
    assert(shell_request(LaunchdAction::Terminate, sup) =~= "launchctl kill SIGTERM "@ + target_of(
        sup,
    ));
}

proof fn lemma_two_joined(a: Seq<char>, b: Seq<char>)
    ensures
        joined(seq![a, b], seq![' ']) == a + seq![' '] + b,
{
    reveal_with_fuel(joined, 3);
    assert(seq![a, b].drop_last() =~= seq![a]);
}

proof fn lemma_three_joined(a: Seq<char>, b: Seq<char>, c: Seq<char>)
    ensures
        joined(seq![a, b, c], seq![' ']) == a + seq![' '] + b + seq![' '] + c,
{
    lemma_two_joined(a, b);
    assert(seq![a, b, c].drop_last() =~= seq![a, b]);
}

/// A line with the number of a process, as launchd lists it, gives the number.
pub proof fn law_listed_numbers_read_back(pid: u32)
    ensures
        line_pid("\"PID\" = "@ + decimal(pid as nat) + ";"@) == Some(pid),
{
    let number = decimal(pid as nat);
    let line = "\"PID\" = "@ + number + ";"@;
    reveal_strlit("\"PID\" = ");
    reveal_strlit(";");
    lemma_decimal_digits(pid as nat);
    let front = seq!['"', 'P', 'I', 'D', '"', ' '];
    let back = seq![' '] + number + seq![';'];
    assert(line =~= front.push('=') + back);
    lemma_split_concat(front, '=', back);
    assert forall|i: int| 0 <= i < back.len() implies #[trigger] back[i] != '=' by {
        if 1 <= i < 1 + number.len() {
            assert(is_digit(number[i - 1]));
        }
    }
    law_one_piece(front, '=');
    law_one_piece(back, '=');
    let pieces = split(line, '=');
    assert(pieces == seq![front] + seq![back]);
    assert(pieces[1] == back);
    assert(is_digit(number[0]) && is_digit(number[number.len() - 1]));
    law_blanks_are_trimmed(seq![' '], number + seq![';'], Seq::empty());
    assert(seq![' '] + (number + seq![';']) + Seq::<char>::empty() =~= back);
    let bare = number + seq![';'];
    assert(trimmed(back) == bare);
    assert(bare.drop_last() =~= number);
    assert(without_trailing(bare, ';') == without_trailing(number, ';'));
    assert(without_trailing(number, ';') == number);
    law_blanks_are_trimmed(Seq::empty(), number, Seq::empty());
    assert(Seq::<char>::empty() + number + Seq::<char>::empty() =~= number);
    law_numbers_read_back(pid as nat, u32::MAX as nat);
}

/// The first line that speaks of a number decides, and other lines do not matter.
pub proof fn law_first_number_line_decides(line: Seq<char>, rest: Seq<Seq<char>>)
    ensures
        listed_pid(Seq::empty()) is None,
        listed_pid(seq![line] + rest) == (if has_prefix(trimmed(line), "\"PID\""@) {
            line_pid(trimmed(line))
        } else {
            listed_pid(rest)
        }),
{
    assert((seq![line] + rest).skip(1) =~= rest);
}

/// A service that launchd lists with a number runs; one that it lists without has stopped; one
/// that it does not list is not loaded; and where launchd cannot be asked nobody knows.
pub proof fn law_what_launchd_says(reply: Result<CommandOutputView, Seq<char>>)
    ensures
        match (reply, observed_state(reply)) {
            (Err(error), state) => state == LaunchdStateView::Unknown(error),
            (Ok(output), state) => if !output.success {
                state is NotLoaded
            } else if listed_pid(lines(output.stdout)) is Some {
                state == LaunchdStateView::Running(listed_pid(lines(output.stdout))->0)
            } else {
                state is Stopped
            },
        },
{
}

/// A process that launchd supervises runs under the number that launchd says, since the first
/// time that was seen; it has stopped where launchd says so or does not know it; and where nobody
/// knows, its state stays. Whoever listens is told only of news.
pub proof fn law_launchd_is_believed(
    rt: RuntimeView,
    config: ConfigView,
    process: ProcessDefinitionView,
    observed: LaunchdStateView,
    now: Timestamp,
    stamp: StampView,
)
    requires
        rt.state_of(process.id).process_id == process.id,
    ensures
        ({
            let before = rt.state_of(process.id);
            let after = rt.with_reconciled(config, process, observed, now, stamp);
            let state = after.states[process.id];
            &&& after.pids == rt.pids && after.process_records == rt.process_records
            &&& match observed {
                LaunchdStateView::Running(pid) => if before.current_status
                    == ProcessStatus::Running && before.pid == Some(pid) {
                    after == rt
                } else {
                    &&& after.states == rt.states.insert(process.id, state)
                    &&& state.current_status == ProcessStatus::Running
                    &&& state.pid == Some(pid)
                    &&& state.stopped_at is None && state.exit_code is None
                    &&& state.last_error is None
                    &&& before.started_at is Some ==> state.started_at == before.started_at
                    &&& before.started_at is None ==> state.started_at == Some(now)
                    &&& state == (ProcessRuntimeStateView {
                        current_status: state.current_status,
                        pid: state.pid,
                        stopped_at: state.stopped_at,
                        exit_code: state.exit_code,
                        last_error: state.last_error,
                        started_at: state.started_at,
                        ..before
                    })
                    &&& after.effects == rt.effects.push(
                        EffectView::Emit { event: RuntimeEvent::Started, runtime: state },
                    )
                },
                LaunchdStateView::Unknown(error) => {
                    &&& after.states == rt.states
                    &&& after.effects.len() == rt.effects.len() + 1
                    &&& shows(
                        after,
                        rt.effects.len() as int,
                        process,
                        LogLevel::Debug,
                        "launchd status lookup failed (keeping last status): "@ + error,
                    )
                },
                _ => if before.current_status == ProcessStatus::Stopped && before.pid is None {
                    after == rt
                } else {
                    &&& after.states == rt.states.insert(process.id, state)
                    &&& state.current_status == ProcessStatus::Stopped
                    &&& state.pid is None
                    &&& state.memory_usage is None
                    &&& state.health_status == Some(HealthStatus::Unknown)
                    &&& state == (ProcessRuntimeStateView {
                        current_status: state.current_status,
                        pid: state.pid,
                        memory_usage: state.memory_usage,
                        health_status: state.health_status,
                        ..before
                    })
                    &&& after.effects == rt.effects.push(
                        EffectView::Emit { event: RuntimeEvent::Stopped, runtime: state },
                    )
                },
            }
        }),
{
}

/// The answer to a question about a supervised process is what launchd says of it, or what was
/// known where nobody knows.
pub proof fn law_answer_about_a_service(
    rt: RuntimeView,
    process: ProcessDefinitionView,
    observed: LaunchdStateView,
    now: Timestamp,
)
    ensures
        ({
            let before = rt.state_of(process.id);
            let answer = rt.reconciled_state(process, observed, now);
            &&& answer.process_id == before.process_id
            &&& answer.restart_count == before.restart_count
            &&& match observed {
                LaunchdStateView::Running(pid) => {
                    &&& answer.current_status == ProcessStatus::Running
                    &&& answer.pid == Some(pid)
                    &&& answer.stopped_at is None && answer.exit_code is None
                    &&& answer.last_error is None
                    &&& answer.started_at is Some
                    &&& before.started_at is Some ==> answer.started_at == before.started_at
                    &&& before.started_at is None ==> answer.started_at == Some(now)
                    &&& answer.memory_usage == before.memory_usage
                },
                LaunchdStateView::Unknown(_) => answer == before,
                _ => answer.current_status == ProcessStatus::Stopped && answer.pid is None
                    && answer == (ProcessRuntimeStateView {
                    current_status: answer.current_status,
                    pid: answer.pid,
                    memory_usage: answer.memory_usage,
                    health_status: answer.health_status,
                    ..before
                }),
            }
        }),
{
}

/// What launchd was asked to start is told, as a warning where it failed, with its complaint
/// where it has one; where it could not be asked, that is the answer and nothing is told.
pub proof fn law_kickstart_is_told(
    rt: RuntimeView,
    config: ConfigView,
    process: ProcessDefinitionView,
    sup: LaunchdSupervisionView,
    restart: bool,
    reply: Result<CommandOutputView, Seq<char>>,
    a: StampView,
    b: StampView,
)
    ensures
        ({
            let after = rt.with_kickstart(config, process, sup, restart, reply, a, b);
            let n = rt.effects.len() as int;
            let request = if restart {
                "launchctl kickstart -k "@ + target_of(sup)
            } else {
                "launchctl kickstart "@ + target_of(sup)
            };
            &&& after.states == rt.states && after.pids == rt.pids
            &&& match reply {
                Err(_) => after == rt,
                Ok(output) => {
                    &&& output.success ==> shows(after, n, process, LogLevel::Info, request)
                    &&& !output.success ==> shows(after, n, process, LogLevel::Warn, request)
                    &&& output.success || trimmed(output.stderr).len() == 0
                        ==> after.effects.len() == n + 1
                    &&& !output.success && trimmed(output.stderr).len() > 0 ==> after.effects.len()
                        == n + 2 && shows(
                        after,
                        n + 1,
                        process,
                        LogLevel::Warn,
                        "launchctl stderr: "@ + trimmed(output.stderr),
                    )
                },
            }
            &&& reply matches Err(error) ==> {
                let told = kickstart_error(restart, error);
                &&& told.code == "LAUNCHCTL_FAILED"@
                &&& told.details == Some(error)
                &&& told.recoverable
                &&& restart ==> told.message == "launchctl kickstart -k failed"@
                &&& !restart ==> told.message == "launchctl kickstart failed"@
            }
        }),
{
    reveal_strlit("launchctl kickstart -k");
    reveal_strlit("launchctl kickstart");
    reveal_strlit("launchctl kickstart -k ");
    reveal_strlit("launchctl kickstart ");
    reveal_strlit(" ");
    reveal_strlit(" failed");
    reveal_strlit("launchctl kickstart -k failed");
    reveal_strlit("launchctl kickstart failed");
    assert("launchctl kickstart -k"@ + " "@ =~= "launchctl kickstart -k "@);
    assert("launchctl kickstart"@ + " "@ =~= "launchctl kickstart "@);
    assert("launchctl kickstart -k"@ + " failed"@ =~= "launchctl kickstart -k failed"@);
    assert("launchctl kickstart"@ + " failed"@ =~= "launchctl kickstart failed"@);
}

/// A service that was asked to end is told of, and nothing else happens.
pub proof fn law_end_asked_of_a_service(
    rt: RuntimeView,
    config: ConfigView,
    process: ProcessDefinitionView,
    sup: LaunchdSupervisionView,
    stamp: StampView,
)
    ensures
        ({
            let after = rt.with_terminate(config, process, sup, stamp);
            &&& after.effects.len() == rt.effects.len() + 1
            &&& shows(
                after,
                rt.effects.len() as int,
                process,
                LogLevel::Info,
                "launchctl kill SIGTERM "@ + target_of(sup)
                    + " (launchd KeepAlive may relaunch it)"@,
            )
            &&& after.states == rt.states && after.process_records == rt.process_records
            &&& unsafe_service().code == "INVALID_LAUNCHD"@ && !unsafe_service().recoverable
        }),
{
}

/// One more process is supervised exactly if launchd is configured for it.
pub proof fn law_who_is_supervised(config: ConfigView, process: ProcessDefinitionView)
    ensures
        supervised(ConfigView { processes: Seq::empty(), ..config }).len() == 0,
        supervised(ConfigView { processes: config.processes.push(process), ..config }) == (
        if process.launchd is Some {
            supervised(config).push(process)
        } else {
            supervised(config)
        }),
{
    assert(config.processes.push(process).drop_last() =~= config.processes);
}

} // verus!
