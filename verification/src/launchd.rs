//! Processes that launchd supervises, on this machine or on another one. The orchestrator never
//! starts such a process itself: it asks `launchctl` to, and reads the status back.
use vstd::prelude::*;

use crate::clock::Timestamp;
use crate::lookup::kept_where;
use crate::models::{
    ApiError, ApiErrorView, CommandLine, CommandOutput, CommandOutputView, Config, ConfigView,
    Duplicate, HealthStatus, LaunchdSupervision, LaunchdSupervisionView, LogLevel,
    ProcessDefinition, ProcessDefinitionView, ProcessRuntimeState, ProcessRuntimeStateView,
    ProcessStatus,
};
use crate::platform::command_of;
use crate::runtime::{Runtime, RuntimeEvent, RuntimeView, Stamp, StampView};
use crate::text::{
    chars_of, concat, concat3, has_prefix, is_alphanumeric, is_ascii_alphanumeric, join, joined,
    lines, parse_u32, parse_uint, split, split_char, split_lines, starts_with, texts, trim,
    trim_end_char, trimmed, without_trailing,
};

verus! {

/// The pause between two looks at what launchd supervises.
pub const LAUNCHD_MONITOR_INTERVAL_SECS: u64 = 15;

/// The pause before the first look.
pub const LAUNCHD_MONITOR_DELAY_SECS: u64 = 5;

/// The pause after a request before the status is read back.
pub const LAUNCHD_SETTLE_MS: u64 = 600;

/// The pause after a restart before the status is read back.
pub const LAUNCHD_RESTART_SETTLE_MS: u64 = 800;

// ---------------------------------------------------------------------------
// Targets
// ---------------------------------------------------------------------------

/// The domain of a service; where none is given, that of the first user.
pub open spec fn domain_of(sup: LaunchdSupervisionView) -> Seq<char> {
    match sup.domain {
        Some(domain) if trimmed(domain).len() > 0 => trimmed(domain),
        _ => "gui/501"@,
    }
}

/// What a service is called in requests.
pub open spec fn target_of(sup: LaunchdSupervisionView) -> Seq<char> {
    domain_of(sup) + "/"@ + sup.label
}

/// The domain of a service.
pub fn launchd_domain(sup: &LaunchdSupervision) -> (r: String)
    ensures
        r@ == domain_of(sup.deep_view()),
{
    if let Some(domain) = &sup.domain {
        let kept = trim(domain.as_str());
        if !kept.as_str().is_empty() {
            return kept;
        }
    }
    "gui/501".to_string()
}

/// What a service is called in requests.
pub fn launchd_target(sup: &LaunchdSupervision) -> (r: String)
    ensures
        r@ == target_of(sup.deep_view()),
{
    let domain = launchd_domain(sup);
    concat3(domain.as_str(), "/", sup.label.as_str())
}

/// A character that a shell gives no meaning.
pub open spec fn is_safe_char(c: char) -> bool {
    is_alphanumeric(c) || c == '.' || c == '-' || c == '_' || c == '/'
}

pub open spec fn all_safe(s: Seq<char>) -> bool {
    forall|i: int| 0 <= i < s.len() ==> is_safe_char(#[trigger] s[i])
}

/// A text that can stand in a shell's command line as it is.
pub open spec fn is_safe_token(s: Seq<char>) -> bool {
    s.len() > 0 && all_safe(s)
}

/// Label and domain can stand in a shell's command line as they are.
pub open spec fn tokens_safe(sup: LaunchdSupervisionView) -> bool {
    is_safe_token(sup.label) && is_safe_token(domain_of(sup))
}

/// Whether a text can stand in a shell's command line as it is.
pub fn is_safe_launchd_token(value: &str) -> (r: bool)
    ensures
        r == is_safe_token(value@),
{
    if value.is_empty() {
        return false;
    }
    let v = chars_of(value);
    let mut i: usize = 0;
    while i < v.len()
        invariant
            v@ == value@,
            i <= v@.len(),
            forall|k: int| 0 <= k < i ==> is_safe_char(#[trigger] v@[k]),
        decreases v@.len() - i,
    {
        let c = v[i];
        if !(is_ascii_alphanumeric(c) || c == '.' || c == '-' || c == '_' || c == '/') {
            assert(!is_safe_char(value@[i as int]));
            return false;
        }
        i += 1;
    }
    true
}

/// Whether label and domain can stand in a shell's command line as they are.
pub fn launchd_tokens_safe(sup: &LaunchdSupervision) -> (r: bool)
    ensures
        r == tokens_safe(sup.deep_view()),
{
    let domain = launchd_domain(sup);
    is_safe_launchd_token(sup.label.as_str()) && is_safe_launchd_token(domain.as_str())
}

/// Where label and domain are safe, so is what a service is called.
pub proof fn law_safe_tokens_make_safe_targets(sup: LaunchdSupervisionView)
    requires
        tokens_safe(sup),
    ensures
        is_safe_token(target_of(sup)),
{
    reveal_strlit("/");
    let domain = domain_of(sup);
    let target = target_of(sup);
    assert forall|i: int| 0 <= i < target.len() implies is_safe_char(#[trigger] target[i]) by {
        if i < domain.len() {
            assert(target[i] == domain[i]);
        } else if i > domain.len() {
            assert(target[i] == sup.label[i - domain.len() - 1]);
        }
    }
}

// ---------------------------------------------------------------------------
// Requests
// ---------------------------------------------------------------------------

/// Something to ask `launchctl`.
#[derive(Clone, Copy, PartialEq, Eq, Structural, Debug)]
pub enum LaunchdAction {
    /// Tell the status of the service.
    List,
    /// Allow the service to run.
    Enable,
    /// Start the service.
    Kickstart,
    /// Start the service anew.
    Restart,
    /// Ask the service to end.
    Terminate,
}

/// The arguments of `launchctl` for an action.
pub open spec fn action_args(action: LaunchdAction, sup: LaunchdSupervisionView) -> Seq<Seq<char>> {
    match action {
        LaunchdAction::List => seq!["list"@, sup.label],
        LaunchdAction::Enable => seq!["enable"@, target_of(sup)],
        LaunchdAction::Kickstart => seq!["kickstart"@, target_of(sup)],
        LaunchdAction::Restart => seq!["kickstart"@, "-k"@, target_of(sup)],
        LaunchdAction::Terminate => seq!["kill"@, "SIGTERM"@, target_of(sup)],
    }
}

fn launchctl_args(action: LaunchdAction, sup: &LaunchdSupervision) -> (r: Vec<String>)
    ensures
        r.deep_view() == action_args(action, sup.deep_view()),
{
    let target = launchd_target(sup);
    let r = match action {
        LaunchdAction::List => texts(&["list", sup.label.as_str()]),
        LaunchdAction::Enable => texts(&["enable", target.as_str()]),
        LaunchdAction::Kickstart => texts(&["kickstart", target.as_str()]),
        LaunchdAction::Restart => texts(&["kickstart", "-k", target.as_str()]),
        LaunchdAction::Terminate => texts(&["kill", "SIGTERM", target.as_str()]),
    };
    assert(r.deep_view() =~= action_args(action, sup.deep_view()));
    r
}

/// The command that asks the `launchctl` of this machine.
pub fn launchctl_command(action: LaunchdAction, sup: &LaunchdSupervision) -> (r: CommandLine)
    ensures
        r.deep_view() == command_of("launchctl"@, action_args(action, sup.deep_view())),
{
    CommandLine { program: "launchctl".to_string(), args: launchctl_args(action, sup) }
}

/// The shell command that asks the `launchctl` of another machine.
pub open spec fn shell_request(action: LaunchdAction, sup: LaunchdSupervisionView) -> Seq<char> {
    "launchctl "@ + joined(action_args(action, sup), seq![' '])
}

/// The shell command that asks the `launchctl` of another machine. A service whose label or
/// domain a shell could misunderstand has none.
pub fn launchctl_shell(action: LaunchdAction, sup: &LaunchdSupervision) -> (r: String)
    requires
        tokens_safe(sup.deep_view()),
    ensures
        r@ == shell_request(action, sup.deep_view()),
        shell_safe(r@),
{
    proof {
        reveal_strlit(" ");
        assert(" "@ =~= seq![' ']);
        law_safe_requests_hold_only_words(action, sup.deep_view());
    }
    let args = launchctl_args(action, sup);
    let text = join(&args, " ");
    concat("launchctl ", text.as_str())
}

/// The shell command that asks the `launchctl` of another machine, or why it is not asked: a
/// shell could misunderstand the label or the domain.
pub fn remote_request(action: LaunchdAction, sup: &LaunchdSupervision) -> (r: Result<
    String,
    String,
>)
    ensures
        match r {
            Ok(text) => tokens_safe(sup.deep_view()) && text@ == shell_request(
                action,
                sup.deep_view(),
            ),
            Err(error) => !tokens_safe(sup.deep_view()) && error@ == unsafe_service().message,
        },
{
    match check_service(sup) {
        Ok(_) => Ok(launchctl_shell(action, sup)),
        Err(error) => Err(error.message),
    }
}

proof fn lemma_safe_concat(a: Seq<char>, b: Seq<char>)
    requires
        shell_safe(a),
        shell_safe(b),
    ensures
        shell_safe(a + b),
{
    assert forall|i: int| 0 <= i < (a + b).len() implies is_safe_char(#[trigger] (a + b)[i]) || (a
        + b)[i] == ' ' by {
        if i < a.len() {
            assert((a + b)[i] == a[i]);
        } else {
            assert((a + b)[i] == b[i - a.len()]);
        }
    }
}

/// Safe characters and blanks only.
pub open spec fn shell_safe(s: Seq<char>) -> bool {
    forall|i: int| 0 <= i < s.len() ==> is_safe_char(#[trigger] s[i]) || s[i] == ' '
}

proof fn lemma_safe_joined(parts: Seq<Seq<char>>)
    requires
        forall|i: int| 0 <= i < parts.len() ==> all_safe(#[trigger] parts[i]),
    ensures
        shell_safe(joined(parts, seq![' '])),
    decreases parts.len(),
{
    if parts.len() == 1 {
        assert(all_safe(parts[0]));
    } else if parts.len() > 1 {
        let front = parts.drop_last();
        assert forall|i: int| 0 <= i < front.len() implies all_safe(#[trigger] front[i]) by {
            assert(all_safe(parts[i]));
        }
        lemma_safe_joined(front);
        assert(all_safe(parts[parts.len() - 1]));
        lemma_safe_concat(joined(front, seq![' ']), seq![' ']);
        lemma_safe_concat(joined(front, seq![' ']) + seq![' '], parts.last());
    }
}

/// A shell finds nothing in a request about a safe service but words and the blanks between
/// them.
pub proof fn law_safe_requests_hold_only_words(action: LaunchdAction, sup: LaunchdSupervisionView)
    requires
        tokens_safe(sup),
    ensures
        shell_safe(shell_request(action, sup)),
{
    law_safe_tokens_make_safe_targets(sup);
    reveal_strlit("list");
    reveal_strlit("enable");
    reveal_strlit("kickstart");
    reveal_strlit("-k");
    reveal_strlit("kill");
    reveal_strlit("SIGTERM");
    reveal_strlit("launchctl ");
    let args = action_args(action, sup);
    assert(all_safe(target_of(sup)));
    assert(all_safe("list"@));
    assert(all_safe("enable"@));
    assert(all_safe("kickstart"@));
    assert(all_safe("-k"@));
    assert(all_safe("kill"@));
    assert(all_safe("SIGTERM"@));
    assert forall|i: int| 0 <= i < args.len() implies all_safe(#[trigger] args[i]) by {
    }
    lemma_safe_joined(args);
    assert(shell_safe("launchctl "@));
    lemma_safe_concat("launchctl "@, joined(args, seq![' ']));
}

// ---------------------------------------------------------------------------
// Answers
// ---------------------------------------------------------------------------

/// What launchd says of a service.
#[derive(Debug, PartialEq)]
pub enum LaunchdState {
    Running(u32),
    Stopped,
    NotLoaded,
    /// The question could not be asked, so nothing is known and nothing changes.
    Unknown(String),
}

/// The model of [`LaunchdState`].
pub enum LaunchdStateView {
    Running(u32),
    Stopped,
    NotLoaded,
    Unknown(Seq<char>),
}

impl DeepView for LaunchdState {
    type V = LaunchdStateView;

    open spec fn deep_view(&self) -> LaunchdStateView {
        match self {
            LaunchdState::Running(pid) => LaunchdStateView::Running(*pid),
            LaunchdState::Stopped => LaunchdStateView::Stopped,
            LaunchdState::NotLoaded => LaunchdStateView::NotLoaded,
            LaunchdState::Unknown(error) => LaunchdStateView::Unknown(error@),
        }
    }
}

/// The process number of a line such as `"PID" = 34468;`.
pub open spec fn line_pid(line: Seq<char>) -> Option<u32> {
    let pieces = split(line, '=');
    if pieces.len() < 2 {
        None
    } else {
        match parse_uint(
            trimmed(without_trailing(trimmed(pieces[1]), ';')),
            u32::MAX as nat,
        ) {
            Some(pid) => Some(pid as u32),
            None => None,
        }
    }
}

/// The process number by the lines that `launchctl list` prints of a service.
pub open spec fn listed_pid(list: Seq<Seq<char>>) -> Option<u32>
    decreases list.len(),
{
    if list.len() == 0 {
        None
    } else if has_prefix(trimmed(list[0]), "\"PID\""@) {
        line_pid(trimmed(list[0]))
    } else {
        listed_pid(list.skip(1))
    }
}

fn pid_of_line(line: &str) -> (r: Option<u32>)
    ensures
        r == line_pid(line@),
{
    let pieces = split_char(line, '=');
    assert(pieces.deep_view().len() == pieces@.len());
    if pieces.len() < 2 {
        return None;
    }
    assert(pieces.deep_view()[1] == pieces@[1]@);
    let value = trim(pieces[1].as_str());
    let bare = trim_end_char(value.as_str(), ';');
    let number = trim(bare.as_str());
    parse_u32(number.as_str())
}

/// The process number in what `launchctl list` prints of a service.
pub fn parse_launchctl_pid(stdout: &str) -> (r: Option<u32>)
    ensures
        r == listed_pid(lines(stdout@)),
{
    let list = split_lines(stdout);
    let ghost all = list.deep_view();
    let mut i: usize = 0;
    assert(all.skip(0) =~= all);
    while i < list.len()
        invariant
            i <= list@.len(),
            all == list.deep_view(),
            all == lines(stdout@),
            listed_pid(all) == listed_pid(all.skip(i as int)),
        decreases list@.len() - i,
    {
        assert(all.skip(i as int).skip(1) =~= all.skip(i + 1));
        assert(all.skip(i as int)[0] == list@[i as int]@);
        let line = trim(list[i].as_str());
        if starts_with(line.as_str(), "\"PID\"") {
            return pid_of_line(line.as_str());
        }
        i += 1;
    }
    None
}

/// The model of an answer of `launchctl`: what it printed, or why it could not be asked.
pub open spec fn reply_view(reply: Result<CommandOutput, String>) -> Result<
    CommandOutputView,
    Seq<char>,
> {
    match reply {
        Ok(output) => Ok(output.deep_view()),
        Err(error) => Err(error@),
    }
}

/// What launchd says of a service, by the answer to [`LaunchdAction::List`].
pub open spec fn observed_state(reply: Result<CommandOutputView, Seq<char>>) -> LaunchdStateView {
    match reply {
        Ok(output) => if !output.success {
            LaunchdStateView::NotLoaded
        } else {
            match listed_pid(lines(output.stdout)) {
                Some(pid) => LaunchdStateView::Running(pid),
                None => LaunchdStateView::Stopped,
            }
        },
        Err(error) => LaunchdStateView::Unknown(error),
    }
}

/// What launchd says of a service, by the answer to [`LaunchdAction::List`].
pub fn launchd_query(reply: &Result<CommandOutput, String>) -> (r: LaunchdState)
    ensures
        r.deep_view() == observed_state(reply_view(*reply)),
{
    match reply {
        Ok(output) => {
            if !output.success {
                LaunchdState::NotLoaded
            } else {
                match parse_launchctl_pid(output.stdout.as_str()) {
                    Some(pid) => LaunchdState::Running(pid),
                    None => LaunchdState::Stopped,
                }
            }
        },
        Err(error) => LaunchdState::Unknown(error.clone()),
    }
}

// ---------------------------------------------------------------------------
// The state of a supervised process
// ---------------------------------------------------------------------------

/// The state of a process that launchd runs.
pub open spec fn launchd_running_state(
    runtime: ProcessRuntimeStateView,
    pid: u32,
    now: Timestamp,
) -> ProcessRuntimeStateView {
    ProcessRuntimeStateView {
        pid: Some(pid),
        current_status: ProcessStatus::Running,
        stopped_at: None,
        exit_code: None,
        last_error: None,
        started_at: if runtime.started_at is None {
            Some(now)
        } else {
            runtime.started_at
        },
        ..runtime
    }
}

/// The state of a process that launchd does not run.
pub open spec fn launchd_stopped_state(
    runtime: ProcessRuntimeStateView,
) -> ProcessRuntimeStateView {
    ProcessRuntimeStateView {
        pid: None,
        current_status: ProcessStatus::Stopped,
        memory_usage: None,
        health_status: Some(HealthStatus::Unknown),
        ..runtime
    }
}

impl RuntimeView {
    /// The state of a supervised process, given what launchd says.
    pub open spec fn reconciled_state(
        self,
        process: ProcessDefinitionView,
        observed: LaunchdStateView,
        now: Timestamp,
    ) -> ProcessRuntimeStateView {
        let runtime = self.state_of(process.id);
        match observed {
            LaunchdStateView::Running(pid) => launchd_running_state(runtime, pid, now),
            LaunchdStateView::Unknown(_) => runtime,
            _ => if runtime.current_status is Stopped && runtime.pid is None {
                runtime
            } else {
                launchd_stopped_state(runtime)
            },
        }
    }

    /// A supervised process is told of as launchd says, where that is news. Where launchd could
    /// not be asked, only that is noted.
    pub open spec fn with_reconciled(
        self,
        config: ConfigView,
        process: ProcessDefinitionView,
        observed: LaunchdStateView,
        now: Timestamp,
        stamp: StampView,
    ) -> RuntimeView {
        let runtime = self.state_of(process.id);
        let next = self.reconciled_state(process, observed, now);
        match observed {
            LaunchdStateView::Running(pid) => if runtime.current_status is Running && runtime.pid
                == Some(pid) {
                self
            } else {
                self.with_state(config, next, RuntimeEvent::Started)
            },
            LaunchdStateView::Unknown(error) => self.with_note(
                config,
                process,
                LogLevel::Debug,
                "launchd status lookup failed (keeping last status): "@ + error,
                stamp,
            ),
            _ => if runtime.current_status is Stopped && runtime.pid is None {
                self
            } else {
                self.with_state(config, next, RuntimeEvent::Stopped)
            },
        }
    }
}

impl Runtime {
    /// Takes in what launchd says of a process.
    pub fn reconcile_launchd_process(
        &mut self,
        config: &Config,
        process: &ProcessDefinition,
        observed: &LaunchdState,
        now: Timestamp,
        stamp: Stamp,
    ) -> (r: ProcessRuntimeState)
        ensures
            r.deep_view() == old(self).deep_view().reconciled_state(
                process.deep_view(),
                observed.deep_view(),
                now,
            ),
            final(self).deep_view() == old(self).deep_view().with_reconciled(
                config.deep_view(),
                process.deep_view(),
                observed.deep_view(),
                now,
                stamp.deep_view(),
            ),
    {
        let mut runtime = self.state_of(process.id.as_str());
        let ghost before = runtime.deep_view();
        let event = match observed {
            LaunchdState::Running(pid) => {
                let already_running = matches!(runtime.current_status, ProcessStatus::Running)
                    && runtime.pid == Some(*pid);
                runtime.pid = Some(*pid);
                runtime.current_status = ProcessStatus::Running;
                runtime.stopped_at = None;
                runtime.exit_code = None;
                runtime.last_error = None;
                if runtime.started_at.is_none() {
                    runtime.started_at = Some(now);
                }
                assert(runtime.deep_view() =~= launchd_running_state(before, *pid, now));
                if already_running {
                    return runtime;
                }
                RuntimeEvent::Started
            },
            LaunchdState::Unknown(error) => {
                let message = concat(
                    "launchd status lookup failed (keeping last status): ",
                    error.as_str(),
                );
                self.note(config, process, LogLevel::Debug, message, stamp);
                return runtime;
            },
            LaunchdState::Stopped | LaunchdState::NotLoaded => {
                if matches!(runtime.current_status, ProcessStatus::Stopped)
                    && runtime.pid.is_none() {
                    return runtime;
                }
                runtime.pid = None;
                runtime.current_status = ProcessStatus::Stopped;
                runtime.memory_usage = None;
                runtime.health_status = Some(HealthStatus::Unknown);
                assert(runtime.deep_view() =~= launchd_stopped_state(before));
                RuntimeEvent::Stopped
            },
        };
        self.set_runtime(config, &runtime, event);
        runtime
    }
}

/// What launchd says a second time is no news: nothing changes and nothing is sent.
pub proof fn law_reconciling_twice_is_no_news(
    rt: RuntimeView,
    config: ConfigView,
    process: ProcessDefinitionView,
    observed: LaunchdStateView,
    now: Timestamp,
    later: Timestamp,
    stamp: StampView,
)
    requires
        !(observed is Unknown),
        rt.state_of(process.id).process_id == process.id,
    ensures
        ({
            let once = rt.with_reconciled(config, process, observed, now, stamp);
            once.with_reconciled(config, process, observed, later, stamp) == once
        }),
{
}

/// Where launchd could not be asked, every process keeps its state.
pub proof fn law_unknown_keeps_every_state(
    rt: RuntimeView,
    config: ConfigView,
    process: ProcessDefinitionView,
    error: Seq<char>,
    now: Timestamp,
    stamp: StampView,
)
    ensures
        rt.with_reconciled(
            config,
            process,
            LaunchdStateView::Unknown(error),
            now,
            stamp,
        ).states == rt.states,
{
}

// ---------------------------------------------------------------------------
// Starting, stopping, restarting
// ---------------------------------------------------------------------------

pub open spec fn unsafe_service() -> ApiErrorView {
    ApiErrorView::new("INVALID_LAUNCHD"@, "Unsafe launchd label or domain"@, false)
}

/// Refuses a service whose label or domain a shell could misunderstand.
pub fn check_service(sup: &LaunchdSupervision) -> (r: Result<(), ApiError>)
    ensures
        r is Ok <==> tokens_safe(sup.deep_view()),
        r matches Err(error) ==> error.deep_view() == unsafe_service(),
{
    if launchd_tokens_safe(sup) {
        Ok(())
    } else {
        Err(ApiError::new("INVALID_LAUNCHD", "Unsafe launchd label or domain", false))
    }
}

/// What a start or a restart is called in the log.
pub open spec fn kickstart_name(restart: bool) -> Seq<char> {
    if restart {
        "launchctl kickstart -k"@
    } else {
        "launchctl kickstart"@
    }
}

/// The answer to a start or a restart that could not be asked for.
pub open spec fn kickstart_error(restart: bool, error: Seq<char>) -> ApiErrorView {
    ApiErrorView::with_details(
        "LAUNCHCTL_FAILED"@,
        kickstart_name(restart) + " failed"@,
        error,
        true,
    )
}

impl RuntimeView {
    /// A start or a restart was asked for: that is noted, and what `launchctl` complained of.
    pub open spec fn with_kickstart(
        self,
        config: ConfigView,
        process: ProcessDefinitionView,
        sup: LaunchdSupervisionView,
        restart: bool,
        reply: Result<CommandOutputView, Seq<char>>,
        stamp: StampView,
        complaint_stamp: StampView,
    ) -> RuntimeView {
        match reply {
            Err(_) => self,
            Ok(output) => {
                let noted = self.with_note(
                    config,
                    process,
                    if output.success {
                        LogLevel::Info
                    } else {
                        LogLevel::Warn
                    },
                    kickstart_name(restart) + " "@ + target_of(sup),
                    stamp,
                );
                if !output.success && trimmed(output.stderr).len() > 0 {
                    noted.with_note(
                        config,
                        process,
                        LogLevel::Warn,
                        "launchctl stderr: "@ + trimmed(output.stderr),
                        complaint_stamp,
                    )
                } else {
                    noted
                }
            },
        }
    }

    /// A stop was asked for: that is noted.
    pub open spec fn with_terminate(
        self,
        config: ConfigView,
        process: ProcessDefinitionView,
        sup: LaunchdSupervisionView,
        stamp: StampView,
    ) -> RuntimeView {
        self.with_note(
            config,
            process,
            LogLevel::Info,
            "launchctl kill SIGTERM "@ + target_of(sup)
                + " (launchd KeepAlive may relaunch it)"@,
            stamp,
        )
    }
}

impl Runtime {
    /// Takes in the answer to a start ([`LaunchdAction::Kickstart`]) or a restart
    /// ([`LaunchdAction::Restart`]).
    pub fn kickstarted(
        &mut self,
        config: &Config,
        process: &ProcessDefinition,
        sup: &LaunchdSupervision,
        restart: bool,
        reply: &Result<CommandOutput, String>,
        stamp: Stamp,
        complaint_stamp: Stamp,
    ) -> (r: Result<(), ApiError>)
        ensures
            r is Ok <==> reply is Ok,
            r matches Err(error) ==> error.deep_view() == kickstart_error(
                restart,
                reply_view(*reply)->Err_0,
            ),
            final(self).deep_view() == old(self).deep_view().with_kickstart(
                config.deep_view(),
                process.deep_view(),
                sup.deep_view(),
                restart,
                reply_view(*reply),
                stamp.deep_view(),
                complaint_stamp.deep_view(),
            ),
    {
        let name = if restart {
            "launchctl kickstart -k"
        } else {
            "launchctl kickstart"
        };
        match reply {
            Err(error) => {
                let message = concat(name, " failed");
                Err(
                    ApiError::with_details(
                        "LAUNCHCTL_FAILED",
                        message.as_str(),
                        error.clone(),
                        true,
                    ),
                )
            },
            Ok(output) => {
                let target = launchd_target(sup);
                let level = if output.success {
                    LogLevel::Info
                } else {
                    LogLevel::Warn
                };
                let message = concat3(name, " ", target.as_str());
                self.note(config, process, level, message, stamp);
                let complaint = trim(output.stderr.as_str());
                if !output.success && !complaint.as_str().is_empty() {
                    let message = concat("launchctl stderr: ", complaint.as_str());
                    self.note(config, process, LogLevel::Warn, message, complaint_stamp);
                }
                Ok(())
            },
        }
    }

    /// Takes in that a stop ([`LaunchdAction::Terminate`]) was asked for.
    pub fn terminate_asked(
        &mut self,
        config: &Config,
        process: &ProcessDefinition,
        sup: &LaunchdSupervision,
        stamp: Stamp,
    )
        ensures
            final(self).deep_view() == old(self).deep_view().with_terminate(
                config.deep_view(),
                process.deep_view(),
                sup.deep_view(),
                stamp.deep_view(),
            ),
    {
        let target = launchd_target(sup);
        let message = concat3(
            "launchctl kill SIGTERM ",
            target.as_str(),
            " (launchd KeepAlive may relaunch it)",
        );
        self.note(config, process, LogLevel::Info, message, stamp);
    }
}

/// How a start or a restart is asked for.
#[derive(Clone, Copy, PartialEq, Eq, Structural, Debug)]
pub struct KickstartSteps {
    /// What is asked first, whatever comes back.
    pub first: Option<LaunchdAction>,
    /// What is asked then.
    pub action: LaunchdAction,
    /// The pause before the status is read back.
    pub pause_ms: u64,
}

/// How a start or a restart is asked for. A start allows the service to run first, in case it
/// was not.
pub fn kickstart_steps(restart: bool) -> (r: KickstartSteps)
    ensures
        r.first == (if restart {
            None
        } else {
            Some(LaunchdAction::Enable)
        }),
        r.action == (if restart {
            LaunchdAction::Restart
        } else {
            LaunchdAction::Kickstart
        }),
        r.pause_ms == (if restart {
            LAUNCHD_RESTART_SETTLE_MS
        } else {
            LAUNCHD_SETTLE_MS
        }),
{
    if restart {
        KickstartSteps {
            first: None,
            action: LaunchdAction::Restart,
            pause_ms: LAUNCHD_RESTART_SETTLE_MS,
        }
    } else {
        KickstartSteps {
            first: Some(LaunchdAction::Enable),
            action: LaunchdAction::Kickstart,
            pause_ms: LAUNCHD_SETTLE_MS,
        }
    }
}

/// Whether the health of a supervised process is checked: where launchd runs it.
pub fn health_is_checked(runtime: &ProcessRuntimeState) -> (r: bool)
    ensures
        r == (runtime.deep_view().current_status is Running),
{
    matches!(runtime.current_status, ProcessStatus::Running)
}

/// The processes that launchd supervises.
pub open spec fn supervised(config: ConfigView) -> Seq<ProcessDefinitionView> {
    kept_where(config.processes, |process: ProcessDefinitionView| process.launchd is Some)
}

/// The processes that launchd supervises.
pub fn launchd_processes(config: &Config) -> (r: Vec<ProcessDefinition>)
    ensures
        r.deep_view() == supervised(config.deep_view()),
{
    let ghost all = config.processes.deep_view();
    let ghost kept = |process: ProcessDefinitionView| process.launchd is Some;
    let mut r: Vec<ProcessDefinition> = Vec::new();
    let mut i: usize = 0;
    assert(r.deep_view() =~= kept_where(all.take(0), kept));
    while i < config.processes.len()
        invariant
            i <= config.processes@.len(),
            all == config.processes.deep_view(),
            kept == (|process: ProcessDefinitionView| process.launchd is Some),
            r.deep_view() == kept_where(all.take(i as int), kept),
        decreases config.processes@.len() - i,
    {
        assert(all.take(i + 1).drop_last() =~= all.take(i as int));
        if config.processes[i].launchd.is_some() {
            crate::lookup::push_item(&mut r, config.processes[i].duplicate());
        }
        i += 1;
    }
    assert(all.take(i as int) =~= all);
    r
}

} // verus!
