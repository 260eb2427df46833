//! How processes are started.
use vstd::prelude::*;

use crate::clock::Timestamp;
use crate::command::{command_tokens, displayed};
use crate::laws::frames::{same_tracking, shows};
use crate::laws::lookups::{first_at, law_process_found_by_id, lemma_first_at};
use crate::models::{
    ApiErrorView, ConfigView, HealthStatus, LogLevel, ProcessDefinitionView,
    ProcessRuntimeStateView, ProcessStatus, ProjectView,
};
use crate::ports::expected_ports;
use crate::runtime::{EffectView, RuntimeEvent, RuntimeView, StampView};
use crate::start::{
    direct_command, failure_details, launch_error, usable_directory, working_directory,
    AdmissionView, LaunchPlanView, LaunchView,
};
use crate::text::{decimal, is_space, trimmed, trimmed_end};

verus! {

/// The first configured process of the project that has the key stands at a position.
pub open spec fn stands_for(
    config: ConfigView,
    project_id: Seq<char>,
    key: Seq<char>,
    k: int,
) -> bool {
    &&& 0 <= k < config.processes.len()
    &&& config.processes[k].project_id == project_id
    &&& config.processes[k].key == key
    &&& forall|m: int|
        0 <= m < k ==> (#[trigger] config.processes[m]).project_id != project_id
            || config.processes[m].key != key
}

/// The first configured process of the project that has the key is running.
pub open spec fn runs(
    rt: RuntimeView,
    config: ConfigView,
    project_id: Seq<char>,
    key: Seq<char>,
) -> bool {
    exists|k: int| #[trigger]
        stands_for(config, project_id, key, k) && rt.states.contains_key(config.processes[k].id)
            && rt.states[config.processes[k].id].current_status == ProcessStatus::Running
}

proof fn lemma_runs(
    rt: RuntimeView,
    config: ConfigView,
    process: ProcessDefinitionView,
    key: Seq<char>,
)
    ensures
        rt.dependency_runs(config, process, key) == runs(rt, config, process.project_id, key),
{
    let project_id = process.project_id;
    let wanted = |other: ProcessDefinitionView| other.project_id == project_id && other.key == key;
    lemma_first_at(config.processes, wanted);
    match config.process_by_key(project_id, key) {
        Some(found) => {
            let k = choose|k: int| #[trigger]
                first_at(config.processes, wanted, k) && config.processes[k] == found;
            assert(stands_for(config, project_id, key, k)) by {
                assert forall|m: int| 0 <= m < k implies (
                #[trigger] config.processes[m]).project_id != project_id
                    || config.processes[m].key != key by {
                    assert(!wanted(config.processes[m]));
                }
            }
            assert forall|j: int| #[trigger] stands_for(config, project_id, key, j) implies j
                == k by {
                if j < k {
                    assert(!wanted(config.processes[j]));
                }
                if k < j {
                    assert(config.processes[k].project_id != project_id
                        || config.processes[k].key != key);
                }
            }
        },
        None => {
            assert forall|j: int| !#[trigger] stands_for(config, project_id, key, j) by {
                if 0 <= j < config.processes.len() {
                    assert(!wanted(config.processes[j]));
                }
            }
        },
    }
}

/// No dependency is missing exactly if for every key the first process of the project that has
/// it is running; otherwise the first key of which that is not so is missing.
pub proof fn law_missing_dependency_is_the_first_that_does_not_run(
    rt: RuntimeView,
    config: ConfigView,
    process: ProcessDefinitionView,
)
    ensures
        match rt.missing_dependency(config, process) {
            None => forall|i: int|
                0 <= i < process.depends_on.len() ==> runs(
                    rt,
                    config,
                    process.project_id,
                    #[trigger] process.depends_on[i],
                ),
            Some(key) => exists|i: int|
                #![trigger process.depends_on[i]]
                0 <= i < process.depends_on.len() && process.depends_on[i] == key && !runs(
                    rt,
                    config,
                    process.project_id,
                    key,
                ) && forall|j: int|
                    0 <= j < i ==> runs(
                        rt,
                        config,
                        process.project_id,
                        #[trigger] process.depends_on[j],
                    ),
        },
{
    let missing = |key: Seq<char>| !rt.dependency_runs(config, process, key);
    lemma_first_at(process.depends_on, missing);
    assert forall|i: int| 0 <= i < process.depends_on.len() implies missing(
        #[trigger] process.depends_on[i],
    ) == !runs(rt, config, process.project_id, process.depends_on[i]) by {
        lemma_runs(rt, config, process, process.depends_on[i]);
    }
    if let Some(key) = rt.missing_dependency(config, process) {
        let i = choose|i: int| #[trigger]
            first_at(process.depends_on, missing, i) && process.depends_on[i] == key;
        assert(missing(process.depends_on[i]));
        assert forall|j: int| 0 <= j < i implies runs(
            rt,
            config,
            process.project_id,
            #[trigger] process.depends_on[j],
        ) by {
            assert(!missing(process.depends_on[j]));
        }
    } else {
        assert forall|i: int| 0 <= i < process.depends_on.len() implies runs(
            rt,
            config,
            process.project_id,
            #[trigger] process.depends_on[i],
        ) by {
            assert(!missing(process.depends_on[i]));
        }
    }
}

/// A process runs, starts, is queued or is being stopped.
pub open spec fn is_busy(rt: RuntimeView, process_id: Seq<char>) -> bool {
    rt.states.contains_key(process_id) && (rt.states[process_id].current_status
        == ProcessStatus::Running || rt.states[process_id].current_status
        == ProcessStatus::Starting || rt.states[process_id].current_status == ProcessStatus::Queued
        || rt.states[process_id].current_status == ProcessStatus::Stopping)
}

pub open spec fn dependencies_run(
    rt: RuntimeView,
    config: ConfigView,
    process: ProcessDefinitionView,
) -> bool {
    forall|i: int|
        0 <= i < process.depends_on.len() ==> runs(
            rt,
            config,
            process.project_id,
            #[trigger] process.depends_on[i],
        )
}

/// A process that is configured, with its project, is left to launchd where launchd supervises
/// it, refused where it is busy, kept waiting where a dependency does not run, and admitted
/// otherwise. One that is not configured, or whose project is not, is refused.
pub proof fn law_who_may_start(rt: RuntimeView, config: ConfigView, process_id: Seq<char>)
    ensures
        match (config.process(process_id), rt.admission(config, process_id)) {
            (None, answer) => answer matches AdmissionView::Refused { error } && error.code
                == "PROCESS_NOT_FOUND"@ && !error.recoverable,
            (Some(process), answer) => match config.project(process.project_id) {
                None => answer matches AdmissionView::Refused { error } && error.code
                    == "PROJECT_NOT_FOUND"@ && !error.recoverable,
                Some(project) => if process.launchd is Some {
                    answer matches AdmissionView::Delegated { process: left, launchd } && left
                        == process && process.launchd == Some(launchd)
                } else if is_busy(rt, process_id) {
                    answer matches AdmissionView::Refused { error } && error.code
                        == "PROCESS_ALREADY_RUNNING"@ && !error.recoverable
                } else if dependencies_run(rt, config, process) {
                    answer matches AdmissionView::Admitted { launch } && launch.process == process
                        && launch.project == project && launch.settings == config.settings
                        && launch.machine == config.remote_machine(process)
                } else {
                    answer matches AdmissionView::Waiting { runtime } && runtime.current_status
                        == ProcessStatus::WaitingDependency && runtime.process_id == process_id
                        && runtime.last_error == Some(
                        "Dependency is not running: "@ + rt.missing_dependency(config, process)->0,
                    ) && runtime == (ProcessRuntimeStateView {
                        current_status: runtime.current_status,
                        last_error: runtime.last_error,
                        ..ProcessRuntimeStateView::stopped(process_id)
                    })
                },
            },
        },
{
    law_process_found_by_id(config, process_id);
    if let Some(process) = config.process(process_id) {
        law_missing_dependency_is_the_first_that_does_not_run(rt, config, process);
        if dependencies_run(rt, config, process) {
            if let Some(key) = rt.missing_dependency(config, process) {
                let i = choose|i: int|
                    #![trigger process.depends_on[i]]
                    0 <= i < process.depends_on.len() && process.depends_on[i] == key && !runs(
                        rt,
                        config,
                        process.project_id,
                        key,
                    );
                assert(runs(rt, config, process.project_id, process.depends_on[i]));
            }
        }
    }
}

/// Asking to start a process changes nothing where it is refused or left to launchd. Where it is
/// admitted or waits, exactly its own requests to stop are forgotten; a process that waits says
/// so, and nobody else's state, nor what is tracked, changes.
pub proof fn law_asking_to_start_changes_little(
    rt: RuntimeView,
    config: ConfigView,
    process_id: Seq<char>,
    stamp: StampView,
    other: Seq<char>,
)
    ensures
        ({
            let after = rt.with_admission(config, process_id, stamp);
            let answer = rt.admission(config, process_id);
            &&& answer is Refused || answer is Delegated ==> after == rt
            &&& after.pids == rt.pids
            &&& after.process_records == rt.process_records
            &&& after.remote_pids == rt.remote_pids
            &&& answer is Admitted ==> after.states == rt.states && after.effects == rt.effects
                && after.logs == rt.logs
            &&& answer is Admitted || answer is Waiting ==> (after.stopping_processes.contains(
                other,
            ) <==> rt.stopping_processes.contains(other) && !(other.len() > process_id.len()
                && other.take(process_id.len() as int) == process_id
                && other[process_id.len() as int] == ':'))
            &&& answer matches AdmissionView::Waiting { runtime } ==> after.states
                == rt.states.insert(process_id, runtime) && after.effects.len() >= rt.effects.len()
                + 2 && after.effects[rt.effects.len() as int] == (EffectView::Emit {
                event: RuntimeEvent::Failed,
                runtime,
            }) && after.effects.len() <= rt.effects.len() + 3 && shows(
                after,
                after.effects.len() - 1,
                config.process(process_id)->0,
                LogLevel::Warn,
                "Blocked by dependency "@ + rt.missing_dependency(
                    config,
                    config.process(process_id)->0,
                )->0,
            )
        }),
{
    law_process_found_by_id(config, process_id);
    reveal_strlit(":");
    let prefix = process_id + ":"@;
    assert(":"@ =~= seq![':']);
    if other.len() > process_id.len() {
        let head = other.take((process_id.len() + 1) as int);
        if head == prefix {
            assert(other.take(process_id.len() as int) =~= prefix.take(process_id.len() as int));
            assert(prefix.take(process_id.len() as int) =~= process_id);
            assert(head[process_id.len() as int] == ':');
        }
        if other.take(process_id.len() as int) == process_id && other[process_id.len() as int]
            == ':' {
            assert forall|i: int| 0 <= i < prefix.len() implies head[i] == prefix[i] by {
                if i < process_id.len() {
                    assert(other.take(process_id.len() as int)[i] == process_id[i]);
                }
            }
            assert(head =~= prefix);
        }
    }
}

pub proof fn lemma_blank_iff(s: Seq<char>)
    ensures
        trimmed(s).len() > 0 <==> exists|i: int| 0 <= i < s.len() && !is_space(#[trigger] s[i]),
    decreases s.len(),
{
    if s.len() > 0 {
        let rest = s.skip(1);
        if is_space(s[0]) {
            lemma_blank_iff(rest);
            assert(trimmed(s) == trimmed(rest));
            if exists|i: int| 0 <= i < s.len() && !is_space(#[trigger] s[i]) {
                let i = choose|i: int| 0 <= i < s.len() && !is_space(#[trigger] s[i]);
                assert(rest[i - 1] == s[i]);
            }
            if exists|i: int| 0 <= i < rest.len() && !is_space(#[trigger] rest[i]) {
                let i = choose|i: int| 0 <= i < rest.len() && !is_space(#[trigger] rest[i]);
                assert(s[i + 1] == rest[i]);
            }
        } else {
            lemma_end_kept(s);
        }
    }
}

proof fn lemma_end_kept(s: Seq<char>)
    requires
        s.len() > 0,
        !is_space(s[0]),
    ensures
        trimmed_end(s).len() > 0,
    decreases s.len(),
{
    if is_space(s.last()) {
        assert(s.len() > 1);
        lemma_end_kept(s.drop_last());
    }
}

/// A process runs in its own directory where that holds more than blanks, and in its project's
/// otherwise. On this machine it is refused exactly where that directory does not exist; on
/// another machine nobody asks.
pub proof fn law_directory_of_a_process(
    project: ProjectView,
    process: ProcessDefinitionView,
    is_remote: bool,
    exists_there: bool,
)
    ensures
        ({
            let own = process.working_directory;
            let cwd = working_directory(project, process);
            &&& own is Some && (exists|i: int|
                0 <= i < own->0.len() && !is_space(#[trigger] own->0[i])) ==> cwd == own->0
            &&& own is None || (forall|i: int|
                0 <= i < own->0.len() ==> is_space(#[trigger] own->0[i])) ==> cwd
                == project.root_path
            &&& match usable_directory(project, process, is_remote, exists_there) {
                Ok(used) => used == cwd && (is_remote || exists_there),
                Err(error) => !is_remote && !exists_there && error.code
                    == "INVALID_PROJECT_PATH"@ && error.details == Some(cwd),
            }
        }),
{
    if let Some(own) = process.working_directory {
        lemma_blank_iff(own);
    }
}

/// A launch that is planned is that of the process: with its words, in its directory, on its
/// machine; and the process is starting from then on, with nothing left of its last run but the
/// count of its restarts.
pub proof fn law_planned_launch(
    rt: RuntimeView,
    config: ConfigView,
    launch: LaunchView,
    exists_there: bool,
    now: Timestamp,
    stamp: StampView,
)
    requires
        rt.state_of(launch.process.id).process_id == launch.process.id,
    ensures
        ({
            let after = rt.with_start_prepared(config, launch, exists_there, now, stamp);
            let id = launch.process.id;
            let before = rt.state_of(id);
            let state = after.states[id];
            let usable = launch.machine is Some || exists_there;
            &&& !usable ==> after == rt && rt.launch_plan(launch, exists_there, now) is Err
            &&& usable ==> {
                &&& after.states.contains_key(id)
                &&& state.current_status == ProcessStatus::Starting
                &&& state.started_at == Some(now)
                &&& state.stopped_at is None
                &&& state.exit_code is None
                &&& state.last_error is None
                &&& state.memory_usage is None
                &&& state.health_status == Some(HealthStatus::Starting)
                &&& state.restart_count == before.restart_count
                &&& state.pid == before.pid
                &&& state.port_bindings == expected_ports(launch.process)
                &&& state == (ProcessRuntimeStateView {
                    current_status: state.current_status,
                    started_at: state.started_at,
                    stopped_at: state.stopped_at,
                    exit_code: state.exit_code,
                    last_error: state.last_error,
                    memory_usage: state.memory_usage,
                    health_status: state.health_status,
                    port_bindings: state.port_bindings,
                    ..before
                })
                &&& after.states == rt.states.insert(id, state)
                &&& shows(
                    after,
                    rt.effects.len() as int + 1,
                    launch.process,
                    LogLevel::Info,
                    "Starting process"@,
                )
                &&& after.effects[rt.effects.len() as int] == (EffectView::Emit {
                    event: RuntimeEvent::Started,
                    runtime: state,
                })
                &&& after.effects.len() == rt.effects.len() + 2
            }
            &&& after.pids == rt.pids && after.process_records == rt.process_records
            &&& usable && rt.launch_plan(launch, exists_there, now) is Err ==> command_tokens(
                launch.process,
            ) is Err && command_tokens(launch.process)->Err_0 == rt.launch_plan(
                launch,
                exists_there,
                now,
            )->Err_0
            &&& rt.launch_plan(launch, exists_there, now) matches Ok(plan) ==> {
                &&& usable
                &&& plan.process == launch.process
                &&& plan.machine == launch.machine
                &&& plan.settings == launch.settings
                &&& plan.cwd == working_directory(launch.project, launch.process)
                &&& command_tokens(launch.process) == Ok::<Seq<Seq<char>>, ApiErrorView>(
                    plan.tokens,
                )
                &&& plan.label == displayed(plan.tokens)
                &&& plan.started_at == now
                &&& plan.runtime == state
            }
        }),
{
}

/// A command line is its program and its arguments: put together again they are its words.
pub proof fn law_command_is_program_and_arguments(tokens: Seq<Seq<char>>)
    requires
        tokens.len() > 0,
    ensures
        seq![direct_command(tokens).program] + direct_command(tokens).args == tokens,
{
    assert(seq![tokens[0]] + tokens.skip(1) =~= tokens);
}

/// A process that was launched runs, with the number that it was given; it is tracked under that
/// number, and its records are stored, where it has one. Its memory is watched exactly where it
/// has one and runs on this machine. No other process is touched.
pub proof fn law_launched_process_runs_and_is_tracked(
    rt: RuntimeView,
    config: ConfigView,
    plan: LaunchPlanView,
    pid: Option<u32>,
    through_shell: bool,
    a: StampView,
    b: StampView,
    c: StampView,
    other: Seq<char>,
)
    requires
        plan.runtime.process_id == plan.process.id,
    ensures
        ({
            let after = rt.with_launched(config, plan, pid, through_shell, a, b, c);
            let id = plan.process.id;
            let state = after.states[id];
            let added = after.effects.skip(rt.effects.len() as int);
            &&& after.states.contains_key(id)
            &&& state.current_status == ProcessStatus::Running
            &&& state.pid == pid
            &&& state.health_status == Some(HealthStatus::Unknown)
            &&& state == (ProcessRuntimeStateView {
                current_status: state.current_status,
                pid: state.pid,
                health_status: state.health_status,
                ..plan.runtime
            })
            &&& match pid {
                Some(number) => after.pids == rt.pids.insert(id, number)
                    && after.process_records.contains_key(id)
                    && after.process_records[id].process_id == id
                    && after.process_records[id].project_id == plan.process.project_id
                    && after.process_records[id].pid == number
                    && after.process_records[id].process_group_id == number
                    && after.process_records[id].started_at == plan.started_at
                    && after.process_records[id].command == plan.label,
                None => after.pids == rt.pids && after.process_records == rt.process_records,
            }
            &&& other != id ==> (after.states.contains_key(other) == rt.states.contains_key(other)
                && after.states[other] == rt.states[other]
                && after.process_records.contains_key(other) == rt.process_records.contains_key(
                other,
            ) && after.process_records[other] == rt.process_records[other])
            &&& after.stopping_processes == rt.stopping_processes
            &&& (exists|i: int| 0 <= i < added.len() && (#[trigger] added[i]) is WatchMemory)
                <==> pid is Some && plan.machine is None
            &&& (exists|i: int| 0 <= i < added.len() && (#[trigger] added[i]) is StoreRecords)
                <==> pid is Some
        }),
{
    let after = rt.with_launched(config, plan, pid, through_shell, a, b, c);
    let added = after.effects.skip(rt.effects.len() as int);
    let noted: int = if plan.machine is Some || through_shell {
        1
    } else {
        0
    };
    let stored: int = if pid is Some {
        1
    } else {
        0
    };
    assert forall|i: int| 0 <= i < added.len() implies (#[trigger] added[i])
        == after.effects[i + rt.effects.len()] by {
    }
    if pid is Some {
        assert(added[noted] is StoreRecords);
        if plan.machine is None {
            assert(added[noted + 3] is WatchMemory);
        }
    }
    if pid is None {
        assert forall|i: int| 0 <= i < added.len() implies !((#[trigger] added[i]) is StoreRecords)
            && !(added[i] is WatchMemory) by {
        }
    }
    if plan.machine is Some {
        assert forall|i: int| 0 <= i < added.len() implies !((
        #[trigger] added[i]) is WatchMemory) by {
        }
    }
}

/// A launch is told: where it goes to another machine, or through a shell, and under which number
/// and limit the process runs.
pub proof fn law_launches_are_told(
    rt: RuntimeView,
    config: ConfigView,
    plan: LaunchPlanView,
    pid: u32,
    through_shell: bool,
    a: StampView,
    b: StampView,
    c: StampView,
)
    ensures
        ({
            let after = rt.with_launched(config, plan, Some(pid), through_shell, a, b, c);
            let n = rt.effects.len() as int;
            let process = plan.process;
            let running = "Process running with pid "@ + decimal(pid as nat);
            let k: int = if plan.machine is Some || through_shell {
                n + 3
            } else {
                n + 2
            };
            let watched: int = if plan.machine is None {
                1
            } else {
                0
            };
            &&& plan.machine matches Some(machine) ==> shows(
                after,
                n,
                process,
                LogLevel::Info,
                "Connecting to "@ + machine.ssh_user + "@"@ + machine.hostname + ":"@ + decimal(
                    machine.ssh_port as nat,
                ) + " via SSH"@,
            )
            &&& plan.machine is None && through_shell ==> shows(
                after,
                n,
                process,
                LogLevel::Debug,
                "Resolved command through login shell"@,
            )
            &&& plan.machine is Some ==> shows(
                after,
                k,
                process,
                LogLevel::Info,
                running + " (remote)"@,
            )
            &&& plan.machine is None && process.memory_limit_mb is None ==> shows(
                after,
                k,
                process,
                LogLevel::Info,
                running,
            )
            &&& plan.machine is None && process.memory_limit_mb is Some ==> shows(
                after,
                k,
                process,
                LogLevel::Info,
                running + " (RAM limit "@ + decimal(process.memory_limit_mb->0 as nat) + " MB)"@,
            )
            &&& after.effects[k - 1] == (EffectView::Emit {
                event: RuntimeEvent::Started,
                runtime: after.states[plan.runtime.process_id],
            })
            &&& plan.machine is None ==> after.effects[k + 1] == (EffectView::WatchMemory {
                project_id: process.project_id,
                process_id: process.id,
                pid,
            })
            &&& plan.settings.auto_start_marked_projects ==> shows(
                after,
                k + watched + 1,
                process,
                LogLevel::Debug,
                "Autostart setting is enabled"@,
            )
            &&& !plan.settings.auto_start_marked_projects ==> after.effects.len() == k + watched
                + 1
        }),
{
}

/// A launch that failed leaves the process failed, with the reason that the answer gives, and
/// tracks nothing. The reason names the command, the machine if it is another one, and the
/// errors.
pub proof fn law_failed_launch(
    rt: RuntimeView,
    config: ConfigView,
    plan: LaunchPlanView,
    error: Seq<char>,
    shell_error: Option<Seq<char>>,
    now: Timestamp,
    stamp: StampView,
)
    requires
        plan.runtime.process_id == plan.process.id,
    ensures
        ({
            let details = failure_details(plan, error, shell_error);
            let after = rt.with_spawn_failure(
                config,
                plan.process,
                plan.runtime,
                details,
                now,
                stamp,
            );
            let state = after.states[plan.process.id];
            &&& state.current_status == ProcessStatus::Failed
            &&& state.last_error == Some(details)
            &&& state.stopped_at == Some(now)
            &&& state.health_status == Some(HealthStatus::Unknown)
            &&& state == (ProcessRuntimeStateView {
                current_status: state.current_status,
                last_error: state.last_error,
                stopped_at: state.stopped_at,
                health_status: state.health_status,
                ..plan.runtime
            })
            &&& after.states == rt.states.insert(plan.process.id, state)
            &&& shows(after, rt.effects.len() as int, plan.process, LogLevel::Error, details)
            &&& after.effects[rt.effects.len() as int + 1] == (EffectView::Emit {
                event: RuntimeEvent::Failed,
                runtime: state,
            })
            &&& same_tracking(rt, after) && after.stopping_processes == rt.stopping_processes
            &&& launch_error(plan, details).code == "COMMAND_EXECUTION_FAILED"@
            &&& launch_error(plan, details).message == (if plan.machine is Some {
                "Unable to execute remote process command"@
            } else {
                "Unable to execute process command"@
            })
            &&& launch_error(plan, details).details == Some(details)
            &&& launch_error(plan, details).recoverable
            &&& details == (match (plan.machine, shell_error) {
                (Some(machine), _) => plan.label + " (ssh "@ + machine.hostname + "): "@ + error,
                (None, None) => plan.label + ": "@ + error,
                (None, Some(shell)) => plan.label + ": "@ + shell
                    + ". Direct launch also failed: "@ + error,
            })
        }),
{
}

} // verus!
