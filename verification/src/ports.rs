//! The ports that processes are expected to listen on.
use vstd::prelude::*;

use crate::lookup::push_item;
use crate::models::{
    Duplicate, HealthCheck, HealthCheckView, PortBinding, PortBindingView, ProcessDefinition,
    ProcessDefinitionView, ProcessRuntimeState, ProcessRuntimeStateView,
};
use crate::text::{
    before_first, first_index, has_prefix, lemma_first_index, parse_u16, parse_uint, split_once,
    strip_prefix,
};

verus! {

/// The text before the first `c`, or all of it.
pub open spec fn up_to(s: Seq<char>, c: char) -> Seq<char> {
    s.take(first_index(s, c))
}

/// The host and the port of an `http://` address; the port is 80 where none is given.
pub open spec fn http_host_port(url: Seq<char>) -> Option<(Seq<char>, u16)> {
    if !has_prefix(url, "http://"@) {
        None
    } else {
        let authority = up_to(url.skip("http://"@.len() as int), '/');
        let colon = first_index(authority, ':');
        if colon == authority.len() {
            Some((authority, 80))
        } else {
            match parse_uint(authority.skip(colon + 1), 65535) {
                Some(port) => Some((authority.take(colon), port as u16)),
                None => None,
            }
        }
    }
}

/// The host and the port of an `http://` address.
pub fn parse_http_host_port(url: &str) -> (r: Option<(String, u16)>)
    ensures
        r.deep_view() == http_host_port(url@),
{
    match strip_prefix(url, "http://") {
        None => None,
        Some(stripped) => {
            let authority = before_first(stripped.as_str(), '/');
            proof {
                lemma_first_index(authority@, ':');
            }
            match split_once(authority.as_str(), ':') {
                Some((host, port)) => match parse_u16(port.as_str()) {
                    Some(port) => Some((host, port)),
                    None => None,
                },
                None => Some((authority, 80)),
            }
        },
    }
}

/// The port that an argument `--port=N` names.
pub open spec fn arg_port(arg: Seq<char>) -> Option<u16> {
    if has_prefix(arg, "--port="@) {
        match parse_uint(arg.skip("--port="@.len() as int), 65535) {
            Some(port) => Some(port as u16),
            None => None,
        }
    } else {
        None
    }
}

/// The ports that arguments name.
pub open spec fn arg_ports(args: Seq<Seq<char>>) -> Seq<PortBindingView>
    decreases args.len(),
{
    if args.len() == 0 {
        Seq::empty()
    } else {
        let before = arg_ports(args.drop_last());
        match arg_port(args.last()) {
            Some(port) => before.push(
                PortBindingView { host: "127.0.0.1"@, port, protocol: "unknown"@ },
            ),
            None => before,
        }
    }
}

/// The ports that a health check connects to.
pub open spec fn health_check_ports(check: HealthCheckView) -> Seq<PortBindingView> {
    match check {
        HealthCheckView::Tcp { host, port } => seq![
            PortBindingView { host, port, protocol: "tcp"@ },
        ],
        HealthCheckView::Http { url } => match http_host_port(url) {
            Some((host, port)) => seq![PortBindingView { host, port, protocol: "http"@ }],
            None => Seq::empty(),
        },
        _ => Seq::empty(),
    }
}

/// The ports that a process is expected to listen on.
pub open spec fn expected_ports(process: ProcessDefinitionView) -> Seq<PortBindingView> {
    arg_ports(process.args) + health_check_ports(process.health_check)
}

fn port_of_arg(arg: &str) -> (r: Option<u16>)
    ensures
        r == arg_port(arg@),
{
    match strip_prefix(arg, "--port=") {
        Some(value) => parse_u16(value.as_str()),
        None => None,
    }
}

/// The ports that a process is expected to listen on, from its arguments and its health check.
pub fn detect_process_ports(process: &ProcessDefinition) -> (r: Vec<PortBinding>)
    ensures
        r.deep_view() == expected_ports(process.deep_view()),
{
    let mut ports: Vec<PortBinding> = Vec::new();
    let args = &process.args;
    let mut i: usize = 0;
    assert(ports.deep_view() =~= arg_ports(args.deep_view().take(0)));
    while i < args.len()
        invariant
            i <= args@.len(),
            ports.deep_view() == arg_ports(args.deep_view().take(i as int)),
        decreases args@.len() - i,
    {
        assert(args.deep_view().take(i + 1).drop_last() =~= args.deep_view().take(i as int));
        if let Some(port) = port_of_arg(args[i].as_str()) {
            push_item(
                &mut ports,
                PortBinding {
                    host: "127.0.0.1".to_string(),
                    port,
                    protocol: "unknown".to_string(),
                },
            );
        }
        i += 1;
    }
    assert(args.deep_view().take(i as int) =~= args.deep_view());
    let ghost from_args = ports.deep_view();
    let ghost from_check = health_check_ports(process.health_check.deep_view());
    match &process.health_check {
        HealthCheck::Tcp { host, port } => {
            push_item(
                &mut ports,
                PortBinding { host: host.clone(), port: *port, protocol: "tcp".to_string() },
            );
        },
        HealthCheck::Http { url } => {
            if let Some((host, port)) = parse_http_host_port(url.as_str()) {
                push_item(&mut ports, PortBinding { host, port, protocol: "http".to_string() });
            }
        },
        _ => {},
    }
    assert(ports.deep_view() =~= from_args + from_check);
    ports
}

// ---------------------------------------------------------------------------
// Conflicts
// ---------------------------------------------------------------------------

/// All bindings of the given states, in their order.
pub open spec fn all_bindings(states: Seq<ProcessRuntimeStateView>) -> Seq<PortBindingView>
    decreases states.len(),
{
    if states.len() == 0 {
        Seq::empty()
    } else {
        all_bindings(states.drop_last()) + states.last().port_bindings
    }
}

pub open spec fn has_port(bindings: Seq<PortBindingView>, port: u16) -> bool {
    exists|i: int| 0 <= i < bindings.len() && (#[trigger] bindings[i]).port == port
}

/// The bindings whose port an earlier binding has.
pub open spec fn repeated_ports(bindings: Seq<PortBindingView>) -> Seq<PortBindingView>
    decreases bindings.len(),
{
    if bindings.len() == 0 {
        Seq::empty()
    } else {
        let front = bindings.drop_last();
        if has_port(front, bindings.last().port) {
            repeated_ports(front).push(bindings.last())
        } else {
            repeated_ports(front)
        }
    }
}

/// The bindings whose port an earlier binding has.
pub fn detect_port_conflicts(states: &Vec<ProcessRuntimeState>) -> (r: Vec<PortBinding>)
    ensures
        r.deep_view() == repeated_ports(all_bindings(states.deep_view())),
{
    let ghost views = states.deep_view();
    let mut seen: Vec<u16> = Vec::new();
    let mut conflicts: Vec<PortBinding> = Vec::new();
    let ghost mut done: Seq<PortBindingView> = Seq::empty();
    let mut i: usize = 0;
    assert(conflicts.deep_view() =~= repeated_ports(done));
    while i < states.len()
        invariant
            i <= states@.len(),
            views == states.deep_view(),
            done == all_bindings(views.take(i as int)),
            conflicts.deep_view() == repeated_ports(done),
            forall|port: u16| #[trigger] seen@.contains(port) <==> has_port(done, port),
        decreases states@.len() - i,
    {
        let bindings = &states[i].port_bindings;
        let ghost before = done;
        let ghost own = bindings.deep_view();
        assert(views.take(i + 1).drop_last() =~= views.take(i as int));
        assert(views.take(i + 1).last() == states@[i as int].deep_view());
        let mut j: usize = 0;
        assert(before + own.take(0) =~= before);
        while j < bindings.len()
            invariant
                j <= bindings@.len(),
                own == bindings.deep_view(),
                done == before + own.take(j as int),
                conflicts.deep_view() == repeated_ports(done),
                forall|port: u16| #[trigger] seen@.contains(port) <==> has_port(done, port),
            decreases bindings@.len() - j,
        {
            let binding = &bindings[j];
            let port: u16 = binding.port;
            let ghost after = before + own.take(j + 1);
            assert(after.drop_last() =~= done);
            assert(after.last() == binding.deep_view());
            let ghost seen_before = seen@;
            if contains_port(&seen, port) {
                push_item(&mut conflicts, binding.duplicate());
            } else {
                seen.push(port);
            }
            proof {
                assert forall|p: u16| #[trigger] seen@.contains(p) <==> has_port(after, p) by {
                    if has_port(done, p) {
                        let k = choose|k: int|
                            0 <= k < done.len() && (#[trigger] done[k]).port == p;
                        assert(after[k].port == p);
                    }
                    if has_port(after, p) {
                        let k = choose|k: int|
                            0 <= k < after.len() && (#[trigger] after[k]).port == p;
                        if k < done.len() {
                            assert(done[k].port == p);
                        }
                    }
                    if p == port {
                        assert(after[done.len() as int].port == p);
                    }
                    if !seen_before.contains(port) {
                        assert(seen@ =~= seen_before.push(port));
                        assert(seen@[seen_before.len() as int] == port);
                        if seen_before.contains(p) {
                            let k = choose|k: int|
                                0 <= k < seen_before.len() && seen_before[k] == p;
                            assert(seen@[k] == p);
                        }
                    }
                }
                done = after;
            }
            j += 1;
        }
        assert(own.take(j as int) =~= own);
        i += 1;
    }
    assert(views.take(i as int) =~= views);
    conflicts
}

fn contains_port(ports: &Vec<u16>, port: u16) -> (r: bool)
    ensures
        r == ports@.contains(port),
{
    let mut i: usize = 0;
    while i < ports.len()
        invariant
            i <= ports@.len(),
            forall|k: int| 0 <= k < i ==> ports@[k] != port,
        decreases ports@.len() - i,
    {
        if ports[i] == port {
            return true;
        }
        i += 1;
    }
    false
}

/// There is no conflict exactly if no port is bound twice.
pub proof fn law_no_conflicts_iff_ports_distinct(bindings: Seq<PortBindingView>)
    ensures
        repeated_ports(bindings).len() == 0 <==> forall|i: int, j: int|
            #![trigger bindings[i], bindings[j]]
            0 <= i < j < bindings.len() ==> bindings[i].port != bindings[j].port,
    decreases bindings.len(),
{
    if bindings.len() > 0 {
        let front = bindings.drop_last();
        law_no_conflicts_iff_ports_distinct(front);
        let n = front.len() as int;
        if repeated_ports(bindings).len() == 0 {
            assert forall|i: int, j: int|
                #![trigger bindings[i], bindings[j]]
                0 <= i < j < bindings.len() implies bindings[i].port != bindings[j].port by {
                assert(front[i] == bindings[i]);
                if j < n {
                    assert(front[j] == bindings[j]);
                }
            }
        } else {
            if has_port(front, bindings.last().port) {
                let k = choose|k: int|
                    0 <= k < front.len() && (#[trigger] front[k]).port == bindings.last().port;
                assert(bindings[k].port == bindings[n].port);
            } else {
                let (i, j) = choose|i: int, j: int|
                    #![trigger front[i], front[j]]
                    0 <= i < j < front.len() && front[i].port == front[j].port;
                assert(bindings[i].port == bindings[j].port);
            }
        }
    }
}

/// Every conflict is one of the bindings.
pub proof fn law_conflicts_are_bindings(bindings: Seq<PortBindingView>)
    ensures
        repeated_ports(bindings).len() <= bindings.len(),
        forall|i: int|
            0 <= i < repeated_ports(bindings).len() ==> bindings.contains(
                #[trigger] repeated_ports(bindings)[i],
            ),
    decreases bindings.len(),
{
    if bindings.len() > 0 {
        let front = bindings.drop_last();
        law_conflicts_are_bindings(front);
        assert forall|i: int| 0 <= i < repeated_ports(bindings).len() implies bindings.contains(
            #[trigger] repeated_ports(bindings)[i],
        ) by {
            if i < repeated_ports(front).len() {
                assert(repeated_ports(bindings)[i] == repeated_ports(front)[i]);
                let k = choose|k: int|
                    0 <= k < front.len() && front[k] == repeated_ports(front)[i];
                assert(bindings[k] == repeated_ports(front)[i]);
            } else {
                assert(bindings[front.len() as int] == bindings.last());
            }
        }
    }
}

} // verus!
