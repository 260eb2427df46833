//! Which ports processes listen on.
use vstd::prelude::*;

use crate::laws::texts::law_numbers_read_back;
use crate::models::{
    HealthCheckView, PortBindingView, ProcessDefinitionView, ProcessRuntimeStateView,
};
use crate::ports::{
    all_bindings, arg_port, arg_ports, expected_ports, http_host_port, repeated_ports, up_to,
};
use crate::text::{
    decimal, first_index, has_prefix, is_digit, lemma_decimal_digits, lemma_first_index,
};

verus! {

/// A text holds neither a slash nor a colon.
pub open spec fn is_host(s: Seq<char>) -> bool {
    forall|i: int| 0 <= i < s.len() ==> #[trigger] s[i] != '/' && s[i] != ':'
}

proof fn lemma_at(s: Seq<char>, c: char, k: int)
    requires
        0 <= k <= s.len(),
        k < s.len() ==> s[k] == c,
        forall|i: int| 0 <= i < k ==> #[trigger] s[i] != c,
    ensures
        first_index(s, c) == k,
{
    lemma_first_index(s, c);
    let found = first_index(s, c);
    if found < k {
        assert(s[found] != c);
    }
}

/// An address without a port is one of port 80; with a port it is one of that port; what follows
/// the first slash does not matter.
pub proof fn law_http_addresses(host: Seq<char>, port: u16, path: Seq<char>)
    requires
        is_host(host),
        path.len() == 0 || path[0] == '/',
    ensures
        http_host_port("http://"@ + host + path) == Some((host, 80u16)),
        http_host_port("http://"@ + host + ":"@ + decimal(port as nat) + path) == Some(
            (host, port),
        ),
{
    reveal_strlit("http://");
    reveal_strlit(":");
    let start = "http://"@;
    let number = decimal(port as nat);
    lemma_decimal_digits(port as nat);
    let a = start + host + path;
    assert(a.take(7) =~= start);
    assert(a.skip(7) =~= host + path);
    lemma_at(host + path, '/', host.len() as int);
    assert(up_to(host + path, '/') =~= host);
    lemma_at(host, ':', host.len() as int);
    let b = start + host + ":"@ + number + path;
    let authority = host + ":"@ + number;
    assert(b.take(7) =~= start);
    assert(b.skip(7) =~= authority + path);
    assert forall|i: int| 0 <= i < authority.len() implies #[trigger] (authority + path)[i]
        != '/' by {
        if i < host.len() {
            assert((authority + path)[i] == host[i]);
        } else if i > host.len() {
            assert((authority + path)[i] == number[i - host.len() - 1]);
            assert(is_digit(number[i - host.len() - 1]));
        }
    }
    lemma_at(authority + path, '/', authority.len() as int);
    assert(up_to(authority + path, '/') =~= authority);
    assert forall|i: int| 0 <= i < host.len() implies #[trigger] authority[i] != ':' by {
        assert(authority[i] == host[i]);
    }
    lemma_at(authority, ':', host.len() as int);
    assert(authority.skip(host.len() as int + 1) =~= number);
    assert(authority.take(host.len() as int) =~= host);
    law_numbers_read_back(port as nat, 65535);
}

/// An address of another kind, or one whose port is no number up to 65535, is none.
pub proof fn law_other_addresses(url: Seq<char>, host: Seq<char>, port: Seq<char>)
    requires
        is_host(host),
        is_host(port),
        crate::text::parse_uint(port, 65535) is None,
    ensures
        !has_prefix(url, "http://"@) ==> http_host_port(url) is None,
        http_host_port("http://"@ + host + ":"@ + port) is None,
{
    reveal_strlit("http://");
    reveal_strlit(":");
    let start = "http://"@;
    let b = start + host + ":"@ + port;
    let authority = host + ":"@ + port;
    assert(b.take(7) =~= start);
    assert(b.skip(7) =~= authority);
    assert forall|i: int| 0 <= i < authority.len() implies #[trigger] authority[i] != '/' by {
        if i < host.len() {
            assert(authority[i] == host[i]);
        } else if i > host.len() {
            assert(authority[i] == port[i - host.len() - 1]);
        }
    }
    lemma_at(authority, '/', authority.len() as int);
    assert(up_to(authority, '/') =~= authority);
    assert forall|i: int| 0 <= i < host.len() implies #[trigger] authority[i] != ':' by {
        assert(authority[i] == host[i]);
    }
    lemma_at(authority, ':', host.len() as int);
    assert(authority.skip(host.len() as int + 1) =~= port);
}

/// An argument names a port exactly if it is the option with a number up to 65535.
pub proof fn law_port_arguments(port: u16, arg: Seq<char>)
    ensures
        arg_port("--port="@ + decimal(port as nat)) == Some(port),
        !has_prefix(arg, "--port="@) ==> arg_port(arg) is None,
        arg_port(arg) is Some ==> has_prefix(arg, "--port="@) && crate::text::parse_uint(
            arg.skip(7),
            65535,
        ) == Some(arg_port(arg)->0 as nat),
{
    reveal_strlit("--port=");
    let whole = "--port="@ + decimal(port as nat);
    assert(whole.take(7) =~= "--port="@);
    assert(whole.skip(7) =~= decimal(port as nat));
    law_numbers_read_back(port as nat, 65535);
}

/// A process is expected on the ports that its arguments name, in their order, on this machine,
/// and then on that of its health check.
pub proof fn law_expected_ports(process: ProcessDefinitionView, arg: Seq<char>)
    ensures
        arg_ports(Seq::empty()).len() == 0,
        arg_ports(process.args.push(arg)) == (match arg_port(arg) {
            Some(port) => arg_ports(process.args).push(
                PortBindingView { host: "127.0.0.1"@, port, protocol: "unknown"@ },
            ),
            None => arg_ports(process.args),
        }),
        match process.health_check {
            HealthCheckView::Tcp { host, port } => expected_ports(process) == arg_ports(
                process.args,
            ).push(PortBindingView { host, port, protocol: "tcp"@ }),
            HealthCheckView::Http { url } => match http_host_port(url) {
                Some((host, port)) => expected_ports(process) == arg_ports(process.args).push(
                    PortBindingView { host, port, protocol: "http"@ },
                ),
                None => expected_ports(process) == arg_ports(process.args),
            },
            _ => expected_ports(process) == arg_ports(process.args),
        },
{
    assert(process.args.push(arg).drop_last() =~= process.args);
    let named = arg_ports(process.args);
    assert(named + Seq::<PortBindingView>::empty() =~= named);
    match process.health_check {
        HealthCheckView::Tcp { host, port } => {
            let last = PortBindingView { host, port, protocol: "tcp"@ };
            assert(named + seq![last] =~= named.push(last));
        },
        HealthCheckView::Http { url } => {
            if let Some((host, port)) = http_host_port(url) {
                let last = PortBindingView { host, port, protocol: "http"@ };
                assert(named + seq![last] =~= named.push(last));
            }
        },
        _ => {},
    }
}

/// The ports in use are those of all states, in their order.
pub proof fn law_ports_in_use(
    states: Seq<ProcessRuntimeStateView>,
    state: ProcessRuntimeStateView,
)
    ensures
        all_bindings(Seq::empty()).len() == 0,
        all_bindings(states.push(state)) == all_bindings(states) + state.port_bindings,
{
    assert(states.push(state).drop_last() =~= states);
}

/// A port is in conflict exactly where it was bound before, whatever the host or the protocol.
pub proof fn law_conflicts_are_later_uses(
    bindings: Seq<PortBindingView>,
    binding: PortBindingView,
)
    ensures
        repeated_ports(Seq::empty()).len() == 0,
        (exists|i: int| 0 <= i < bindings.len() && (#[trigger] bindings[i]).port == binding.port)
            ==> repeated_ports(bindings.push(binding)) == repeated_ports(bindings).push(binding),
        (forall|i: int| 0 <= i < bindings.len() ==> (#[trigger] bindings[i]).port != binding.port)
            ==> repeated_ports(bindings.push(binding)) == repeated_ports(bindings),
{
    assert(bindings.push(binding).drop_last() =~= bindings);
}

} // verus!
