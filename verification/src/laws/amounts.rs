//! How amounts of memory are shown.
use vstd::arithmetic::div_mod::{lemma_div_denominator, lemma_fundamental_div_mod};
use vstd::prelude::*;

use crate::bytes::{as_double, double_step, memory_text, nearest};
use crate::laws::limits::belongs;
use crate::memory::limit_details;
use crate::models::{ConfigView, ProjectView};
use crate::runtime::{RuntimeView, StampView};
use crate::text::{decimal, digit_char, has_prefix};

verus! {

/// A number of units is the nearest to an amount: at most half a unit away, and even where two
/// are as near.
pub open spec fn is_nearest(units: nat, amount: nat, unit: nat) -> bool {
    &&& 2 * units * unit <= 2 * amount + unit
    &&& 2 * amount <= 2 * units * unit + unit
    &&& 2 * units * unit == 2 * amount + unit || 2 * amount == 2 * units * unit + unit ==> units % 2
        == 0
}

proof fn lemma_nearest(amount: nat, unit: nat)
    requires
        unit > 0,
    ensures
        is_nearest(nearest(amount, unit), amount, unit),
{
    let q = amount / unit;
    let r = amount % unit;
    lemma_fundamental_div_mod(amount as int, unit as int);
    assert(amount == q * unit + r) by (nonlinear_arith)
        requires
            amount == unit * q + r,
    ;
    assert(0 <= r < unit) by (nonlinear_arith)
        requires
            unit > 0,
            r == amount % unit,
    ;
    let n = nearest(amount, unit);
    assert(2 * n * unit == 2 * (n * unit)) by (nonlinear_arith);
    if n == q + 1 {
        assert(n * unit == q * unit + unit) by (nonlinear_arith)
            requires
                n == q + 1,
        ;
    } else {
        assert(n * unit == q * unit);
    }
}

/// Below a gigabyte an amount is shown in megabytes, to the nearest tenth.
pub proof fn law_megabytes_shown(bytes: nat)
    requires
        bytes < 1_073_741_824,
    ensures
        exists|tenths: nat| #[trigger]
            is_nearest(tenths, bytes * 10, 1_048_576) && memory_text(bytes) == decimal(
                tenths / 10,
            ) + seq!['.'] + decimal(tenths % 10) + " MB"@,
{
    lemma_exact(bytes);
    let tenths = nearest(bytes * 10, 1_048_576);
    lemma_nearest(bytes * 10, 1_048_576);
    assert(decimal(tenths % 10) =~= seq![digit_char(tenths % 10)]);
    assert(decimal(tenths / 10).push('.').push(digit_char(tenths % 10)) + " MB"@ =~= decimal(
        tenths / 10,
    ) + seq!['.'] + decimal(tenths % 10) + " MB"@);
    assert(is_nearest(tenths, bytes * 10, 1_048_576));
}

/// From a gigabyte on an amount is shown in gigabytes, to the nearest hundredth.
pub proof fn law_gigabytes_shown(bytes: nat)
    requires
        1_073_741_824 <= bytes < 0x20_0000_0000_0000,
    ensures
        exists|hundredths: nat| #[trigger]
            is_nearest(hundredths, bytes * 100, 1_073_741_824) && memory_text(bytes) == decimal(
                hundredths / 100,
            ) + seq!['.'] + decimal(hundredths / 10 % 10) + decimal(hundredths % 10) + " GB"@,
{
    lemma_exact(bytes);
    let hundredths = nearest(bytes * 100, 1_073_741_824);
    lemma_nearest(bytes * 100, 1_073_741_824);
    assert(decimal(hundredths % 10) =~= seq![digit_char(hundredths % 10)]);
    assert(decimal(hundredths / 10 % 10) =~= seq![digit_char(hundredths / 10 % 10)]);
    assert(decimal(hundredths / 100).push('.').push(digit_char(hundredths / 10 % 10)).push(
        digit_char(hundredths % 10),
    ) + " GB"@ =~= decimal(hundredths / 100) + seq!['.'] + decimal(hundredths / 10 % 10) + decimal(
        hundredths % 10,
    ) + " GB"@);
    assert(is_nearest(hundredths, bytes * 100, 1_073_741_824));
}

proof fn lemma_exact(n: nat)
    requires
        n < 0x20_0000_0000_0000,
    ensures
        as_double(n) == n,
{
    assert(double_step(n) == 1);
    assert(n / 1 == n && n % 1 == 0);
}

proof fn lemma_step(n: nat)
    ensures
        double_step(n) > 0,
        n / double_step(n) < 0x20_0000_0000_0000,
        n >= 0x20_0000_0000_0000 ==> n / double_step(n) >= 0x10_0000_0000_0000,
    decreases n,
{
    if n >= 0x20_0000_0000_0000 {
        let half = n / 2;
        lemma_step(half);
        let s = double_step(half);
        assert(n / (2 * s) == half / s) by {
            lemma_div_denominator(n as int, 2, s as int);
        }
        if half < 0x20_0000_0000_0000 {
            assert(s == 1);
            assert(half / 1 == half);
        }
    }
}

/// A great amount is first rounded to 53 binary digits, to the nearest.
pub proof fn law_great_amounts_are_rounded(n: nat)
    ensures
        ({
            let step = double_step(n);
            let units = nearest(n, step);
            &&& as_double(n) == units * step
            &&& step > 0
            &&& is_nearest(units, n, step)
            &&& units <= 0x20_0000_0000_0000
            &&& n >= 0x20_0000_0000_0000 ==> units >= 0x10_0000_0000_0000
            &&& n < 0x20_0000_0000_0000 ==> as_double(n) == n
        }),
{
    lemma_step(n);
    lemma_nearest(n, double_step(n));
    if n < 0x20_0000_0000_0000 {
        lemma_exact(n);
    }
}

/// An excess is told with the amount used and the limit.
pub proof fn law_excess_is_told(usage: u64, limit: u64)
    ensures
        limit_details("Process"@, usage, limit) == "Process memory limit exceeded: "@ + memory_text(
            usage as nat,
        ) + " used over "@ + memory_text(limit as nat) + " limit"@,
        limit_details("Project"@, usage, limit) == "Project memory limit exceeded: "@ + memory_text(
            usage as nat,
        ) + " used over "@ + memory_text(limit as nat) + " limit"@,
        has_prefix(
            limit_details("Project"@, usage, limit),
            "Project memory limit exceeded"@,
        ),
{
    reveal_strlit("Process");
    reveal_strlit("Project");
    reveal_strlit(" memory limit exceeded: ");
    reveal_strlit("Process memory limit exceeded: ");
    reveal_strlit("Project memory limit exceeded: ");
    reveal_strlit("Project memory limit exceeded");
    assert("Process"@ + " memory limit exceeded: "@ =~= "Process memory limit exceeded: "@);
    assert("Project"@ + " memory limit exceeded: "@ =~= "Project memory limit exceeded: "@);
    let told = limit_details("Project"@, usage, limit);
    let start = "Project memory limit exceeded"@;
    assert(told.take(start.len() as int) =~= start);
}

/// A project whose processes were failed for their memory is not failed again.
pub proof fn law_project_fails_once(
    rt: RuntimeView,
    config: ConfigView,
    project: ProjectView,
    usage: u64,
    limit: u64,
    stamps: Seq<StampView>,
    again: u64,
    more_stamps: Seq<StampView>,
    member: Seq<char>,
)
    requires
        forall|id: Seq<char>| #[trigger]
            rt.states.contains_key(id) ==> rt.states[id].process_id == id,
        belongs(config, project.id, member),
    ensures
        ({
            let once = rt.with_project_over_limit(config, project, usage, limit, stamps);
            once.with_project_over_limit(config, project, again, limit, more_stamps) == once
        }),
{
    crate::laws::limits::law_project_over_its_limit(
        rt,
        config,
        project,
        usage,
        limit,
        stamps,
        member,
    );
    law_excess_is_told(usage, limit);
    let once = rt.with_project_over_limit(config, project, usage, limit, stamps);
    if !rt.project_failed_before(config, project.id) {
        crate::laws::limits::lemma_belongs(config, project.id, member);
        assert(once.states.contains_key(member));
        assert(once.project_failed_before(config, project.id));
    }
}

} // verus!
