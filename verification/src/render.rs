//! Rendering a decoded dataset into exposition text.
//!
//! The renderer walks pods, then containers, in the dataset's own order,
//! and emits two lines per container: the CPU metric in millicores, then
//! the memory metric in mebibytes. A usage string that fails to parse is
//! rendered as the value `0`; it never aborts the pass. The lines are
//! joined with a newline separator, so a blank line stands between
//! consecutive exposition lines (each line also carries its own trailing
//! newline).

use vstd::prelude::*;
use vstd::string::*;

use crate::quantity::{format_quantity, spec_format};
use crate::unit_converter::{cpu_quantity, memory_quantity, parse_cpu_value, parse_memory_value};

verus! {

/// One container's sample: its name and the two raw usage strings.
#[derive(Debug)]
pub struct ContainerSample {
    pub name: String,
    pub cpu: String,
    pub memory: String,
}

/// One pod's samples: its identity and its containers.
#[derive(Debug)]
pub struct PodSample {
    pub namespace: String,
    pub name: String,
    pub containers: Vec<ContainerSample>,
}

/// A decoded usage dataset: the pods in API order.
#[derive(Debug)]
pub struct Dataset {
    pub items: Vec<PodSample>,
}

pub open spec fn spec_cpu_metric_name() -> Seq<char> {
    "kube_pod_container_resource_usage_cpu"@
}

pub open spec fn spec_memory_metric_name() -> Seq<char> {
    "kube_pod_container_resource_usage_memory"@
}

pub fn cpu_metric_name() -> (r: &'static str)
    ensures
        r@ == spec_cpu_metric_name(),
{
    "kube_pod_container_resource_usage_cpu"
}

pub fn memory_metric_name() -> (r: &'static str)
    ensures
        r@ == spec_memory_metric_name(),
{
    "kube_pod_container_resource_usage_memory"
}

/// The text a CPU usage string renders to: its parsed value, or `0` on a
/// parse failure.
pub open spec fn cpu_value_text(s: Seq<char>) -> Seq<char> {
    match cpu_quantity(s) {
        Some(q) => spec_format(q.0, q.1),
        None => seq!['0'],
    }
}

/// The text a memory usage string renders to: its parsed value, or `0` on
/// a parse failure.
pub open spec fn memory_value_text(s: Seq<char>) -> Seq<char> {
    match memory_quantity(s) {
        Some(q) => spec_format(q.0, q.1),
        None => seq!['0'],
    }
}

/// One exposition line: `metric{namespace="…", pod="…", container="…"} value`
/// with a trailing newline. Label values are the literal strings from the
/// sample, not re-escaped.
pub open spec fn spec_metric_line(
    metric: Seq<char>,
    ns: Seq<char>,
    pod: Seq<char>,
    container: Seq<char>,
    value: Seq<char>,
) -> Seq<char> {
    metric + "{namespace=\""@ + ns + "\", pod=\""@ + pod + "\", container=\""@ + container
        + "\"} "@ + value + "\n"@
}

/// The two lines one container renders to: CPU first, then memory.
pub open spec fn container_lines(ns: Seq<char>, pod: Seq<char>, c: ContainerSample) -> Seq<
    Seq<char>,
> {
    seq![
        spec_metric_line(spec_cpu_metric_name(), ns, pod, c.name@, cpu_value_text(c.cpu@)),
        spec_metric_line(spec_memory_metric_name(), ns, pod, c.name@, memory_value_text(c.memory@)),
    ]
}

/// The lines of the first `k` containers of a pod, in order.
pub open spec fn pod_lines_upto(p: PodSample, k: int) -> Seq<Seq<char>>
    decreases k,
{
    if k <= 0 {
        Seq::<Seq<char>>::empty()
    } else {
        pod_lines_upto(p, k - 1) + container_lines(p.namespace@, p.name@, p.containers@[k - 1])
    }
}

pub open spec fn pod_lines(p: PodSample) -> Seq<Seq<char>> {
    pod_lines_upto(p, p.containers@.len() as int)
}

/// The lines of the first `k` pods of a dataset, in order.
pub open spec fn dataset_lines_upto(d: Dataset, k: int) -> Seq<Seq<char>>
    decreases k,
{
    if k <= 0 {
        Seq::<Seq<char>>::empty()
    } else {
        dataset_lines_upto(d, k - 1) + pod_lines(d.items@[k - 1])
    }
}

pub open spec fn dataset_lines(d: Dataset) -> Seq<Seq<char>> {
    dataset_lines_upto(d, d.items@.len() as int)
}

/// The lines joined with a single newline between consecutive lines.
pub open spec fn spec_join_lines(lines: Seq<Seq<char>>) -> Seq<char>
    decreases lines.len(),
{
    if lines.len() == 0 {
        Seq::<char>::empty()
    } else if lines.len() == 1 {
        lines[0]
    } else {
        spec_join_lines(lines.drop_last()) + "\n"@ + lines.last()
    }
}

/// The full exposition text of a dataset.
pub open spec fn spec_render(d: Dataset) -> Seq<char> {
    spec_join_lines(dataset_lines(d))
}

/// The views of a sequence of strings.
pub open spec fn seq_views(ss: Seq<String>) -> Seq<Seq<char>> {
    ss.map_values(|s: String| s@)
}

fn metric_line(metric: &str, ns: &str, pod: &str, container: &str, value: &str) -> (r: String)
    ensures
        r@ == spec_metric_line(metric@, ns@, pod@, container@, value@),
{
    let mut out = String::from_str(metric);
    out.append("{namespace=\"");
    out.append(ns);
    out.append("\", pod=\"");
    out.append(pod);
    out.append("\", container=\"");
    out.append(container);
    out.append("\"} ");
    out.append(value);
    out.append("\n");
    proof {
        assert(out@ =~= spec_metric_line(metric@, ns@, pod@, container@, value@));
    }
    out
}

/// The rendered value text of a CPU usage string.
fn cpu_value_string(s: &str) -> (r: String)
    ensures
        r@ == cpu_value_text(s@),
{
    match parse_cpu_value(s) {
        Ok(q) => format_quantity(&q),
        Err(_) => {
            proof {
                reveal_strlit("0");
            }
            let z = String::from_str("0");
            proof {
                assert(z@ =~= seq!['0']);
            }
            z
        },
    }
}

/// The rendered value text of a memory usage string.
fn memory_value_string(s: &str) -> (r: String)
    ensures
        r@ == memory_value_text(s@),
{
    match parse_memory_value(s) {
        Ok(q) => format_quantity(&q),
        Err(_) => {
            proof {
                reveal_strlit("0");
            }
            let z = String::from_str("0");
            proof {
                assert(z@ =~= seq!['0']);
            }
            z
        },
    }
}

/// Renders a dataset into exposition text: two lines per container, in the
/// dataset's own pod and container order, joined with newline separators.
/// A single unparseable usage string renders as `0`; it never makes the
/// pass fail.
pub fn render(d: &Dataset) -> (r: String)
    ensures
        r@ == spec_render(*d),
{
    let mut values: Vec<String> = Vec::new();
    let mut i: usize = 0;
    while i < d.items.len()
        invariant
            0 <= i <= d.items@.len(),
            seq_views(values@) == dataset_lines_upto(*d, i as int),
        decreases d.items@.len() - i,
    {
        let p = &d.items[i];
        let mut j: usize = 0;
        while j < p.containers.len()
            invariant
                0 <= i < d.items@.len(),
                0 <= j <= p.containers@.len(),
                *p == d.items@[i as int],
                seq_views(values@) == dataset_lines_upto(*d, i as int) + pod_lines_upto(
                    *p,
                    j as int,
                ),
            decreases p.containers@.len() - j,
        {
            let c = &p.containers[j];
            let cpu_text = cpu_value_string(c.cpu.as_str());
            let mem_text = memory_value_string(c.memory.as_str());
            let cpu_line = metric_line(
                cpu_metric_name(),
                p.namespace.as_str(),
                p.name.as_str(),
                c.name.as_str(),
                cpu_text.as_str(),
            );
            let mem_line = metric_line(
                memory_metric_name(),
                p.namespace.as_str(),
                p.name.as_str(),
                c.name.as_str(),
                mem_text.as_str(),
            );
            let ghost vs0 = values@;
            values.push(cpu_line);
            values.push(mem_line);
            proof {
                let cl = container_lines(p.namespace@, p.name@, p.containers@[j as int]);
                assert(cl.len() == 2 && cl[0] == cpu_line@ && cl[1] == mem_line@);
                assert(pod_lines_upto(*p, j + 1) =~= pod_lines_upto(*p, j as int) + cl);
                assert(values@ == vs0.push(cpu_line).push(mem_line));
                assert forall|k: int| 0 <= k < vs0.len() implies seq_views(values@)[k] == seq_views(
                    vs0,
                )[k] by {
                    assert(values@[k] == vs0[k]);
                }
                assert(seq_views(values@)[vs0.len() as int] == cpu_line@);
                assert(seq_views(values@)[vs0.len() as int + 1] == mem_line@);
                let prev = dataset_lines_upto(*d, i as int) + pod_lines_upto(*p, j as int);
                let rhs = dataset_lines_upto(*d, i as int) + pod_lines_upto(*p, j + 1);
                assert(seq_views(vs0) == prev);
                assert(rhs.len() == prev.len() + 2);
                assert forall|k: int| 0 <= k < rhs.len() implies seq_views(values@)[k] == rhs[k] by {
                    if k < vs0.len() {
                        assert(seq_views(values@)[k] == seq_views(vs0)[k]);
                        assert(rhs[k] == prev[k]);
                    } else if k == vs0.len() {
                        assert(rhs[k] == cl[0]);
                    } else {
                        assert(rhs[k] == cl[1]);
                    }
                }
                assert(seq_views(values@) =~= rhs);
            }
            j += 1;
        }
        proof {
            assert(seq_views(values@) =~= dataset_lines_upto(*d, i + 1 as int));
        }
        i += 1;
    }
    proof {
        assert(dataset_lines_upto(*d, d.items@.len() as int) == dataset_lines(*d));
    }
    join_lines(&values)
}

/// Joins the strings with a single newline between consecutive elements.
fn join_lines(values: &Vec<String>) -> (r: String)
    ensures
        r@ == spec_join_lines(seq_views(values@)),
{
    let mut out = String::new();
    let mut i: usize = 0;
    while i < values.len()
        invariant
            0 <= i <= values@.len(),
            out@ == spec_join_lines(seq_views(values@).take(i as int)),
        decreases values@.len() - i,
    {
        if i > 0 {
            out.append("\n");
        }
        out.append(values[i].as_str());
        proof {
            let lines = seq_views(values@);
            assert(lines.take(i + 1 as int).drop_last() =~= lines.take(i as int));
            assert(lines.take(i + 1 as int).last() == lines[i as int]);
            if i == 0 {
                assert(out@ =~= spec_join_lines(lines.take(1)));
            } else {
                assert(out@ =~= spec_join_lines(lines.take(i + 1 as int)));
            }
        }
        i += 1;
    }
    proof {
        assert(seq_views(values@).take(values@.len() as int) =~= seq_views(values@));
    }
    out
}

/// Rendering is deterministic: two renders of one dataset are
/// byte-identical.
pub proof fn lemma_render_deterministic(d: Dataset, r1: Seq<char>, r2: Seq<char>)
    requires
        r1 == spec_render(d),
        r2 == spec_render(d),
    ensures
        r1 == r2,
{
}

/// A container whose CPU string does not parse still renders: its CPU line
/// carries the value `0`, and its memory line is unaffected.
pub proof fn lemma_bad_cpu_renders_zero(ns: Seq<char>, pod: Seq<char>, c: ContainerSample)
    requires
        cpu_quantity(c.cpu@) is None,
    ensures
        container_lines(ns, pod, c)[0] == spec_metric_line(
            spec_cpu_metric_name(),
            ns,
            pod,
            c.name@,
            seq!['0'],
        ),
        container_lines(ns, pod, c)[1] == spec_metric_line(
            spec_memory_metric_name(),
            ns,
            pod,
            c.name@,
            memory_value_text(c.memory@),
        ),
{
}

} // verus!
