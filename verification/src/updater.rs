//! Decoding the fetched dataset and running one refresh step.
//!
//! The metrics API answers with a JSON document shaped as
//! `{"items": [{"metadata": {"namespace", "name"},
//! "containers": [{"name", "usage": {"cpu", "memory"}}]}]}`.
//! The decoder validates that shape once, into typed records; a document
//! of any other shape is rejected whole, which aborts the cycle and leaves
//! the previously published snapshot untouched. A single usage string that
//! fails to parse is, by contrast, recovered locally by the renderer.
//!
//! The JSON tree itself is an outside value; it is modeled by the
//! uninterpreted [`json_model`], and the few accessor wrappers state over
//! that model exactly what `serde_json`'s accessors return.

use vstd::prelude::*;
use vstd::string::*;

use crate::publisher::Publisher;
use crate::render::{
    ContainerSample, Dataset, PodSample, container_lines, cpu_value_text, dataset_lines_upto,
    memory_value_text, pod_lines, pod_lines_upto, render, spec_cpu_metric_name, spec_join_lines,
    spec_memory_metric_name, spec_metric_line, spec_render,
};

verus! {

/// A mathematical JSON tree. Numbers carry no value here: the exporter
/// never reads one.
pub enum JsonModel {
    Null,
    Bool(bool),
    Number,
    Str(Seq<char>),
    Arr(Seq<JsonModel>),
    Obj(Map<Seq<char>, JsonModel>),
}

#[verifier::external_type_specification]
#[verifier::external_body]
pub struct ExJsonValue(serde_json::Value);

/// The JSON tree a `serde_json::Value` holds.
pub uninterp spec fn json_model(v: serde_json::Value) -> JsonModel;

/// Relies on serde_json::Value::get with a string key: returns the field
/// exactly when the value is an object that holds that key.
#[verifier::external_body]
fn json_get<'a>(v: &'a serde_json::Value, key: &str) -> (r: Option<&'a serde_json::Value>)
    ensures
        match r {
            Some(f) => json_model(*v) is Obj && json_model(*v)->Obj_0.contains_key(key@)
                && json_model(*f) == json_model(*v)->Obj_0[key@],
            None => !(json_model(*v) is Obj && json_model(*v)->Obj_0.contains_key(key@)),
        },
{
    v.get(key)
}

/// Relies on serde_json::Value::as_array: returns the element vector
/// exactly when the value is an array.
#[verifier::external_body]
fn json_as_array<'a>(v: &'a serde_json::Value) -> (r: Option<&'a Vec<serde_json::Value>>)
    ensures
        match r {
            Some(a) => json_model(*v) is Arr && a@.len() == json_model(*v)->Arr_0.len() && (forall|
                i: int,
            |
                0 <= i < a@.len() ==> json_model(#[trigger] a@[i]) == json_model(*v)->Arr_0[i]),
            None => !(json_model(*v) is Arr),
        },
{
    v.as_array()
}

/// Relies on serde_json::Value::as_str: returns the characters exactly
/// when the value is a string.
#[verifier::external_body]
fn json_as_str<'a>(v: &'a serde_json::Value) -> (r: Option<&'a str>)
    ensures
        match r {
            Some(s) => json_model(*v) is Str && s@ == json_model(*v)->Str_0,
            None => !(json_model(*v) is Str),
        },
{
    v.as_str()
}

/// The pods of a dataset document.
pub open spec fn json_pods(j: JsonModel) -> Seq<JsonModel> {
    j->Obj_0["items"@]->Arr_0
}

/// The containers of a pod entry.
pub open spec fn json_containers(pj: JsonModel) -> Seq<JsonModel> {
    pj->Obj_0["containers"@]->Arr_0
}

pub open spec fn json_namespace(pj: JsonModel) -> Seq<char> {
    pj->Obj_0["metadata"@]->Obj_0["namespace"@]->Str_0
}

pub open spec fn json_pod_name(pj: JsonModel) -> Seq<char> {
    pj->Obj_0["metadata"@]->Obj_0["name"@]->Str_0
}

pub open spec fn json_container_name(cj: JsonModel) -> Seq<char> {
    cj->Obj_0["name"@]->Str_0
}

pub open spec fn json_cpu(cj: JsonModel) -> Seq<char> {
    cj->Obj_0["usage"@]->Obj_0["cpu"@]->Str_0
}

pub open spec fn json_memory(cj: JsonModel) -> Seq<char> {
    cj->Obj_0["usage"@]->Obj_0["memory"@]->Str_0
}

/// A container entry of the expected shape: a name string and the two
/// usage strings.
pub open spec fn container_shape_ok(cj: JsonModel) -> bool {
    &&& cj is Obj
    &&& cj->Obj_0.contains_key("name"@)
    &&& cj->Obj_0["name"@] is Str
    &&& cj->Obj_0.contains_key("usage"@)
    &&& cj->Obj_0["usage"@] is Obj
    &&& cj->Obj_0["usage"@]->Obj_0.contains_key("cpu"@)
    &&& cj->Obj_0["usage"@]->Obj_0["cpu"@] is Str
    &&& cj->Obj_0["usage"@]->Obj_0.contains_key("memory"@)
    &&& cj->Obj_0["usage"@]->Obj_0["memory"@] is Str
}

/// A pod entry of the expected shape: metadata with the two identity
/// strings, and a container array of the expected shape throughout.
pub open spec fn pod_shape_ok(pj: JsonModel) -> bool {
    &&& pj is Obj
    &&& pj->Obj_0.contains_key("metadata"@)
    &&& pj->Obj_0["metadata"@] is Obj
    &&& pj->Obj_0["metadata"@]->Obj_0.contains_key("namespace"@)
    &&& pj->Obj_0["metadata"@]->Obj_0["namespace"@] is Str
    &&& pj->Obj_0["metadata"@]->Obj_0.contains_key("name"@)
    &&& pj->Obj_0["metadata"@]->Obj_0["name"@] is Str
    &&& pj->Obj_0.contains_key("containers"@)
    &&& pj->Obj_0["containers"@] is Arr
    &&& forall|i: int|
        0 <= i < json_containers(pj).len() ==> container_shape_ok(#[trigger] json_containers(pj)[i])
}

/// A dataset document of the expected shape: an `items` array of pods of
/// the expected shape throughout.
pub open spec fn dataset_shape_ok(j: JsonModel) -> bool {
    &&& j is Obj
    &&& j->Obj_0.contains_key("items"@)
    &&& j->Obj_0["items"@] is Arr
    &&& forall|i: int| 0 <= i < json_pods(j).len() ==> pod_shape_ok(#[trigger] json_pods(j)[i])
}

/// The decoded record carries exactly the document's strings.
pub open spec fn container_matches(c: ContainerSample, cj: JsonModel) -> bool {
    &&& c.name@ == json_container_name(cj)
    &&& c.cpu@ == json_cpu(cj)
    &&& c.memory@ == json_memory(cj)
}

pub open spec fn pod_matches(p: PodSample, pj: JsonModel) -> bool {
    &&& p.namespace@ == json_namespace(pj)
    &&& p.name@ == json_pod_name(pj)
    &&& p.containers@.len() == json_containers(pj).len()
    &&& forall|i: int|
        0 <= i < json_containers(pj).len() ==> container_matches(
            #[trigger] p.containers@[i],
            json_containers(pj)[i],
        )
}

pub open spec fn dataset_matches(d: Dataset, j: JsonModel) -> bool {
    &&& d.items@.len() == json_pods(j).len()
    &&& forall|i: int|
        0 <= i < json_pods(j).len() ==> pod_matches(#[trigger] d.items@[i], json_pods(j)[i])
}

/// The message every malformed document is rejected with.
pub open spec fn spec_decode_error() -> Seq<char> {
    "Malformed metrics dataset"@
}

fn decode_error() -> (r: String)
    ensures
        r@ == spec_decode_error(),
{
    String::from_str("Malformed metrics dataset")
}

/// Validates the document's shape once and copies it into typed records.
/// Succeeds exactly on documents of the expected shape, with exactly the
/// document's strings; any other document is rejected whole.
#[verifier::loop_isolation(false)]
pub fn decode_dataset(v: &serde_json::Value) -> (r: Result<Dataset, String>)
    ensures
        match r {
            Ok(d) => dataset_shape_ok(json_model(*v)) && dataset_matches(d, json_model(*v)),
            Err(e) => !dataset_shape_ok(json_model(*v)) && e@ == spec_decode_error(),
        },
{
    let ghost jm = json_model(*v);
    let items_v = match json_get(v, "items") {
        Some(x) => x,
        None => {
            return Err(decode_error());
        },
    };
    let pods = match json_as_array(items_v) {
        Some(a) => a,
        None => {
            return Err(decode_error());
        },
    };
    let mut out: Vec<PodSample> = Vec::new();
    let mut i: usize = 0;
    while i < pods.len()
        invariant
            jm == json_model(*v),
            jm is Obj && jm->Obj_0.contains_key("items"@) && jm->Obj_0["items"@] is Arr,
            pods@.len() == json_pods(jm).len(),
            forall|k: int|
                0 <= k < pods@.len() ==> json_model(#[trigger] pods@[k]) == json_pods(jm)[k],
            0 <= i <= pods@.len(),
            out@.len() == i,
            forall|k: int| 0 <= k < i ==> pod_shape_ok(#[trigger] json_pods(jm)[k]),
            forall|k: int| 0 <= k < i ==> pod_matches(#[trigger] out@[k], json_pods(jm)[k]),
        decreases pods@.len() - i,
    {
        let pod = &pods[i];
        proof {
            if dataset_shape_ok(jm) {
                assert(pod_shape_ok(json_pods(jm)[i as int]));
                assert(pod_shape_ok(json_model(*pod)));
            }
        }
        let md = match json_get(pod, "metadata") {
            Some(x) => x,
            None => {
                return Err(decode_error());
            },
        };
        let ns = match json_get(md, "namespace") {
            Some(x) => match json_as_str(x) {
                Some(s) => s,
                None => {
                    return Err(decode_error());
                },
            },
            None => {
                return Err(decode_error());
            },
        };
        let pod_name = match json_get(md, "name") {
            Some(x) => match json_as_str(x) {
                Some(s) => s,
                None => {
                    return Err(decode_error());
                },
            },
            None => {
                return Err(decode_error());
            },
        };
        let conts_v = match json_get(pod, "containers") {
            Some(x) => x,
            None => {
                return Err(decode_error());
            },
        };
        let conts = match json_as_array(conts_v) {
            Some(a) => a,
            None => {
                return Err(decode_error());
            },
        };
        let ghost pj = json_model(pods@[i as int]);
        let mut cs: Vec<ContainerSample> = Vec::new();
        let mut j: usize = 0;
        while j < conts.len()
            invariant
                0 <= j <= conts@.len(),
                cs@.len() == j,
                forall|k: int| 0 <= k < j ==> container_shape_ok(#[trigger] json_containers(pj)[k]),
                forall|k: int|
                    0 <= k < j ==> container_matches(#[trigger] cs@[k], json_containers(pj)[k]),
            decreases conts@.len() - j,
        {
            let cont = &conts[j];
            proof {
                if dataset_shape_ok(jm) {
                    assert(pod_shape_ok(pj));
                    assert(container_shape_ok(json_containers(pj)[j as int]));
                    assert(container_shape_ok(json_model(*cont)));
                }
            }
            let cname = match json_get(cont, "name") {
                Some(x) => match json_as_str(x) {
                    Some(s) => s,
                    None => {
                        return Err(decode_error());
                    },
                },
                None => {
                    return Err(decode_error());
                },
            };
            let usage = match json_get(cont, "usage") {
                Some(x) => x,
                None => {
                    return Err(decode_error());
                },
            };
            let cpu = match json_get(usage, "cpu") {
                Some(x) => match json_as_str(x) {
                    Some(s) => s,
                    None => {
                        return Err(decode_error());
                    },
                },
                None => {
                    return Err(decode_error());
                },
            };
            let memory = match json_get(usage, "memory") {
                Some(x) => match json_as_str(x) {
                    Some(s) => s,
                    None => {
                        return Err(decode_error());
                    },
                },
                None => {
                    return Err(decode_error());
                },
            };
            cs.push(
                ContainerSample {
                    name: String::from_str(cname),
                    cpu: String::from_str(cpu),
                    memory: String::from_str(memory),
                },
            );
            j += 1;
        }
        out.push(
            PodSample {
                namespace: String::from_str(ns),
                name: String::from_str(pod_name),
                containers: cs,
            },
        );
        i += 1;
    }
    Ok(Dataset { items: out })
}

/// The two lines a container entry renders to, read off the JSON model.
pub open spec fn json_container_lines(pj: JsonModel, cj: JsonModel) -> Seq<Seq<char>> {
    seq![
        spec_metric_line(
            spec_cpu_metric_name(),
            json_namespace(pj),
            json_pod_name(pj),
            json_container_name(cj),
            cpu_value_text(json_cpu(cj)),
        ),
        spec_metric_line(
            spec_memory_metric_name(),
            json_namespace(pj),
            json_pod_name(pj),
            json_container_name(cj),
            memory_value_text(json_memory(cj)),
        ),
    ]
}

pub open spec fn json_pod_lines_upto(pj: JsonModel, k: int) -> Seq<Seq<char>>
    decreases k,
{
    if k <= 0 {
        Seq::<Seq<char>>::empty()
    } else {
        json_pod_lines_upto(pj, k - 1) + json_container_lines(pj, json_containers(pj)[k - 1])
    }
}

pub open spec fn json_pod_lines(pj: JsonModel) -> Seq<Seq<char>> {
    json_pod_lines_upto(pj, json_containers(pj).len() as int)
}

pub open spec fn json_dataset_lines_upto(j: JsonModel, k: int) -> Seq<Seq<char>>
    decreases k,
{
    if k <= 0 {
        Seq::<Seq<char>>::empty()
    } else {
        json_dataset_lines_upto(j, k - 1) + json_pod_lines(json_pods(j)[k - 1])
    }
}

pub open spec fn json_dataset_lines(j: JsonModel) -> Seq<Seq<char>> {
    json_dataset_lines_upto(j, json_pods(j).len() as int)
}

/// The exposition text a dataset document renders to.
pub open spec fn spec_render_json(j: JsonModel) -> Seq<char> {
    spec_join_lines(json_dataset_lines(j))
}

proof fn lemma_pod_lines_match(p: PodSample, pj: JsonModel, k: int)
    requires
        pod_matches(p, pj),
        0 <= k <= p.containers@.len(),
    ensures
        pod_lines_upto(p, k) == json_pod_lines_upto(pj, k),
    decreases k,
{
    if k > 0 {
        lemma_pod_lines_match(p, pj, k - 1);
        assert(container_matches(p.containers@[k - 1], json_containers(pj)[k - 1]));
        assert(container_lines(p.namespace@, p.name@, p.containers@[k - 1])
            =~= json_container_lines(pj, json_containers(pj)[k - 1]));
    }
}

proof fn lemma_dataset_lines_match(d: Dataset, j: JsonModel, k: int)
    requires
        dataset_matches(d, j),
        0 <= k <= d.items@.len(),
    ensures
        dataset_lines_upto(d, k) == json_dataset_lines_upto(j, k),
    decreases k,
{
    if k > 0 {
        lemma_dataset_lines_match(d, j, k - 1);
        assert(pod_matches(d.items@[k - 1], json_pods(j)[k - 1]));
        lemma_pod_lines_match(
            d.items@[k - 1],
            json_pods(j)[k - 1],
            d.items@[k - 1].containers@.len() as int,
        );
        assert(pod_lines(d.items@[k - 1]) == json_pod_lines(json_pods(j)[k - 1]));
    }
}

/// A dataset decoded from a document renders to exactly the text the
/// document's model renders to.
pub proof fn lemma_render_matches(d: Dataset, j: JsonModel)
    requires
        dataset_matches(d, j),
    ensures
        spec_render(d) == spec_render_json(j),
{
    lemma_dataset_lines_match(d, j, d.items@.len() as int);
}

/// Decodes and renders one fetched document: the exposition text of every
/// document of the expected shape, and the decode error — never a partial
/// render — for any other.
pub fn generate_new_metrics(v: &serde_json::Value) -> (r: Result<String, String>)
    ensures
        match r {
            Ok(out) => dataset_shape_ok(json_model(*v)) && out@ == spec_render_json(
                json_model(*v),
            ),
            Err(e) => !dataset_shape_ok(json_model(*v)) && e@ == spec_decode_error(),
        },
{
    match decode_dataset(v) {
        Ok(d) => {
            let out = render(&d);
            proof {
                lemma_render_matches(d, json_model(*v));
            }
            Ok(out)
        },
        Err(e) => Err(e),
    }
}

/// Runs the compute half of one refresh cycle on an already fetched
/// document: renders it and publishes the result whole, or — on a
/// malformed document — reports the failure and leaves the previously
/// published snapshot untouched.
pub fn update_metrics(publisher: &mut Publisher, v: &serde_json::Value) -> (r: Result<(), String>)
    ensures
        match r {
            Ok(_) => dataset_shape_ok(json_model(*v)) && final(publisher).current()
                == spec_render_json(json_model(*v)),
            Err(e) => {
                &&& !dataset_shape_ok(json_model(*v))
                &&& *final(publisher) == *old(publisher)
                &&& e@ == "Failed to generate new metrics: "@ + spec_decode_error()
            },
        },
{
    match generate_new_metrics(v) {
        Ok(text) => {
            publisher.publish(text);
            Ok(())
        },
        Err(e) => {
            let mut msg = String::from_str("Failed to generate new metrics: ");
            msg.append(e.as_str());
            Err(msg)
        },
    }
}

} // verus!
