//! The record of a scan: what is known of each container, by the namespace
//! and the name of its pod and by its id.

use crate::container::Container;
use crate::entries::TextMap;
use crate::runtime_info::{RuntimeFacts, RuntimeInfo};
use vstd::prelude::*;

verus! {

/// What is known of the containers of a pod, by their ids.
pub type PodFacts = Map<Seq<char>, RuntimeFacts>;

/// What is known of the pods of a namespace, by their names.
pub type NamespaceFacts = Map<Seq<char>, PodFacts>;

/// The record of a scan.
#[derive(Debug)]
pub struct Report {
    namespaces: TextMap<TextMap<TextMap<RuntimeInfo>>>,
}

impl View for Report {
    type V = Map<Seq<char>, NamespaceFacts>;

    closed spec fn view(&self) -> Map<Seq<char>, NamespaceFacts> {
        self.namespaces@
    }
}

/// The pods of the namespace `namespace` in `report`: none where the report
/// does not have the namespace.
pub open spec fn pods_of(report: Map<Seq<char>, NamespaceFacts>, namespace: Seq<char>) -> NamespaceFacts {
    if report.contains_key(namespace) {
        report[namespace]
    } else {
        Map::empty()
    }
}

/// The containers of the pod `pod` among `pods`: none where the pod is not
/// among them.
pub open spec fn containers_of(pods: NamespaceFacts, pod: Seq<char>) -> PodFacts {
    if pods.contains_key(pod) {
        pods[pod]
    } else {
        Map::empty()
    }
}

/// `report` after a container was scanned. The report has the namespace and
/// the pod of the container from then on. What is known of the container stands
/// under its id; where nothing is known, the containers of the pod are as they
/// were.
pub open spec fn with_container(
    report: Map<Seq<char>, NamespaceFacts>,
    namespace: Seq<char>,
    pod: Seq<char>,
    id: Seq<char>,
    known: Option<RuntimeFacts>,
) -> Map<Seq<char>, NamespaceFacts> {
    let pods = pods_of(report, namespace);
    let containers = containers_of(pods, pod);
    report.insert(
        namespace,
        pods.insert(
            pod,
            match known {
                Some(facts) => containers.insert(id, facts),
                None => containers,
            },
        ),
    )
}

/// The view of what may be known of a container.
pub open spec fn known_view(info: Option<RuntimeInfo>) -> Option<RuntimeFacts> {
    match info {
        Some(i) => Some(i@),
        None => None,
    }
}

impl Report {
    /// The record of a scan in which no container was scanned yet.
    pub fn new() -> (out: Self)
        ensures
            out@ == Map::<Seq<char>, NamespaceFacts>::empty(),
    {
        Report { namespaces: TextMap::new() }
    }

    /// Records that `container` was scanned, and what is known of it.
    pub fn add(&mut self, container: &Container, info: Option<RuntimeInfo>)
        ensures
            final(self)@ == with_container(
                old(self)@,
                container.pod_namespace@,
                container.pod_name@,
                container.id@,
                known_view(info),
            ),
    {
        let ghost before = self@;
        let ghost namespace = container.pod_namespace@;
        let ghost pod = container.pod_name@;
        let mut pods = match self.namespaces.remove(container.pod_namespace.as_str()) {
            Some(pods) => pods,
            None => TextMap::new(),
        };
        assert(pods@ == pods_of(before, namespace));
        let ghost pods_before = pods@;
        let mut containers = match pods.remove(container.pod_name.as_str()) {
            Some(containers) => containers,
            None => TextMap::new(),
        };
        assert(containers@ == containers_of(pods_before, pod));
        match info {
            Some(info) => {
                containers.insert(container.id.clone(), info);
            },
            None => {},
        }
        let ghost containers_after = containers@;
        pods.insert(container.pod_name.clone(), containers);
        assert(pods@ =~= pods_before.insert(pod, containers_after));
        let ghost pods_after = pods@;
        self.namespaces.insert(container.pod_namespace.clone(), pods);
        assert(self@ =~= before.insert(namespace, pods_after));
    }

    /// What is known, by namespace, by pod and by container, each in the
    /// order of its keys.
    pub fn namespaces(&self) -> (out: &TextMap<TextMap<TextMap<RuntimeInfo>>>)
        ensures
            out@ == self@,
    {
        &self.namespaces
    }
}

} // verus!
