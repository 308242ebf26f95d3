//! The mapping transform: converting source records into the output
//! manifest's shapes. Each conversion is a pure function whose result
//! is pinned, field for field, by `docker_view`.

use vstd::prelude::*;
use vstd::string::StringExecFns;
use crate::syno_container::{
    SynoContainerConfig, SynoContainerEnvVariable, SynoContainerLink, SynoContainerPortBinding,
    SynoContainerVolumeBinding,
};
use crate::docker::{
    DockerCompose, DockerPort, DockerService, ComposeView, PortView, ServiceView, ServiceTable,
    services_of, sorted_keys, lemma_sorted_services_unique,
};

verus! {

/// Conversion into the output manifest's shapes. `docker_view` is the
/// mathematical value of the conversion's result; `to_docker` computes
/// a value with exactly that view.
pub trait ToDocker {
    type Output: DeepView;

    /// The model of the converted value.
    spec fn docker_view(&self) -> <Self::Output as DeepView>::V;

    /// Converts, producing a value whose model is `docker_view`.
    fn to_docker(&self) -> (r: Self::Output)
        ensures
            r.deep_view() == self.docker_view(),
    ;
}

impl ToDocker for SynoContainerLink {
    type Output = String;

    open spec fn docker_view(&self) -> Seq<char> {
        self.link_container@
    }

    fn to_docker(&self) -> (r: String) {
        self.link_container.clone()
    }
}

impl ToDocker for SynoContainerEnvVariable {
    type Output = String;

    open spec fn docker_view(&self) -> Seq<char> {
        self.key@ + "="@ + self.value@
    }

    fn to_docker(&self) -> (r: String) {
        let mut r = self.key.clone();
        r.append("=");
        r.append(self.value.as_str());
        r
    }
}

impl ToDocker for SynoContainerVolumeBinding {
    type Output = String;

    open spec fn docker_view(&self) -> Seq<char> {
        self.mount_point@ + ":"@ + self.host_volume_file@ + ":"@ + self.volume_type@
    }

    fn to_docker(&self) -> (r: String) {
        let mut r = self.mount_point.clone();
        r.append(":");
        r.append(self.host_volume_file.as_str());
        r.append(":");
        r.append(self.volume_type.as_str());
        r
    }
}

impl ToDocker for SynoContainerPortBinding {
    type Output = DockerPort;

    open spec fn docker_view(&self) -> PortView {
        PortView {
            target: self.container_port as int,
            published: self.host_port as int,
            protocol: self.port_type@,
            mode: "host"@,
        }
    }

    fn to_docker(&self) -> (r: DockerPort) {
        DockerPort {
            target: self.container_port,
            published: self.host_port,
            protocol: self.port_type.clone(),
            mode: String::from_str("host"),
        }
    }
}

impl<T: ToDocker> ToDocker for Vec<T> {
    type Output = Vec<T::Output>;

    open spec fn docker_view(&self) -> Seq<<T::Output as DeepView>::V> {
        Seq::new(self@.len(), |i: int| self@[i].docker_view())
    }

    fn to_docker(&self) -> (r: Vec<T::Output>) {
        let mut r: Vec<T::Output> = Vec::new();
        let mut i: usize = 0;
        while i < self.len()
            invariant
                i <= self@.len(),
                r@.len() == i,
                forall|j: int| 0 <= j < i ==> #[trigger] r@[j].deep_view()
                    == self@[j].docker_view(),
            decreases self@.len() - i,
        {
            let item = &self[i];
            r.push(item.to_docker());
            i = i + 1;
        }
        proof {
            assert(r.deep_view() =~= self.docker_view());
        }
        r
    }
}

impl ToDocker for SynoContainerConfig {
    type Output = (String, DockerService);

    open spec fn docker_view(&self) -> (Seq<char>, ServiceView) {
        (
            self.name@,
            ServiceView {
                image: self.image@,
                depends_on: self.links.docker_view(),
                ports: self.port_bindings.docker_view(),
                volumes: self.volume_bindings.docker_view(),
                environment: self.env_variables.docker_view(),
            },
        )
    }

    fn to_docker(&self) -> (r: (String, DockerService)) {
        let service = DockerService {
            image: self.image.clone(),
            depends_on: self.links.to_docker(),
            ports: self.port_bindings.to_docker(),
            volumes: self.volume_bindings.to_docker(),
            environment: self.env_variables.to_docker(),
        };
        (self.name.clone(), service)
    }
}

impl ToDocker for ServiceTable {
    type Output = DockerCompose;

    open spec fn docker_view(&self) -> ComposeView {
        ComposeView { version: "3.9"@, services: self.deep_view() }
    }

    fn to_docker(&self) -> (r: DockerCompose) {
        DockerCompose { version: String::from_str("3.9"), services: self.clone() }
    }
}

/// The (name, service) views that a sequence of source records
/// converts to, in scan order.
pub open spec fn config_views(s: Seq<SynoContainerConfig>) -> Seq<(Seq<char>, ServiceView)> {
    s.map_values(|c: SynoContainerConfig| c.docker_view())
}

/// Converts every record and aggregates the results into one manifest:
/// the version is the fixed constant, services are keyed by name with
/// the later record winning a name collision, and the entries stand in
/// lexicographic name order.
pub fn build_document(records: &Vec<SynoContainerConfig>) -> (doc: DockerCompose)
    ensures
        doc.deep_view().version == "3.9"@,
        sorted_keys(doc.deep_view().services),
        services_of(doc.deep_view().services) == services_of(config_views(records@)),
{
    let mut table = ServiceTable::new();
    let mut i: usize = 0;
    proof {
        assert(config_views(records@.subrange(0, 0)) =~= Seq::<(Seq<char>, ServiceView)>::empty());
    }
    while i < records.len()
        invariant
            i <= records@.len(),
            table.wf(),
            table.as_map() == services_of(config_views(records@.subrange(0, i as int))),
        decreases records@.len() - i,
    {
        let ghost prefix = config_views(records@.subrange(0, i as int));
        let ghost x = records@[i as int].docker_view();
        let item = &records[i];
        let pair = item.to_docker();
        proof {
            assert(pair.0@ == x.0);
            assert(config_views(records@.subrange(0, i + 1)) =~= prefix.push(x));
            assert(prefix.push(x).drop_last() =~= prefix);
            assert(services_of(prefix.push(x)) == services_of(prefix).insert(x.0, x.1));
        }
        table.insert(pair.0, pair.1);
        i = i + 1;
    }
    proof {
        assert(records@.subrange(0, records@.len() as int) =~= records@);
    }
    table.to_docker()
}

/// Building the document is deterministic and repeatable: any two
/// documents that meet `build_document`'s contract for the same
/// records are structurally identical. Nothing of the result depends
/// on anything but the records.
pub proof fn lemma_build_document_deterministic(
    d1: DockerCompose,
    d2: DockerCompose,
    records: Seq<SynoContainerConfig>,
)
    requires
        d1.deep_view().version == "3.9"@,
        d2.deep_view().version == "3.9"@,
        sorted_keys(d1.deep_view().services),
        sorted_keys(d2.deep_view().services),
        services_of(d1.deep_view().services) == services_of(config_views(records)),
        services_of(d2.deep_view().services) == services_of(config_views(records)),
    ensures
        d1.deep_view() == d2.deep_view(),
{
    lemma_sorted_services_unique(d1.deep_view().services, d2.deep_view().services);
    assert(d1.deep_view() =~= d2.deep_view());
}

/// The name of a converted record is the source record's name,
/// untransformed.
pub proof fn lemma_config_keeps_name(c: SynoContainerConfig)
    ensures
        c.docker_view().0 == c.name@,
{
}

/// A volume binding converts to exactly
/// mount point, host path and volume type joined by colons.
pub proof fn lemma_volume_format(v: SynoContainerVolumeBinding)
    ensures
        v.docker_view() == v.mount_point@ + ":"@ + v.host_volume_file@ + ":"@ + v.volume_type@,
{
}

/// An environment entry converts to exactly key, `=`, value.
pub proof fn lemma_env_format(e: SynoContainerEnvVariable)
    ensures
        e.docker_view() == e.key@ + "="@ + e.value@,
{
}

/// A converted port's mode is the constant `host`, whatever the source
/// held.
pub proof fn lemma_port_mode(p: SynoContainerPortBinding)
    ensures
        p.docker_view().mode == "host"@,
        p.docker_view().target == p.container_port as int,
        p.docker_view().published == p.host_port as int,
        p.docker_view().protocol == p.port_type@,
{
}

} // verus!
