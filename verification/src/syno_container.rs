//! Typed in-memory form of one vendor container descriptor: the source
//! record set that one input file parses into.

use vstd::prelude::*;

verus! {

/// One parsed vendor container descriptor.
pub struct SynoContainerConfig {
    pub name: String,
    pub image: String,
    pub links: Vec<SynoContainerLink>,
    pub port_bindings: Vec<SynoContainerPortBinding>,
    pub volume_bindings: Vec<SynoContainerVolumeBinding>,
    pub env_variables: Vec<SynoContainerEnvVariable>,
}

/// A dependency on another container, by that container's name.
pub struct SynoContainerLink {
    pub link_container: String,
}

/// One container-port to host-port binding.
pub struct SynoContainerPortBinding {
    pub container_port: i32,
    pub host_port: i32,
    pub port_type: String,
}

/// One host-path to mount-point binding.
pub struct SynoContainerVolumeBinding {
    pub host_volume_file: String,
    pub mount_point: String,
    pub volume_type: String,
}

/// One environment variable entry.
pub struct SynoContainerEnvVariable {
    pub key: String,
    pub value: String,
}

} // verus!
