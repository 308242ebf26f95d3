use syno_compose::docker::{DockerCompose, DockerService};
use syno_compose::syno_container::{
    SynoContainerConfig, SynoContainerEnvVariable, SynoContainerLink, SynoContainerPortBinding,
    SynoContainerVolumeBinding,
};
use syno_compose::to_docker::{build_document, ToDocker};

fn config(name: &str, image: &str) -> SynoContainerConfig {
    SynoContainerConfig {
        name: name.to_string(),
        image: image.to_string(),
        links: vec![],
        port_bindings: vec![],
        volume_bindings: vec![],
        env_variables: vec![],
    }
}

fn service_eq(a: &DockerService, b: &DockerService) -> bool {
    let ports_eq = a.ports.len() == b.ports.len()
        && a.ports.iter().zip(b.ports.iter()).all(|(p, q)| {
            p.target == q.target
                && p.published == q.published
                && p.protocol == q.protocol
                && p.mode == q.mode
        });
    a.image == b.image
        && a.depends_on == b.depends_on
        && ports_eq
        && a.volumes == b.volumes
        && a.environment == b.environment
}

fn document_eq(a: &DockerCompose, b: &DockerCompose) -> bool {
    a.version == b.version
        && a.services.entries().len() == b.services.entries().len()
        && a
            .services
            .entries()
            .iter()
            .zip(b.services.entries().iter())
            .all(|(x, y)| x.0 == y.0 && service_eq(&x.1, &y.1))
}

#[test]
fn empty_input_gives_fixed_version_and_no_services() {
    let doc = build_document(&vec![]);
    assert_eq!(doc.version, "3.9");
    assert_eq!(doc.services.len(), 0);
    assert!(doc.services.entries().is_empty());
}

#[test]
fn services_come_out_in_lexicographic_name_order() {
    let records = vec![
        config("zeta", "z:1"),
        config("alpha", "a:1"),
        config("mid", "m:1"),
    ];
    let doc = build_document(&records);
    let names: Vec<&str> = doc.services.entries().iter().map(|e| e.0.as_str()).collect();
    assert_eq!(names, vec!["alpha", "mid", "zeta"]);
}

#[test]
fn list_fields_preserve_source_order() {
    let mut record = config("app", "img");
    record.links = vec![
        SynoContainerLink { link_container: "second".to_string() },
        SynoContainerLink { link_container: "first".to_string() },
    ];
    record.port_bindings = vec![
        SynoContainerPortBinding {
            container_port: 2,
            host_port: 20,
            port_type: "udp".to_string(),
        },
        SynoContainerPortBinding {
            container_port: 1,
            host_port: 10,
            port_type: "tcp".to_string(),
        },
    ];
    record.volume_bindings = vec![
        SynoContainerVolumeBinding {
            host_volume_file: "/h2".to_string(),
            mount_point: "/m2".to_string(),
            volume_type: "rw".to_string(),
        },
        SynoContainerVolumeBinding {
            host_volume_file: "/h1".to_string(),
            mount_point: "/m1".to_string(),
            volume_type: "ro".to_string(),
        },
    ];
    record.env_variables = vec![
        SynoContainerEnvVariable { key: "B".to_string(), value: "2".to_string() },
        SynoContainerEnvVariable { key: "A".to_string(), value: "1".to_string() },
    ];
    let doc = build_document(&vec![record]);
    let service = doc.services.get("app").expect("service is present");
    assert_eq!(service.depends_on, vec!["second".to_string(), "first".to_string()]);
    assert_eq!(service.ports[0].target, 2);
    assert_eq!(service.ports[1].target, 1);
    assert_eq!(service.volumes, vec!["/m2:/h2:rw".to_string(), "/m1:/h1:ro".to_string()]);
    assert_eq!(service.environment, vec!["B=2".to_string(), "A=1".to_string()]);
}

#[test]
fn name_order_is_by_code_point() {
    let records = vec![config("\u{e9}ta", "i1"), config("zeta", "i2")];
    let doc = build_document(&records);
    let names: Vec<&str> = doc.services.entries().iter().map(|e| e.0.as_str()).collect();
    assert_eq!(names, vec!["zeta", "\u{e9}ta"]);
}

#[test]
fn building_twice_yields_structurally_identical_documents() {
    let records = vec![
        config("b", "img-b"),
        config("a", "img-a"),
        config("c", "img-c"),
    ];
    let first = build_document(&records);
    let second = build_document(&records);
    assert!(document_eq(&first, &second));
}

#[test]
fn end_to_end_single_record() {
    let record = SynoContainerConfig {
        name: "web".to_string(),
        image: "nginx:latest".to_string(),
        links: vec![],
        port_bindings: vec![SynoContainerPortBinding {
            container_port: 80,
            host_port: 8080,
            port_type: "tcp".to_string(),
        }],
        volume_bindings: vec![SynoContainerVolumeBinding {
            host_volume_file: "/data".to_string(),
            mount_point: "/var/www".to_string(),
            volume_type: "rw".to_string(),
        }],
        env_variables: vec![SynoContainerEnvVariable {
            key: "ENV".to_string(),
            value: "prod".to_string(),
        }],
    };
    let doc = build_document(&vec![record]);
    assert_eq!(doc.version, "3.9");
    assert_eq!(doc.services.len(), 1);
    let service = doc.services.get("web").expect("service is present");
    assert_eq!(service.image, "nginx:latest");
    assert!(service.depends_on.is_empty());
    assert_eq!(service.ports.len(), 1);
    assert_eq!(service.ports[0].target, 80);
    assert_eq!(service.ports[0].published, 8080);
    assert_eq!(service.ports[0].protocol, "tcp");
    assert_eq!(service.ports[0].mode, "host");
    assert_eq!(service.volumes, vec!["/var/www:/data:rw".to_string()]);
    assert_eq!(service.environment, vec!["ENV=prod".to_string()]);
}

#[test]
fn later_record_wins_name_collision() {
    let records = vec![config("db", "postgres:15"), config("db", "mariadb:11")];
    let doc = build_document(&records);
    assert_eq!(doc.services.len(), 1);
    let service = doc.services.get("db").expect("service is present");
    assert_eq!(service.image, "mariadb:11");
}

#[test]
fn lookup_of_absent_name_is_none() {
    let doc = build_document(&vec![config("a", "x")]);
    assert!(doc.services.get("b").is_none());
}

#[test]
fn table_to_docker_clones_services() {
    let doc = build_document(&vec![config("a", "img-a")]);
    let again = doc.services.to_docker();
    assert_eq!(again.version, "3.9");
    assert!(document_eq(&doc, &again));
}
