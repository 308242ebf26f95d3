use syno_compose::discovery::{filter_syno_file_names, is_syno_docker_json_file};

#[test]
fn matching_suffix_is_recognized() {
    assert!(is_syno_docker_json_file("app.syno.json"));
    assert!(is_syno_docker_json_file(".syno.json"));
    assert!(is_syno_docker_json_file("a.b.syno.json"));
}

#[test]
fn other_names_are_rejected() {
    assert!(!is_syno_docker_json_file("app.json"));
    assert!(!is_syno_docker_json_file("syno.json"));
    assert!(!is_syno_docker_json_file("app.syno.json.bak"));
    assert!(!is_syno_docker_json_file(""));
    assert!(!is_syno_docker_json_file("app.syno_json"));
}

#[test]
fn filter_keeps_matches_in_order() {
    let names = vec![
        "b.syno.json".to_string(),
        "notes.txt".to_string(),
        "a.syno.json".to_string(),
    ];
    let kept = filter_syno_file_names(&names);
    assert_eq!(kept, vec!["b.syno.json".to_string(), "a.syno.json".to_string()]);
}

#[test]
fn filter_of_directory_without_matches_is_empty() {
    let names = vec!["readme.md".to_string(), "compose.yaml".to_string()];
    let kept = filter_syno_file_names(&names);
    assert!(kept.is_empty());
}
