use panel::config::Config;
use panel::models::{ServiceStatus, ServiceType, Timestamp};
use panel::service_detector::{ProjectProbe, ServiceDetector, DEFAULT_DASHBOARD_PORT};

const NOW: Timestamp = Timestamp { secs: 1_704_067_200, nanos: 0 };

fn probe() -> ProjectProbe {
    ProjectProbe {
        project_root: "/work/shop".to_string(),
        backend_module: true,
        backend_reload_config: true,
        dashboard_manifest: true,
        dashboard_manifest_text: Some(
            "{\"name\":\"dash\",\"scripts\":{\"dev\":\"next dev -p 3100\",\"build\":\"next build\"}}"
                .to_string(),
        ),
        tracker_manifest: true,
        demo_entry: true,
    }
}

#[test]
fn all_four_services_are_found_in_order() {
    let found = ServiceDetector::detect_services(&probe(), NOW);
    let ids: Vec<&str> = found.iter().map(|s| s.id.as_str()).collect();
    assert_eq!(ids, vec!["backend", "dashboard", "tracker", "demo"]);
    assert!(found.iter().all(|s| s.status == ServiceStatus::Stopped));
    assert!(found.iter().all(|s| s.auto_restart && s.restart_count == 0));
    assert!(found.iter().all(|s| s.created_at == NOW && s.updated_at == NOW));
    assert!(found.iter().all(|s| s.environment.is_empty()));
}

#[test]
fn backend_descriptor() {
    let found = ServiceDetector::detect_services(&probe(), NOW);
    let s = &found[0];
    assert_eq!(s.name, "Backend (Go)");
    assert_eq!(s.service_type, ServiceType::Go);
    assert_eq!(s.command, "air");
    assert_eq!(s.working_dir, "/work/shop/backend");
    assert_eq!(s.port, Some(8085));
}

#[test]
fn dashboard_takes_its_port_from_the_manifest() {
    let found = ServiceDetector::detect_services(&probe(), NOW);
    let s = &found[1];
    assert_eq!(s.name, "Dashboard (Next.js)");
    assert_eq!(s.service_type, ServiceType::NodeJs);
    assert_eq!(s.command, "npm run dev");
    assert_eq!(s.working_dir, "/work/shop/dashboard");
    assert_eq!(s.port, Some(3100));
}

#[test]
fn dashboard_falls_back_to_the_default_port() {
    assert_eq!(DEFAULT_DASHBOARD_PORT, 3009);
    for text in [None, Some("not json".to_string()), Some("{\"scripts\":{}}".to_string())] {
        let p = ProjectProbe { dashboard_manifest_text: text, ..probe() };
        let found = ServiceDetector::detect_services(&p, NOW);
        assert_eq!(found[1].port, Some(3009));
    }
}

#[test]
fn tracker_and_demo_descriptors() {
    let found = ServiceDetector::detect_services(&probe(), NOW);
    assert_eq!(found[2].name, "Tracker (TypeScript)");
    assert_eq!(found[2].service_type, ServiceType::TypeScript);
    assert_eq!(found[2].command, "npm run dev");
    assert_eq!(found[2].working_dir, "/work/shop/tracker");
    assert_eq!(found[2].port, None);
    assert_eq!(found[3].name, "Demo (Laravel)");
    assert_eq!(found[3].service_type, ServiceType::Php);
    assert_eq!(found[3].command, "php artisan serve");
    assert_eq!(found[3].working_dir, "/work/shop/demo/blog");
    assert_eq!(found[3].port, Some(8000));
}

#[test]
fn backend_needs_both_files() {
    let p = ProjectProbe { backend_reload_config: false, ..probe() };
    let ids: Vec<String> =
        ServiceDetector::detect_services(&p, NOW).iter().map(|s| s.id.clone()).collect();
    assert_eq!(ids, vec!["dashboard", "tracker", "demo"]);
    let p = ProjectProbe { backend_module: false, ..probe() };
    assert_eq!(ServiceDetector::detect_services(&p, NOW).len(), 3);
}

#[test]
fn nothing_found_gives_no_services() {
    let p = ProjectProbe {
        project_root: ".".to_string(),
        backend_module: false,
        backend_reload_config: false,
        dashboard_manifest: false,
        dashboard_manifest_text: None,
        tracker_manifest: false,
        demo_entry: false,
    };
    assert_eq!(ServiceDetector::detect_services(&p, NOW).len(), 0);
}

#[test]
fn port_is_read_after_the_flag() {
    assert_eq!(ServiceDetector::port_from_dev_script("next dev -p 3009"), Some(3009));
    assert_eq!(ServiceDetector::port_from_dev_script("next dev -p   4000  "), Some(4000));
    assert_eq!(ServiceDetector::port_from_dev_script("next dev"), None);
    assert_eq!(ServiceDetector::port_from_dev_script("next dev -p 3009 --turbo"), None);
    assert_eq!(ServiceDetector::port_from_dev_script("next dev -p 70000"), None);
    assert_eq!(ServiceDetector::port_from_dev_script("a -p 1 -p 2"), Some(1));
}

#[test]
fn port_is_read_from_the_manifest() {
    assert_eq!(
        ServiceDetector::read_port_from_package_json("{\"scripts\":{\"dev\":\"next dev -p 3009\"}}"),
        Some(3009)
    );
    assert_eq!(
        ServiceDetector::read_port_from_package_json("{\"scripts\":{\"dev\":\"vite\"}}"),
        None
    );
    assert_eq!(ServiceDetector::read_port_from_package_json("{\"scripts\":{\"dev\":5}}"), None);
    assert_eq!(ServiceDetector::read_port_from_package_json("{\"scripts\":[]}"), None);
    assert_eq!(ServiceDetector::read_port_from_package_json("{"), None);
}

#[test]
fn containers_are_the_text_keys_of_the_first_document() {
    let docs = vec![
        vec![Some("db".to_string()), None, Some("cache".to_string())],
        vec![Some("other".to_string())],
    ];
    assert_eq!(
        ServiceDetector::detect_docker_containers(&docs),
        vec!["db".to_string(), "cache".to_string()]
    );
    assert_eq!(ServiceDetector::detect_docker_containers(&Vec::new()), Vec::<String>::new());
    assert_eq!(ServiceDetector::detect_docker_containers(&vec![Vec::new()]), Vec::<String>::new());
}

#[test]
fn default_config() {
    let c = Config::default();
    assert_eq!(c.port, 9000);
    assert_eq!(c.host, "0.0.0.0");
    assert_eq!(c.project_root, ".");
    assert_eq!(c.logs_dir, "logs");
    assert_eq!(c.state_file, "panel/state.json");
    assert_eq!(c.data_dir, "panel/data");
    assert!(c.auto_restart);
    assert_eq!(c.max_restart_attempts, 5);
}

#[test]
fn config_started_in_the_project_root() {
    let c = Config::new("/work/shop".to_string());
    assert_eq!(c.project_root, "/work/shop");
    assert_eq!(c.logs_dir, "/work/shop/panel/logs");
    assert_eq!(c.state_file, "/work/shop/panel/state.json");
    assert_eq!(c.data_dir, "/work/shop/panel/data");
    assert_eq!(c.port, 9000);
    assert_eq!(c.host, "0.0.0.0");
    assert!(c.auto_restart);
    assert_eq!(c.max_restart_attempts, 5);
}

#[test]
fn config_started_in_the_panel_directory() {
    let c = Config::new("/work/shop/panel".to_string());
    assert_eq!(c.project_root, "/work/shop");
    assert_eq!(c.logs_dir, "/work/shop/panel/logs");
    let c = Config::new("/work/shop/panel/".to_string());
    assert_eq!(c.project_root, "/work/shop");
    let c = Config::new("/work/shop/mypanel".to_string());
    assert_eq!(c.project_root, "/work/shop/mypanel");
    let c = Config::new("panel".to_string());
    assert_eq!(c.project_root, "");
    assert_eq!(c.logs_dir, "panel/logs");
}
