use servicing::dispatcher::{Dispatcher, ProbeOutcome};
use servicing::error::ServicingError;
use servicing::models::UserProvidedConfig;

fn overlay_port_replicas_cloud() -> UserProvidedConfig {
    UserProvidedConfig::new(
        Some(1234),
        Some(5),
        Some("aws".to_string()),
        None,
        None,
        None,
        None,
        None,
        None,
        None,
        None,
    )
}

const STATUS_OUTPUT: &str = "service svc ready at 10.0.0.5:8080 (2 replicas)";

#[test]
fn test_dispatcher() {
    let mut dis = Dispatcher::new();

    dis.add_service("testing".to_string(), Some(overlay_port_replicas_cloud()))
        .unwrap();

    let bin = dis.save();

    {
        let service = dis.lookup(&"testing".to_string()).unwrap();
        assert_eq!(service.template.resources.ports, 1234);
        assert_eq!(service.template.service.replicas, 5);
        assert_eq!(service.template.resources.cloud, "aws");
    }

    dis.remove_service("testing".to_string()).unwrap();
    assert!(dis.lookup(&"testing".to_string()).is_none());

    dis.load(&bin).unwrap();
    {
        let service = dis.lookup(&"testing".to_string()).unwrap();
        assert_eq!(service.template.resources.ports, 1234);
    }
}

#[test]
fn registry_uniqueness() {
    let mut dis = Dispatcher::new();
    assert!(dis.add_service("x".to_string(), None).is_ok());
    let again = dis.add_service("x".to_string(), None);
    assert_eq!(again, Err(ServicingError::AlreadyExists("x".to_string())));
    assert!(dis.remove_service("x".to_string()).is_ok());
    assert!(dis.add_service("x".to_string(), None).is_ok());
}

#[test]
fn teardown_preconditions() {
    let mut dis = Dispatcher::new();
    dis.add_service("x".to_string(), None).unwrap();

    // launch and confirm readiness: the record is now up
    dis.up("x".to_string(), STATUS_OUTPUT).unwrap();
    assert!(dis.confirm_up(&"x".to_string()));
    let r = dis.remove_service("x".to_string());
    assert_eq!(r, Err(ServicingError::StillRunning("x".to_string())));

    // bring it down: both flags clear, removal succeeds
    dis.down("x".to_string(), None).unwrap();
    assert!(dis.remove_service("x".to_string()).is_ok());
}

#[test]
fn remove_launching_service_fails() {
    let mut dis = Dispatcher::new();
    dis.add_service("x".to_string(), None).unwrap();
    dis.up("x".to_string(), STATUS_OUTPUT).unwrap();
    // endpoint set, not yet up: launching
    let r = dis.remove_service("x".to_string());
    assert_eq!(r, Err(ServicingError::Launching("x".to_string())));
}

#[test]
fn up_guards() {
    let mut dis = Dispatcher::new();
    let r = dis.up("missing".to_string(), STATUS_OUTPUT);
    assert_eq!(r, Err(ServicingError::NotFound("missing".to_string())));

    dis.add_service("x".to_string(), None).unwrap();
    dis.up("x".to_string(), STATUS_OUTPUT).unwrap();
    let again = dis.up("x".to_string(), STATUS_OUTPUT);
    assert_eq!(again, Err(ServicingError::AlreadyRunning("x".to_string())));
}

#[test]
fn up_returns_probe_target() {
    let mut dis = Dispatcher::new();
    dis.add_service("x".to_string(), None).unwrap();
    let probe = dis.up("x".to_string(), STATUS_OUTPUT).unwrap();
    // endpoint plus the default readiness-probe path
    assert_eq!(probe, "10.0.0.5:8080/health");
    assert_eq!(dis.get_url("x".to_string()).unwrap(), "10.0.0.5:8080");
}

#[test]
fn up_prepare_hands_out_config_file() {
    let mut dis = Dispatcher::new();
    dis.add_service("svc".to_string(), None).unwrap();
    let fp = dis.up_prepare(&"svc".to_string()).unwrap();
    assert_eq!(fp, "svc_service.yaml");
}

#[test]
fn down_requires_activity_unless_forced() {
    let mut dis = Dispatcher::new();
    let r = dis.down("missing".to_string(), None);
    assert_eq!(r, Err(ServicingError::NotFound("missing".to_string())));

    dis.add_service("x".to_string(), None).unwrap();
    let r = dis.down("x".to_string(), None);
    assert_eq!(r, Err(ServicingError::NotUp("x".to_string())));
    assert!(dis.down("x".to_string(), Some(true)).is_ok());

    dis.up("x".to_string(), STATUS_OUTPUT).unwrap();
    assert!(dis.down("x".to_string(), None).is_ok());
    // teardown cleared the endpoint
    let r = dis.get_url("x".to_string());
    assert_eq!(r, Err(ServicingError::ServiceDown("x".to_string())));
}

#[test]
fn get_url_and_list() {
    let mut dis = Dispatcher::new();
    let r = dis.get_url("missing".to_string());
    assert_eq!(r, Err(ServicingError::NotFound("missing".to_string())));

    dis.add_service("a".to_string(), None).unwrap();
    dis.add_service("b".to_string(), None).unwrap();
    let names = dis.list().unwrap();
    assert_eq!(names, vec!["a".to_string(), "b".to_string()]);
}

#[test]
fn bulk_recheck_marks_only_healthy_services() {
    let mut dis = Dispatcher::new();
    dis.add_service("a".to_string(), None).unwrap();
    dis.add_service("b".to_string(), None).unwrap();
    dis.up("a".to_string(), "endpoint 10.0.0.1:80 up").unwrap();
    dis.up("b".to_string(), "endpoint 10.0.0.2:80 up").unwrap();

    let work = dis.recheck_candidates();
    assert_eq!(work.len(), 2);
    assert_eq!(work[0], ("a".to_string(), "10.0.0.1:80/health".to_string()));
    assert_eq!(work[1], ("b".to_string(), "10.0.0.2:80/health".to_string()));

    // probe of a reports healthy, probe of b fails: only a is marked up
    assert!(dis.confirm_up(&"a".to_string()));

    assert!(dis.lookup(&"a".to_string()).unwrap().up);
    assert!(!dis.lookup(&"b".to_string()).unwrap().up);
    assert_eq!(dis.len(), 2);
    assert_eq!(dis.list().unwrap().len(), 2);
}

#[test]
fn monitor_completion_skips_torn_down_records() {
    let mut dis = Dispatcher::new();
    dis.add_service("x".to_string(), None).unwrap();
    dis.up("x".to_string(), STATUS_OUTPUT).unwrap();
    dis.down("x".to_string(), None).unwrap();
    // the monitor finishing late must not resurrect the torn-down record
    assert!(!dis.confirm_up(&"x".to_string()));
    assert!(!dis.lookup(&"x".to_string()).unwrap().up);
    // nor may it touch a removed record
    dis.remove_service("x".to_string()).unwrap();
    assert!(!dis.confirm_up(&"x".to_string()));
}

#[test]
fn status_self_heals_stale_records() {
    let mut dis = Dispatcher::new();
    dis.add_service("x".to_string(), None).unwrap();
    dis.up("x".to_string(), STATUS_OUTPUT).unwrap();
    dis.confirm_up(&"x".to_string());
    assert!(dis.lookup(&"x".to_string()).unwrap().up);

    // a probe that still reports "no ready replicas" flips the flag back
    let s = dis
        .status("x".to_string(), Some(ProbeOutcome::NotReady), None)
        .unwrap();
    assert!(s.contains("\"up\":false"));
    assert!(!dis.lookup(&"x".to_string()).unwrap().up);

    // a transport failure counts as unconfirmed too
    dis.confirm_up(&"x".to_string());
    dis.status("x".to_string(), Some(ProbeOutcome::TransportError), None)
        .unwrap();
    assert!(!dis.lookup(&"x".to_string()).unwrap().up);
}

#[test]
fn end_to_end_lifecycle() {
    let mut dis = Dispatcher::new();
    dis.add_service("svc".to_string(), Some(overlay_port_replicas_cloud()))
        .unwrap();

    let s = dis.status("svc".to_string(), None, None).unwrap();
    assert!(s.contains("\"up\":false"));
    assert!(s.contains("\"url\":null"));

    dis.up("svc".to_string(), STATUS_OUTPUT).unwrap();
    let rec = dis.lookup(&"svc".to_string()).unwrap();
    assert_eq!(rec.url.as_deref(), Some("10.0.0.5:8080"));
    assert!(!rec.up);

    dis.confirm_up(&"svc".to_string());
    let s = dis
        .status("svc".to_string(), Some(ProbeOutcome::Ready), None)
        .unwrap();
    assert!(s.contains("\"up\":true"));

    dis.down("svc".to_string(), None).unwrap();
    let rec = dis.lookup(&"svc".to_string()).unwrap();
    assert!(rec.url.is_none());
    assert!(!rec.up);

    dis.remove_service("svc".to_string()).unwrap();
    assert!(dis.lookup(&"svc".to_string()).is_none());
}

#[test]
fn status_snapshot_exact_text() {
    let mut dis = Dispatcher::new();
    dis.add_service("svc".to_string(), None).unwrap();
    let s = dis.status("svc".to_string(), None, None).unwrap();
    let expected = "{\"data\":null,\"template\":{\"service\":{\"readiness_probe\":\"/health\",\"replicas\":2},\"resources\":{\"ports\":8080,\"cloud\":\"aws\",\"cpus\":\"4+\",\"memory\":\"10+\",\"disk_size\":100},\"workdir\":\".\",\"setup\":\"conda install cudatoolkit -y\\npip install poetry\\npoetry install\\n\",\"run\":\"poetry run python service.py\\n\"},\"filepath\":\"svc_service.yaml\",\"url\":null,\"up\":false}";
    assert_eq!(s, expected);
}

#[test]
fn status_pretty_breaks_top_level_fields() {
    let mut dis = Dispatcher::new();
    dis.add_service("svc".to_string(), None).unwrap();
    let s = dis
        .status("svc".to_string(), None, Some(true))
        .unwrap();
    assert!(s.starts_with("{\n  \"data\":null,\n  \"template\":"));
    assert!(s.ends_with(",\n  \"up\":false\n}"));
}
