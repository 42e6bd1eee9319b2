use servicing::models::{test_config, Configuration, UserProvidedConfig};

#[test]
fn defaults_are_the_documented_template() {
    let c = Configuration::default();
    assert_eq!(c.service.readiness_probe, "/health");
    assert_eq!(c.service.replicas, 2);
    assert_eq!(c.resources.ports, 8080);
    assert_eq!(c.resources.cloud, "aws");
    assert_eq!(c.resources.cpus, "4+");
    assert_eq!(c.resources.memory, "10+");
    assert_eq!(c.resources.disk_size, 100);
    assert_eq!(c.resources.accelerators, None);
    assert_eq!(c.workdir, ".");
    assert_eq!(
        c.setup,
        "conda install cudatoolkit -y\npip install poetry\npoetry install\n"
    );
    assert_eq!(c.run, "poetry run python service.py\n");
}

#[test]
fn overlay_replaces_exactly_the_set_fields() {
    let mut c = Configuration::default();
    let o = UserProvidedConfig::new(
        Some(1234),
        None,
        Some("azure".to_string()),
        None,
        Some("payload".to_string()),
        Some(25),
        None,
        Some("32+".to_string()),
        Some("A100:2".to_string()),
        None,
        Some("python app.py\n".to_string()),
    );
    c.update(&o);
    // fields the overlay set
    assert_eq!(c.resources.ports, 1234);
    assert_eq!(c.resources.cloud, "azure");
    assert_eq!(c.resources.disk_size, 25);
    assert_eq!(c.resources.memory, "32+");
    assert_eq!(c.resources.accelerators.as_deref(), Some("A100:2"));
    assert_eq!(c.run, "python app.py\n");
    // fields it left alone keep their previous values
    assert_eq!(c.service.replicas, 2);
    assert_eq!(c.resources.cpus, "4+");
    assert_eq!(c.workdir, ".");
    assert_eq!(
        c.setup,
        "conda install cudatoolkit -y\npip install poetry\npoetry install\n"
    );
    // the readiness-probe path is never overlaid
    assert_eq!(c.service.readiness_probe, "/health");
}

#[test]
fn empty_overlay_changes_nothing() {
    let mut c = Configuration::default();
    let o = UserProvidedConfig::new(
        None, None, None, None, None, None, None, None, None, None, None,
    );
    c.update(&o);
    let d = Configuration::default();
    assert_eq!(c.resources.ports, d.resources.ports);
    assert_eq!(c.service.replicas, d.service.replicas);
    assert_eq!(c.resources.cloud, d.resources.cloud);
    assert_eq!(c.workdir, d.workdir);
    assert_eq!(c.setup, d.setup);
    assert_eq!(c.run, d.run);
}

#[test]
fn overlay_is_idempotent_per_field() {
    let mut once = Configuration::default();
    let mut twice = Configuration::default();
    let o = UserProvidedConfig::new(
        Some(9999),
        Some(7),
        None,
        Some("/work".to_string()),
        None,
        None,
        None,
        None,
        None,
        None,
        None,
    );
    once.update(&o);
    twice.update(&o);
    twice.update(&o);
    assert_eq!(once.resources.ports, twice.resources.ports);
    assert_eq!(once.service.replicas, twice.service.replicas);
    assert_eq!(once.workdir, twice.workdir);
}

#[test]
fn fixed_test_configuration_values() {
    let c = test_config();
    assert_eq!(c.service.readiness_probe, "/");
    assert_eq!(c.service.replicas, 1);
    assert_eq!(c.resources.ports, 8080);
    assert_eq!(c.resources.disk_size, 50);
    assert_eq!(c.setup, "");
    assert_eq!(c.run, "python -m http.server 8080\n");
    let m = Configuration::test_config();
    assert_eq!(m.resources.disk_size, 50);
}
