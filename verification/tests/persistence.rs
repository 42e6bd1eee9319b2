use servicing::dispatcher::Dispatcher;
use servicing::error::ServicingError;
use servicing::models::UserProvidedConfig;

fn sample_overlay() -> UserProvidedConfig {
    UserProvidedConfig::new(
        Some(9000),
        Some(3),
        Some("gcp".to_string()),
        Some("/srv".to_string()),
        None,
        Some(20),
        Some("8+".to_string()),
        None,
        Some("T4:1".to_string()),
        Some("pip install -r requirements.txt\n".to_string()),
        Some("python serve.py\n".to_string()),
    )
}

#[test]
fn save_load_round_trip() {
    let mut dis = Dispatcher::new();
    dis.add_service("alpha".to_string(), Some(sample_overlay())).unwrap();
    dis.add_service("beta".to_string(), None).unwrap();
    dis.up("beta".to_string(), "listening on 10.1.2.3:9999 now").unwrap();
    dis.confirm_up(&"beta".to_string());

    let bin = dis.save();

    let mut fresh = Dispatcher::new();
    fresh.load(&bin).unwrap();

    let names = fresh.list().unwrap();
    assert_eq!(names, vec!["alpha".to_string(), "beta".to_string()]);

    let alpha = fresh.lookup(&"alpha".to_string()).unwrap();
    assert_eq!(alpha.template.resources.ports, 9000);
    assert_eq!(alpha.template.service.replicas, 3);
    assert_eq!(alpha.template.resources.cloud, "gcp");
    assert_eq!(alpha.template.resources.accelerators.as_deref(), Some("T4:1"));
    assert_eq!(alpha.url, None);
    assert!(!alpha.up);

    let beta = fresh.lookup(&"beta".to_string()).unwrap();
    assert_eq!(beta.url.as_deref(), Some("10.1.2.3:9999"));
    assert!(beta.up);
}

#[test]
fn text_round_trip_matches_binary_round_trip() {
    let mut dis = Dispatcher::new();
    dis.add_service("alpha".to_string(), Some(sample_overlay())).unwrap();
    dis.add_service("beta".to_string(), None).unwrap();

    let bin = dis.save();
    let text = dis.save_as_b64().unwrap();

    let mut from_bin = Dispatcher::new();
    from_bin.load(&bin).unwrap();
    let mut from_text = Dispatcher::new();
    from_text.load_from_b64(text).unwrap();

    // both restores serialize back to identical bytes
    assert_eq!(from_bin.save(), from_text.save());
    assert_eq!(from_bin.save(), bin);
}

#[test]
fn load_overwrites_existing_entries() {
    let mut dis = Dispatcher::new();
    dis.add_service("svc".to_string(), Some(sample_overlay())).unwrap();
    let bin = dis.save();

    let mut other = Dispatcher::new();
    other.add_service("svc".to_string(), None).unwrap();
    assert_eq!(
        other.lookup(&"svc".to_string()).unwrap().template.resources.ports,
        8080
    );
    other.load(&bin).unwrap();
    // the freshly loaded record won
    assert_eq!(
        other.lookup(&"svc".to_string()).unwrap().template.resources.ports,
        9000
    );
    assert_eq!(other.list().unwrap().len(), 1);
}

#[test]
fn unicode_fields_survive_the_round_trip() {
    let overlay = UserProvidedConfig::new(
        None,
        None,
        Some("云☃ -- ünïcode".to_string()),
        None,
        None,
        None,
        None,
        None,
        None,
        None,
        None,
    );
    let mut dis = Dispatcher::new();
    dis.add_service("ünì".to_string(), Some(overlay)).unwrap();
    let text = dis.save_as_b64().unwrap();

    let mut fresh = Dispatcher::new();
    fresh.load_from_b64(text).unwrap();
    let rec = fresh.lookup(&"ünì".to_string()).unwrap();
    assert_eq!(rec.template.resources.cloud, "云☃ -- ünïcode");
}

#[test]
fn empty_registry_armours_to_known_text() {
    let dis = Dispatcher::new();
    // eight zero length bytes under the standard base64 alphabet
    assert_eq!(dis.save_as_b64().unwrap(), "AAAAAAAAAAA=");
}

#[test]
fn blob_claiming_up_without_endpoint_is_rejected() {
    let mut good = Dispatcher::new();
    good.add_service("svc".to_string(), None).unwrap();
    let mut bytes = good.save();
    // the record ends with the url tag (absent) and the up flag: forging the
    // up flag on an endpoint-less record must not get past the decoder
    let last = bytes.len() - 1;
    assert_eq!(bytes[last], 0);
    bytes[last] = 1;
    let mut dis = Dispatcher::new();
    let r = dis.load(&bytes);
    assert!(matches!(r, Err(ServicingError::Serialization(_))));
    assert_eq!(dis.list().unwrap().len(), 0);
}

#[test]
fn corrupt_blobs_are_rejected() {
    let mut dis = Dispatcher::new();
    let r = dis.load(&vec![1u8, 2, 3]);
    assert!(matches!(r, Err(ServicingError::Serialization(_))));
    assert_eq!(dis.list().unwrap().len(), 0);

    let r = dis.load_from_b64("this is not base64!!!".to_string());
    assert!(matches!(r, Err(ServicingError::Serialization(_))));

    // valid armour around a corrupt blob is also rejected
    let r = dis.load_from_b64("AQID".to_string());
    assert!(matches!(r, Err(ServicingError::Serialization(_))));

    // trailing bytes after a well-formed registry are rejected
    let mut good = Dispatcher::new();
    good.add_service("svc".to_string(), None).unwrap();
    let mut bytes = good.save();
    bytes.push(0);
    let r = dis.load(&bytes);
    assert!(matches!(r, Err(ServicingError::Serialization(_))));
}
