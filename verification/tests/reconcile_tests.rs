use device_reconcile::{map_devices, DeveloperDevice, SolarDevice};

fn solar(id: &str, name: &str) -> SolarDevice {
    SolarDevice { id: id.to_string(), name: name.to_string() }
}

fn developer(vendor: &str, name: &str, url: &str) -> DeveloperDevice {
    DeveloperDevice { vendor: vendor.to_string(), name: name.to_string(), url: url.to_string() }
}

#[test]
fn reconcile_preserves_order_and_length() {
    let solar_devices = vec![solar("1", "Alpha"), solar("2", "Beta")];
    let developer_devices = vec![
        developer("V", "Beta", "/d/beta"),
        developer("V", "Gamma", "/d/gamma"),
        developer("W", "Alpha", "/d/alpha"),
    ];
    let mapped = map_devices(solar_devices, developer_devices);
    assert_eq!(mapped.len(), 3);
    assert_eq!(mapped[0].developer_url, "/d/beta");
    assert_eq!(mapped[1].developer_url, "/d/gamma");
    assert_eq!(mapped[2].developer_url, "/d/alpha");
}

#[test]
fn unmatched_device_has_absent_solar_url() {
    let solar_devices = vec![solar("1", "Alpha")];
    let developer_devices = vec![developer("V", "Gamma", "/d/gamma")];
    let mapped = map_devices(solar_devices, developer_devices);
    assert_eq!(mapped.len(), 1);
    assert!(mapped[0].solar_url.is_none());
}

#[test]
fn unique_match_links_product_url() {
    let solar_devices = vec![solar("7", "Alpha"), solar("9", "Beta")];
    let developer_devices = vec![developer("V", "Beta", "/d/beta")];
    let mapped = map_devices(solar_devices, developer_devices);
    assert_eq!(mapped[0].solar_url.as_deref(), Some("/devices/9/"));
}

#[test]
fn duplicate_names_first_match_wins() {
    let solar_devices = vec![solar("1", "Alpha"), solar("2", "Alpha")];
    let developer_devices = vec![developer("V", "Alpha", "/d/alpha")];
    let mapped = map_devices(solar_devices, developer_devices);
    assert_eq!(mapped[0].solar_url.as_deref(), Some("/devices/1/"));
}

#[test]
fn api_single_device_maps_to_expected_row() {
    let body = "[{\"id\":\"42\",\"name\":\"Model-X\"}]";
    let parsed: serde_json::Value = serde_json::from_str(body).unwrap();
    let mut solar_devices = Vec::new();
    for entry in parsed.as_array().unwrap() {
        solar_devices.push(SolarDevice {
            id: entry.get("id").unwrap().as_str().unwrap().to_string(),
            name: entry.get("name").unwrap().as_str().unwrap().to_string(),
        });
    }
    let developer_devices = vec![developer(
        "Acme Inc",
        "Model-X",
        "/embedded/cmsis/cmsis-packs/devices/AcmeInc/Model_X",
    )];
    let mapped = map_devices(solar_devices, developer_devices);
    assert_eq!(mapped.len(), 1);
    assert_eq!(mapped[0].developer_url, "/embedded/cmsis/cmsis-packs/devices/AcmeInc/Model_X");
    assert_eq!(mapped[0].solar_url.as_deref(), Some("/devices/42/"));
}

#[test]
fn empty_catalog_leaves_every_row_absent() {
    let solar_devices: Vec<SolarDevice> = Vec::new();
    let developer_devices = vec![
        developer("V", "Alpha", "/d/alpha"),
        developer("V", "Beta", "/d/beta"),
    ];
    let mapped = map_devices(solar_devices, developer_devices);
    assert_eq!(mapped.len(), 2);
    assert!(mapped[0].solar_url.is_none());
    assert!(mapped[1].solar_url.is_none());
}

#[test]
fn solar_device_url_is_built_from_id() {
    let device = solar("42", "Model-X");
    assert_eq!(device.url(), "/devices/42/");
}
