use device_reconcile::{
    scrape_developer_devices, ScrapeError, _sanitise_device_name, _sanitise_vendor_name,
};
use device_reconcile::device::_build_device_url;
use device_reconcile::scrape::devices_from_groups;
use device_reconcile::VendorGroup;

#[test]
fn acme_model_x_scrapes_to_sanitized_url() {
    let html = "<html><body><div class=\"App-intro\"><div><div>\
        <a class=\"expander-link\"><h3>Acme Inc</h3></a>\
        <button class=\"device-button\">Model-X</button>\
        </div></div></div></body></html>";
    let devices = scrape_developer_devices(html).unwrap();
    assert_eq!(devices.len(), 1);
    assert_eq!(devices[0].vendor, "Acme Inc");
    assert_eq!(devices[0].name, "Model-X");
    assert_eq!(devices[0].url, "/embedded/cmsis/cmsis-packs/devices/AcmeInc/Model_X");
}

#[test]
fn group_without_heading_contributes_nothing() {
    let html = "<html><body><div class=\"App-intro\"><div>\
        <div><button class=\"device-button\">Orphan</button></div>\
        <div><a class=\"expander-link\"><h3>Acme Inc</h3></a>\
        <button class=\"device-button\">Model-X</button></div>\
        </div></div></body></html>";
    let devices = scrape_developer_devices(html).unwrap();
    assert_eq!(devices.len(), 1);
    assert_eq!(devices[0].name, "Model-X");
}

#[test]
fn device_button_without_text_is_fatal() {
    let html = "<html><body><div class=\"App-intro\"><div><div>\
        <a class=\"expander-link\"><h3>Acme Inc</h3></a>\
        <button class=\"device-button\"></button>\
        </div></div></div></body></html>";
    let result = scrape_developer_devices(html);
    assert_eq!(result.unwrap_err(), ScrapeError::MissingDeviceText);
}

#[test]
fn devices_concatenated_in_document_order() {
    let html = "<html><body><div class=\"App-intro\"><div>\
        <div><a class=\"expander-link\"><h3>First Vendor</h3></a>\
        <button class=\"device-button\">A-1</button>\
        <button class=\"device-button\">A-2</button></div>\
        <div><a class=\"expander-link\"><h3>Second Vendor</h3></a>\
        <button class=\"device-button\">B-1</button></div>\
        </div></div></body></html>";
    let devices = scrape_developer_devices(html).unwrap();
    assert_eq!(devices.len(), 3);
    assert_eq!(devices[0].name, "A-1");
    assert_eq!(devices[0].vendor, "First Vendor");
    assert_eq!(devices[0].url, "/embedded/cmsis/cmsis-packs/devices/FirstVendor/A_1");
    assert_eq!(devices[1].name, "A-2");
    assert_eq!(devices[2].name, "B-1");
    assert_eq!(devices[2].vendor, "Second Vendor");
}

#[test]
fn groups_without_heading_skipped_with_heading_kept() {
    let groups = vec![
        VendorGroup { heading: None, device_texts: vec![Some("Ignored".to_string())] },
        VendorGroup {
            heading: Some("Acme Inc".to_string()),
            device_texts: vec![Some("Model-X".to_string()), Some("Model-Y".to_string())],
        },
    ];
    let devices = devices_from_groups(groups).unwrap();
    assert_eq!(devices.len(), 2);
    assert_eq!(devices[0].url, "/embedded/cmsis/cmsis-packs/devices/AcmeInc/Model_X");
    assert_eq!(devices[1].url, "/embedded/cmsis/cmsis-packs/devices/AcmeInc/Model_Y");
}

#[test]
fn group_with_unlabelled_device_is_fatal() {
    let groups = vec![VendorGroup {
        heading: Some("Acme Inc".to_string()),
        device_texts: vec![Some("Model-X".to_string()), None],
    }];
    assert_eq!(devices_from_groups(groups).unwrap_err(), ScrapeError::MissingDeviceText);
}

#[test]
fn sanitise_device_name_replaces_hyphens() {
    assert_eq!(_sanitise_device_name("Model-X".to_string()), "Model_X");
    assert_eq!(_sanitise_device_name("a-b-c".to_string()), "a_b_c");
}

#[test]
fn sanitise_vendor_name_strips_whitespace() {
    assert_eq!(_sanitise_vendor_name("Acme Inc".to_string()), "AcmeInc");
    assert_eq!(_sanitise_vendor_name(" a\tb\nc ".to_string()), "abc");
}

#[test]
fn sanitisation_is_idempotent_on_sanitized_input() {
    assert_eq!(_sanitise_device_name("Model_X".to_string()), "Model_X");
    assert_eq!(_sanitise_vendor_name("AcmeInc".to_string()), "AcmeInc");
    let url = _build_device_url("Model_X".to_string(), "AcmeInc".to_string());
    let again = _build_device_url(
        _sanitise_device_name("Model_X".to_string()),
        _sanitise_vendor_name("AcmeInc".to_string()),
    );
    assert_eq!(url, again);
    assert_eq!(url, "/embedded/cmsis/cmsis-packs/devices/AcmeInc/Model_X");
}
