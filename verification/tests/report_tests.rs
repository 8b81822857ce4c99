use device_reconcile::report::render_csv;
use device_reconcile::MappedDevice;

fn row(developer_url: &str, solar_url: Option<&str>) -> MappedDevice {
    MappedDevice {
        developer_url: developer_url.to_string(),
        solar_url: solar_url.map(|s| s.to_string()),
    }
}

#[test]
fn render_writes_header_and_rows_in_order() {
    let rows = vec![
        row("/d/alpha", Some("/devices/1/")),
        row("/d/beta", None),
    ];
    let text = render_csv(&rows);
    assert_eq!(text, "developer_url,solar_url\n/d/alpha,/devices/1/\n/d/beta,\n");
}

#[test]
fn render_of_empty_mapping_is_just_the_header() {
    let rows: Vec<MappedDevice> = Vec::new();
    assert_eq!(render_csv(&rows), "developer_url,solar_url\n");
}

#[test]
fn fields_with_specials_are_quoted_and_escaped() {
    let rows = vec![row("a,b", Some("say \"hi\""))];
    let text = render_csv(&rows);
    assert_eq!(text, "developer_url,solar_url\n\"a,b\",\"say \"\"hi\"\"\"\n");
}

#[test]
fn round_trip_through_csv_reader_preserves_rows() {
    let rows = vec![
        row("/d/alpha", Some("/devices/1/")),
        row("/d/with,comma", Some("quote \"q\" and\nnewline")),
        row("/d/beta", None),
    ];
    let text = render_csv(&rows);
    let mut reader = csv::ReaderBuilder::new().has_headers(true).from_reader(text.as_bytes());
    let headers = reader.headers().unwrap().clone();
    assert_eq!(&headers[0], "developer_url");
    assert_eq!(&headers[1], "solar_url");
    let records: Vec<csv::StringRecord> = reader.records().map(|r| r.unwrap()).collect();
    assert_eq!(records.len(), rows.len());
    for (record, original) in records.iter().zip(rows.iter()) {
        assert_eq!(&record[0], original.developer_url.as_str());
        assert_eq!(&record[1], original.solar_url.as_deref().unwrap_or(""));
    }
}

#[test]
fn catalog_request_values_are_fixed() {
    let body = device_reconcile::catalog::catalog_query_body();
    assert_eq!(body, "{\"query\":\"query { devices { id name } }\"}");
    let endpoint = device_reconcile::catalog::catalog_endpoint_url();
    assert_eq!(endpoint, "https://graphql.api.keil.arm.com/");
}
