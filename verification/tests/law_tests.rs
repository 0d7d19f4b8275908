use odata_core::resource::FilterOperation;
use odata_core::resource::ODataFormat;
use odata_core::resource::ODataMetaData;
use odata_core::resource::ODataResource;
use odata_core::resource::ServiceDocument;
use odata_core::resource::ServiceDocumentValue;
use odata_core::value::DecimalValue;
use odata_core::value::Key;
use odata_core::value::Value;

#[test]
fn path_keys_round_trip_through_rendering() {
    let urls = [
        "People('russellwhyte')",
        "People('O''Neil')",
        "Categories(17)",
        "Categories(-3)",
        "ProductsByColor(color=@color)",
        "ProductsByColor(color='red')",
        "Products(code=42)",
    ];
    for url in urls {
        let first = ODataResource::try_from(url).expect("parse");
        let rendered = first.entity.to_path_text();
        assert_eq!(rendered, *url);
        let second = ODataResource::try_from(&rendered).expect("reparse");
        assert_eq!(first.entity, second.entity);
    }
}

#[test]
fn percent_decoding_is_idempotent_for_parsing() {
    let encoded = ODataResource::try_from("People%28%27O%27%27Neil%27%29").expect("parse");
    let plain = ODataResource::try_from("People('O''Neil')").expect("parse");
    assert_eq!(encoded.entity, plain.entity);

    let raw = "People('russellwhyte')";
    let re_encoded: String =
        percent_encoding::utf8_percent_encode(raw, percent_encoding::CONTROLS).to_string();
    let first = ODataResource::try_from(raw).expect("parse");
    let second = ODataResource::try_from(&re_encoded).expect("parse re-encoded");
    assert_eq!(first.entity, second.entity);
}

#[test]
fn decimal_values_render_exactly() {
    assert_eq!(Value::Decimal(DecimalValue { mantissa: 255, scale: 2 }).to_text(), "2.55");
    assert_eq!(Value::Decimal(DecimalValue { mantissa: -255, scale: 2 }).to_text(), "-2.55");
    assert_eq!(Value::Decimal(DecimalValue { mantissa: 5, scale: 3 }).to_text(), "0.005");
    assert_eq!(Value::Decimal(DecimalValue { mantissa: 250, scale: 2 }).to_text(), "2.50");
    assert_eq!(Value::Decimal(DecimalValue { mantissa: 7, scale: 0 }).to_text(), "7");
}

#[test]
fn key_display_forms() {
    assert_eq!(Key::String("abc".to_string()).to_text(), "abc");
    assert_eq!(Key::Number(-12).to_text(), "-12");
    assert_eq!(
        Key::KeyValue(("color".to_string(), Value::QueryOption("c".to_string()))).to_text(),
        "color=@c"
    );
    assert_eq!(Key::String("O'Neil".to_string()).to_path_text(), "'O''Neil'");
}

#[test]
fn format_parameter_values_are_recognized() {
    assert_eq!(ODataMetaData::from("none"), ODataMetaData::NoMetadata);
    assert_eq!(ODataMetaData::from("minimal"), ODataMetaData::Minimal);
    assert_eq!(ODataMetaData::from("full"), ODataMetaData::Full);
    assert_eq!(ODataMetaData::from("bogus"), ODataMetaData::Minimal);

    let f = ODataFormat::from("application/xml;metadata=full;streaming=true;format=text/plain");
    assert_eq!(f.format, "text/plain");
    assert_eq!(f.metadata, ODataMetaData::Full);
    assert!(f.streaming);

    let d = ODataFormat::default();
    assert_eq!(d.format, "application/json");
    assert_eq!(d.metadata, ODataMetaData::Minimal);
    assert!(!d.streaming);
}

#[test]
fn service_document_entries_become_resource_stubs() {
    let value = ServiceDocumentValue {
        name: "Me".to_string(),
        kind: Some("Singleton".to_string()),
        url: "Me".to_string(),
        title: None,
    };
    let resource = ODataResource::from(value);
    assert_eq!(resource.entity.name, "Me");
    assert_eq!(resource.kind, odata_core::resource::ODataResourceKind::Singleton);
    assert_eq!(resource.url, "Me");
}

#[test]
fn enriching_an_endpoint_registers_its_resources() {
    let mut endpoint =
        odata_core::endpoint::ODataEndpoint::new("http://services.odata.org", Some("V4"), "TripPinService");
    let document = ServiceDocument {
        context: "http://services.odata.org/V4/TripPinService/$metadata".to_string(),
        value: vec![
            ServiceDocumentValue {
                name: "Photos".to_string(),
                kind: Some("EntitySet".to_string()),
                url: "Photos".to_string(),
                title: None,
            },
            ServiceDocumentValue {
                name: "Me".to_string(),
                kind: Some("Singleton".to_string()),
                url: "Me".to_string(),
                title: None,
            },
            ServiceDocumentValue {
                name: "GetNearestAirport".to_string(),
                kind: Some("FunctionImport".to_string()),
                url: "GetNearestAirport".to_string(),
                title: None,
            },
        ],
    };
    endpoint.enrich(document);
    assert_eq!(
        endpoint.odata_context,
        Some("http://services.odata.org/V4/TripPinService/$metadata".to_string())
    );
    assert_eq!(endpoint.resources.len(), 3);
    assert_eq!(endpoint.resources[0].entity.name, "Photos");
    assert_eq!(endpoint.resources[1].kind, odata_core::resource::ODataResourceKind::Singleton);
    assert_eq!(
        endpoint.resources[2].kind,
        odata_core::resource::ODataResourceKind::FunctionImport
    );
}

#[test]
fn parse_url_strips_the_endpoint_base() {
    let endpoint =
        odata_core::endpoint::ODataEndpoint::new("http://services.odata.org", Some("V4"), "TripPinService");
    let url = "http://services.odata.org/V4/TripPinService/People('O''Neil')";
    let resource = odata_core::endpoint::parse_url(&endpoint, url)
        .expect("Failed to create a resource from the URL");
    assert_eq!(resource.entity.name, "People");
    assert_eq!(resource.entity.key.unwrap().to_text(), "O'Neil");
}

#[test]
fn literal_values_are_classified_in_priority_order() {
    let url = "Products?$filter=A eq '5' and B eq 5 and C eq true and D eq 2.5 and E eq word";
    let resource = ODataResource::try_from(url).expect("parse");
    let ops: Vec<&FilterOperation> = resource
        .filters
        .contents()
        .iter()
        .map(|p| &p.0.contents().unwrap().operation)
        .collect();
    assert_eq!(ops[0], &FilterOperation::Eq(Value::String("5".to_string())));
    assert_eq!(ops[1], &FilterOperation::Eq(Value::Integer(5)));
    assert_eq!(ops[2], &FilterOperation::Eq(Value::Boolean(true)));
    assert_eq!(
        ops[3],
        &FilterOperation::Eq(Value::Decimal(DecimalValue { mantissa: 25, scale: 1 }))
    );
    assert_eq!(ops[4], &FilterOperation::Eq(Value::String("word".to_string())));
}
