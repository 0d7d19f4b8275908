use odata_core::endpoint::ODataEndpoint;
use odata_core::resource::ODataResource;
use odata_core::resource::Operation;
use odata_core::value::Key;

#[test]
fn tests_can_construct_an_url_from_and_endpoint() {
    let endpoint = ODataEndpoint::new("http://services.odata.org", Some("V4"), "TripPinService");
    let url = url::Url::parse(&endpoint.url_string()).expect("Failed to construct an URL from the endpoint");
    assert_eq!(url.as_str(), "http://services.odata.org/V4/TripPinService/");
}

#[test]
fn tests_can_create_a_resource_from_a_url() {
    let url = "People('russellwhyte')";
    let resource = ODataResource::try_from(url).expect("Failed to create a resource from the URL");
    assert_eq!(resource.entity.name, "People");
    assert_eq!(resource.entity.key.unwrap().to_text(), "russellwhyte")
}

#[test]
fn tests_can_create_a_resource_from_a_url_with_quotes() {
    let url = "People('O''Neil')";
    let resource = ODataResource::try_from(url).expect("Failed to create a resource from the URL");
    assert_eq!(resource.entity.name, "People");
    assert_eq!(resource.entity.key.unwrap().to_text(), "O'Neil")
}

#[test]
fn tests_can_create_a_resource_from_a_url_with_escaped_characters() {
    let url = "People%28%27O%27%27Neil%27%29";
    let resource = ODataResource::try_from(url).expect("Failed to create a resource from the URL");
    assert_eq!(resource.entity.name, "People");
    assert_eq!(resource.entity.key.unwrap().to_text(), "O'Neil")
}

#[test]
fn tests_can_create_a_resource_from_a_url_with_a_numeric_key() {
    let url = "Categories(1)";
    let resource = ODataResource::try_from(url).expect("Failed to create a resource from the URL");
    assert_eq!(resource.entity.name, "Categories");
    assert_eq!(resource.entity.key.unwrap().to_text(), "1")
}

#[test]
fn tests_can_create_a_resource_from_a_url_with_a_query_option() {
    let url = "ProductsByColor(color=@color)?@color='red'";
    let resource = ODataResource::try_from(url).expect("Failed to create a resource from the URL");
    assert_eq!(resource.entity.name, "ProductsByColor");
    let key = resource.entity.key.unwrap();
    assert_eq!(key.to_text(), "color=@color");
    if let Key::KeyValue((key, value)) = key {
        assert_eq!(key, "color");
        assert_eq!(value.to_text(), "@color");
    }
}

#[test]
fn tests_can_create_a_resource_from_a_url_with_a_property() {
    let url = "People('russellwhyte')/FirstName";
    let resource = ODataResource::try_from(url).expect("Failed to create a resource from the URL");
    assert_eq!(resource.entity.name, "People");
    assert_eq!(resource.entity.key.unwrap().to_text(), "russellwhyte");
    assert_eq!(resource.property.unwrap(), "FirstName");
    assert!(resource.operation.is_none());
}

#[test]
fn tests_can_create_a_resource_from_a_url_with_a_property_value() {
    let url = "People('russellwhyte')/FirstName/$value";
    let resource = ODataResource::try_from(url).expect("Failed to create a resource from the URL");
    assert_eq!(resource.entity.name, "People");
    assert_eq!(resource.entity.key.unwrap().to_text(), "russellwhyte");
    assert_eq!(resource.property.unwrap(), "FirstName");
    assert_eq!(resource.operation.unwrap(), Operation::Value);
}

#[test]
fn tests_can_create_a_resource_from_a_url_with_a_count_operation() {
    let url = "People/$count";
    let resource = ODataResource::try_from(url).expect("Failed to create a resource from the URL");
    assert_eq!(resource.entity.name, "People");
    assert_eq!(resource.operation.unwrap(), Operation::Count);
}

#[test]
fn tests_can_create_a_resource_from_a_url_with_related_entities() {
    let url = "People('russellwhyte')/Friends('scottketchum')/AddressInfo";
    let resource = ODataResource::try_from(url).expect("Failed to create a resource from the URL");
    assert_eq!(resource.entity.name, "People");
    assert_eq!(resource.relationships.len(), 1);
    let relationship = &resource.relationships[0];
    assert_eq!(relationship.name, "Friends");
    assert_eq!(relationship.key.as_ref().unwrap().to_text(), "scottketchum");
    assert_eq!(resource.property.unwrap(), "AddressInfo");
}

#[test]
fn tests_can_create_a_resource_from_a_url_with_a_search_operation() {
    let url = "People?$search=russellwhyte";
    let resource = ODataResource::try_from(url).expect("Failed to create a resource from the URL");
    assert_eq!(resource.entity.name, "People");
    assert_eq!(resource.search.unwrap(), "russellwhyte");
}

#[test]
fn can_create_a_resource_from_a_url_with_format() {
    let url = "People?$format=application/json;odata.metadata=minimal;odata.streaming=true";
    let resource = ODataResource::try_from(url).expect("Failed to create a resource from the URL");
    assert_eq!(resource.entity.name, "People");
    assert_eq!(resource.requested_format.format, "application/json");
    assert_eq!(resource.requested_format.metadata, odata_core::resource::ODataMetaData::Minimal);
    assert!(resource.requested_format.streaming);
}

#[test]
fn can_parse_correct_top_and_skip_values() {
    let url = "People?$top=10&$skip=20";
    let resource = ODataResource::try_from(url).expect("Failed to create a resource from the URL");
    assert_eq!(resource.top, Some(10));
    assert_eq!(resource.skip, Some(20));
}

#[test]
fn can_detect_invalid_top_or_skip_values() {
    let url = "People?$top=-10&$skip=20";
    let resource = ODataResource::try_from(url);
    assert!(resource.is_err());

    let url = "People?$top=10&$skip=-20";
    let resource = ODataResource::try_from(url);
    assert!(resource.is_err());
}

#[test]
fn can_parse_orderby() {
    let url = "People?$orderby=BaseRate asc";
    let resource = ODataResource::try_from(url).expect("Failed to create a resource from the URL");
    assert_eq!(resource.order_by.len(), 1);
    let entry = &resource.order_by[0];
    assert_eq!(entry.field, "BaseRate");
    assert_eq!(entry.direction, odata_core::resource::OrderByDirection::Asc);
}

#[test]
fn can_parse_orderby_with_two_fields() {
    let url = "People?$orderby=Rating desc,BaseRate";
    let resource = ODataResource::try_from(url).expect("Failed to create a resource from the URL");
    assert_eq!(resource.order_by.len(), 2);
    let entry = &resource.order_by[0];
    assert_eq!(entry.field, "Rating");
    assert_eq!(entry.direction, odata_core::resource::OrderByDirection::Desc);

    let entry = &resource.order_by[1];
    assert_eq!(entry.field, "BaseRate");
    assert_eq!(entry.direction, odata_core::resource::OrderByDirection::Asc);
}

#[test]
fn an_operation_terminates_path_processing() {
    let url = "People/$count/Extra";
    let resource = ODataResource::try_from(url).expect("Failed to create a resource from the URL");
    assert_eq!(resource.entity.name, "People");
    assert_eq!(resource.operation.unwrap(), Operation::Count);
    assert!(resource.property.is_none());
    assert!(resource.relationships.is_empty());
}

#[test]
fn every_path_segment_is_decoded_individually() {
    let url = "People('russellwhyte')/First%20Name";
    let resource = ODataResource::try_from(url).expect("Failed to create a resource from the URL");
    assert_eq!(resource.property.unwrap(), "First Name");

    let url = "People/%24count";
    let resource = ODataResource::try_from(url).expect("Failed to create a resource from the URL");
    assert_eq!(resource.operation.unwrap(), Operation::Count);
}
