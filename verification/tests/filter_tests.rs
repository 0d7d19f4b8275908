use odata_core::resource::Chain;
use odata_core::resource::FieldFilterContents;
use odata_core::resource::FilterOperation;
use odata_core::resource::ODataResource;
use odata_core::value::DecimalValue;
use odata_core::value::Value;

#[test]
fn tests_can_create_a_resource_from_a_url_with_a_filter_eq_operation() {
    let url = "Products?$filter=Name eq 'Milk'";
    let resource = ODataResource::try_from(url).expect("Failed to create a resource from the URL");
    assert_eq!(resource.entity.name, "Products");
    assert_eq!(resource.filters.len(), 1);
    let (filter, _) = &resource.filters.contents()[0];
    let contents = filter.contents().unwrap();
    assert_eq!(contents.field, "Name");
    assert_eq!(
        contents.operation,
        FilterOperation::Eq(Value::String("Milk".to_string()))
    );
}

#[test]
fn tests_can_create_a_resource_from_a_url_with_a_filter_ne_operation() {
    let url = "Products?$filter=Name ne 'Milk'";
    let resource = ODataResource::try_from(url).expect("Failed to create a resource from the URL");
    assert_eq!(resource.entity.name, "Products");
    assert_eq!(resource.filters.len(), 1);
    let (filter, _) = &resource.filters.contents()[0];
    let contents = filter.contents().unwrap();
    assert_eq!(contents.field, "Name");
    assert_eq!(
        contents.operation,
        FilterOperation::Ne(Value::String("Milk".to_string()))
    );
}

#[test]
fn tests_can_create_a_resource_from_a_url_with_a_filter_eq_and_lt_operation() {
    let url = "Products?$filter=Name eq 'Milk' and Price lt 2.55";
    let resource = ODataResource::try_from(url).expect("Failed to create a resource from the URL");
    assert_eq!(resource.entity.name, "Products");
    assert_eq!(resource.filters.len(), 2);
    let (filter, chain) = &resource.filters.contents()[0];
    let contents = filter.contents().unwrap();
    assert_eq!(contents.field, "Name");
    assert_eq!(
        contents.operation,
        FilterOperation::Eq(Value::String("Milk".to_string()))
    );
    assert_eq!(chain, &Some(Chain::And));
    let (filter, _) = &resource.filters.contents()[1];
    let contents = filter.contents().unwrap();
    assert_eq!(contents.field, "Price");
    assert_eq!(
        contents.operation,
        FilterOperation::Lt(Value::Decimal(DecimalValue { mantissa: 255, scale: 2 }))
    );
}

#[test]
fn tests_can_create_a_resource_from_a_url_with_a_filter_eq_or_lt_operation() {
    let url = "Products?$filter=Name eq 'Milk' or Price lt 2.55";
    let resource = ODataResource::try_from(url).expect("Failed to create a resource from the URL");
    assert_eq!(resource.entity.name, "Products");
    assert_eq!(resource.filters.len(), 2);
    let (filter, chain) = &resource.filters.contents()[0];
    let contents = filter.contents().unwrap();
    assert_eq!(contents.field, "Name");
    assert_eq!(chain, &Some(Chain::Or));
    assert_eq!(
        contents.operation,
        FilterOperation::Eq(Value::String("Milk".to_string()))
    );
    let (filter, _chain) = &resource.filters.contents()[1];
    let contents = filter.contents().unwrap();
    assert_eq!(contents.field, "Price");
    assert_eq!(
        contents.operation,
        FilterOperation::Lt(Value::Decimal(DecimalValue { mantissa: 255, scale: 2 }))
    );
}

#[test]
fn can_create_a_resource_from_a_url_with_a_space_in_value() {
    let url = "Products?$filter=Name eq 'Chocolate Milk'";
    let resource = ODataResource::try_from(url).expect("Failed to create a resource from the URL");
    assert_eq!(resource.entity.name, "Products");
    assert_eq!(resource.filters.len(), 1);
    let (filter, _) = &resource.filters.contents()[0];
    let contents = filter.contents().unwrap();
    assert_eq!(contents.field, "Name");
    assert_eq!(
        contents.operation,
        FilterOperation::Eq(Value::String("Chocolate Milk".to_string()))
    );
}

#[test]
fn can_create_a_resource_from_a_url_with_multiple_spaces_in_value() {
    let url = "Products?$filter=Name eq 'Very nice Chocolate Milk'";
    let resource = ODataResource::try_from(url).expect("Failed to create a resource from the URL");
    assert_eq!(resource.entity.name, "Products");
    assert_eq!(resource.filters.len(), 1);
    let (filter, _) = &resource.filters.contents()[0];
    let contents = filter.contents().unwrap();
    assert_eq!(contents.field, "Name");
    assert_eq!(
        contents.operation,
        FilterOperation::Eq(Value::String("Very nice Chocolate Milk".to_string()))
    );
}

#[test]
fn tests_can_create_a_resource_from_a_url_with_a_filter_in_operation() {
    let url = "Products?$filter=Name in ('Milk', 'Butter', 'Cheese')";
    let resource = ODataResource::try_from(url).expect("Failed to create a resource from the URL");
    assert_eq!(resource.entity.name, "Products");
    assert_eq!(resource.filters.len(), 1);
    let (filter, _chain) = &resource.filters.contents()[0];
    let contents = filter.contents().unwrap();
    assert_eq!(contents.field, "Name");
    assert_eq!(
        contents.operation,
        FilterOperation::In(vec![
            Value::String("Milk".to_string()),
            Value::String("Butter".to_string()),
            Value::String("Cheese".to_string())
        ])
    );
}

#[test]
fn tests_can_create_a_resource_from_a_url_with_a_filter_in_operation_wo_spaces() {
    let url = "Products?$filter=Name in ('Milk','Butter','Cheese')";
    let resource = ODataResource::try_from(url).expect("Failed to create a resource from the URL");
    assert_eq!(resource.entity.name, "Products");
    assert_eq!(resource.filters.len(), 1);
    let (filter, _chain) = &resource.filters.contents()[0];
    let contents = filter.contents().unwrap();
    assert_eq!(contents.field, "Name");
    assert_eq!(
        contents.operation,
        FilterOperation::In(vec![
            Value::String("Milk".to_string()),
            Value::String("Butter".to_string()),
            Value::String("Cheese".to_string())
        ])
    );
}

#[test]
fn tests_can_create_a_resource_from_a_url_with_a_filter_in_numbers() {
    let url = "Products?$filter=Price in (1,2,3)";
    let resource = ODataResource::try_from(url).expect("Failed to create a resource from the URL");
    assert_eq!(resource.entity.name, "Products");
    assert_eq!(resource.filters.len(), 1);
    let (filter, _chain) = &resource.filters.contents()[0];
    let contents = filter.contents().unwrap();
    assert_eq!(contents.field, "Price");
    assert_eq!(
        contents.operation,
        FilterOperation::In(vec![Value::Integer(1), Value::Integer(2), Value::Integer(3),])
    );
}

#[test]
fn tests_can_create_a_resource_from_a_url_with_a_not_function_filter() {
    let url = "Products?$filter=not endswith(Name,'ilk')";
    let resource = ODataResource::try_from(url).expect("Failed to create a resource from the URL");
    assert_eq!(resource.entity.name, "Products");
    assert_eq!(resource.filters.len(), 1);
    let (filter, _chain) = &resource.filters.contents()[0];
    let contents = filter.contents().unwrap();
    assert!(contents.not);
    assert_eq!(
        contents.operation,
        FilterOperation::Function("endswith(Name,'ilk')".to_string())
    );
}

#[test]
fn tests_can_create_a_resource_from_a_url_with_a_has_filter() {
    let url = "Products?$filter=style has Sales.Pattern'Yellow'";
    let resource = ODataResource::try_from(url).expect("Failed to create a resource from the URL");
    assert_eq!(resource.entity.name, "Products");
    assert_eq!(resource.filters.len(), 1);
    let (filter, _chain) = &resource.filters.contents()[0];
    let contents = filter.contents().unwrap();
    assert!(!contents.not);
    assert_eq!(contents.field, "style");
    assert_eq!(
        contents.operation,
        FilterOperation::Has("Sales.Pattern'Yellow'".to_string())
    );
}

#[test]
fn can_create_a_resource_with_a_logical_filter() {
    let url = "People?$filter=(not(contains(FirstName,'Q')) or (Gender eq Microsoft.OData.SampleService.Models.TripPin.PersonGender'Male')) and not(LastName eq 'Ketchum')";
    let resource = ODataResource::try_from(url).expect("Failed to create a resource from the URL");
    assert_eq!(resource.filters.0.len(), 2);
    let (filter, chain) = &resource.filters.contents()[0];
    let (not, nested) = filter.nested().unwrap();
    assert!(!not);
    assert_eq!(chain, &Some(Chain::And));
    assert_eq!(nested.0.len(), 2);

    // First filter
    let (filter, _chain) = &nested.0[0];
    let FieldFilterContents {
        not,
        field: _field,
        operation,
    } = filter.contents().unwrap();
    assert!(not);
    assert_eq!(
        operation,
        &FilterOperation::Function("contains(FirstName,'Q')".to_string())
    );

    // Second filter
    let (filter, _chain) = &nested.0[1];
    let FieldFilterContents { not, field, operation } = filter.contents().unwrap();
    assert!(!not);
    assert_eq!(field, "Gender");
    assert_eq!(
        operation,
        &FilterOperation::Eq(Value::String(
            "Microsoft.OData.SampleService.Models.TripPin.PersonGender'Male'".to_string()
        ))
    );

    // Third filter
    let (filter, _chain) = &resource.filters.contents()[1];
    let FieldFilterContents { not, field, operation } = filter.contents().unwrap();
    assert!(not);
    assert_eq!(field, "LastName");
    assert_eq!(operation, &FilterOperation::Eq(Value::String("Ketchum".to_string())));
}

#[test]
fn truncated_filter_clause_is_an_incomplete_path() {
    let url = "Products?$filter=Name eq";
    let resource = ODataResource::try_from(url);
    assert_eq!(resource.unwrap_err(), odata_core::error::ODataError::IncompletePath);
}

#[test]
fn malformed_orderby_entry_is_rejected() {
    let url = "People?$orderby=Rating desc extra";
    let resource = ODataResource::try_from(url);
    assert_eq!(resource.unwrap_err(), odata_core::error::ODataError::InvalidQueryOrderBy);
}

#[test]
fn unknown_path_operation_is_rejected() {
    let r = odata_core::resource::Operation::try_from("$metadata");
    assert_eq!(r.unwrap_err(), odata_core::error::ODataError::InvalidOperation);
}

#[test]
fn parsed_filter_chain_is_aligned() {
    let url = "Products?$filter=Name eq 'Milk' and Price lt 2.55 or Discontinued eq true";
    let resource = ODataResource::try_from(url).expect("Failed to create a resource from the URL");
    let contents = resource.filters.contents();
    assert_eq!(contents.len(), 3);
    assert!(contents[0].1.is_some());
    assert!(contents[1].1.is_some());
    assert!(contents[2].1.is_none());
}

#[test]
fn a_grouped_negated_leaf_keeps_its_negation() {
    let url = "Products?$filter=(not Name eq 'Milk')";
    let resource = ODataResource::try_from(url).expect("Failed to create a resource from the URL");
    assert_eq!(resource.filters.len(), 1);
    let (filter, chain) = &resource.filters.contents()[0];
    assert!(chain.is_none());
    let contents = filter.contents().unwrap();
    assert!(contents.not);
    assert_eq!(contents.field, "Name");
    assert_eq!(
        contents.operation,
        FilterOperation::Eq(Value::String("Milk".to_string()))
    );
}

#[test]
fn a_doubly_negated_leaf_cancels_out() {
    let url = "Products?$filter=not(not Name eq 'Milk')";
    let resource = ODataResource::try_from(url).expect("Failed to create a resource from the URL");
    assert_eq!(resource.filters.len(), 1);
    let contents = resource.filters.contents()[0].0.contents().unwrap();
    assert!(!contents.not);
    assert_eq!(contents.field, "Name");
}
