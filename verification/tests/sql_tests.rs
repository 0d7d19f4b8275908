use odata_core::columns::ColumnList;
use odata_core::columns::ColumnValue;
use odata_core::columns::SqlColumnType;
use odata_core::lower::query_plan;
use odata_core::lower::render_select;
use odata_core::resource::Chain;
use odata_core::resource::FieldFilter;
use odata_core::resource::FieldFilterContents;
use odata_core::resource::FilterOperation;
use odata_core::resource::Filters;
use odata_core::resource::ODataResource;
use odata_core::value::Value;

fn users_columns() -> ColumnList {
    ColumnList::from_pairs(vec![
        (
            "id".to_string(),
            ColumnValue { column: "id".to_string(), def: SqlColumnType::Integer },
        ),
        (
            "first_name".to_string(),
            ColumnValue { column: "first_name".to_string(), def: SqlColumnType::Varchar },
        ),
        (
            "last_name".to_string(),
            ColumnValue { column: "last_name".to_string(), def: SqlColumnType::Varchar },
        ),
        (
            "doc".to_string(),
            ColumnValue { column: "doc".to_string(), def: SqlColumnType::Json },
        ),
    ])
}

fn build_query_with_filter(resource: &ODataResource) -> String {
    let columns = users_columns();
    let plan = query_plan(resource, &columns).expect("Failed to lower the resource");
    render_select("users", &columns, &plan)
}

#[test]
fn can_generate_a_search_query() {
    let resource = ODataResource {
        search: Some("John".to_string()),
        ..Default::default()
    };

    let query = build_query_with_filter(&resource);
    assert_eq!(
        r#"SELECT "users"."id", "users"."first_name", "users"."last_name", "users"."doc" FROM "users" WHERE LOWER("id") LIKE '%john%' OR LOWER("first_name") LIKE '%john%' OR LOWER("last_name") LIKE '%john%' OR LOWER("doc") LIKE '%john%'"#,
        query
    );
}

#[test]
fn can_generate_order_by_query() {
    let resource = ODataResource {
        order_by: vec![
            odata_core::resource::OrderBy {
                field: "first_name".to_string(),
                direction: odata_core::resource::OrderByDirection::Desc,
            },
            odata_core::resource::OrderBy {
                field: "last_name".to_string(),
                ..Default::default()
            },
        ],
        ..Default::default()
    };

    let query = build_query_with_filter(&resource);
    assert_eq!(
        r#"SELECT "users"."id", "users"."first_name", "users"."last_name", "users"."doc" FROM "users" WHERE TRUE ORDER BY "first_name" DESC, "last_name" ASC"#,
        query
    );
}

#[test]
fn can_generate_an_and_query() {
    let resource = ODataResource::try_from("users?$filter=first_name eq 'John' and last_name eq 'Doe'")
        .expect("Failed to parse ODataResource");

    let query = build_query_with_filter(&resource);
    assert_eq!(
        r#"SELECT "users"."id", "users"."first_name", "users"."last_name", "users"."doc" FROM "users" WHERE "first_name" = 'John' AND "last_name" = 'Doe'"#,
        query
    );
}

#[test]
fn can_generate_an_or_query() {
    let resource = ODataResource::try_from("users?$filter=first_name eq 'John' or first_name eq 'Bill'")
        .expect("Failed to parse ODataResource");

    let query = build_query_with_filter(&resource);
    assert_eq!(
        r#"SELECT "users"."id", "users"."first_name", "users"."last_name", "users"."doc" FROM "users" WHERE "first_name" = 'John' OR "first_name" = 'Bill'"#,
        query
    );
}

#[test]
fn can_generate_a_combined_and_or_query() {
    let resource =
        ODataResource::try_from("users?$filter=first_name eq 'John' or first_name eq 'Bill' and last_name eq 'Doe'")
            .expect("Failed to parse ODataResource");

    let query = build_query_with_filter(&resource);
    assert_eq!(
        r#"SELECT "users"."id", "users"."first_name", "users"."last_name", "users"."doc" FROM "users" WHERE "first_name" = 'John' OR ("first_name" = 'Bill' AND "last_name" = 'Doe')"#,
        query
    );
}

#[test]
fn can_generate_a_query_with_groups() {
    let resource =
        ODataResource::try_from("users?$filter=(first_name eq 'John' or first_name eq 'Bill') and last_name eq 'Doe'")
            .expect("Failed to parse ODataResource");

    let query = build_query_with_filter(&resource);
    assert_eq!(
        r#"SELECT "users"."id", "users"."first_name", "users"."last_name", "users"."doc" FROM "users" WHERE ("first_name" = 'John' OR "first_name" = 'Bill') AND "last_name" = 'Doe'"#,
        query
    );
}

fn products_columns() -> ColumnList {
    ColumnList::from_pairs(vec![
        (
            "name".to_string(),
            ColumnValue { column: "name".to_string(), def: SqlColumnType::Varchar },
        ),
        (
            "price".to_string(),
            ColumnValue { column: "price".to_string(), def: SqlColumnType::Decimal },
        ),
        (
            "discontinued".to_string(),
            ColumnValue { column: "discontinued".to_string(), def: SqlColumnType::Boolean },
        ),
    ])
}

#[test]
fn and_binds_tighter_than_or_in_lowered_sql() {
    let resource =
        ODataResource::try_from("Products?$filter=Name eq 'Milk' and Price lt 2.55 or Discontinued eq true")
            .expect("Failed to parse ODataResource");
    let columns = products_columns();
    let plan = query_plan(&resource, &columns).expect("Failed to lower the resource");
    let query = render_select("products", &columns, &plan);
    assert_eq!(
        r#"SELECT "products"."name", "products"."price", "products"."discontinued" FROM "products" WHERE ("name" = 'Milk' AND "price" < 2.55) OR "discontinued" = TRUE"#,
        query
    );
}

#[test]
fn ordering_limit_and_offset_are_lowered() {
    let resource = ODataResource::try_from("users?$orderby=Rating desc,BaseRate&$top=10&$skip=20")
        .expect("Failed to parse ODataResource");
    let columns = users_columns();
    let plan = query_plan(&resource, &columns).expect("Failed to lower the resource");
    assert_eq!(plan.limit, Some(10));
    assert_eq!(plan.offset, Some(20));
    let query = render_select("users", &columns, &plan);
    assert_eq!(
        r#"SELECT "users"."id", "users"."first_name", "users"."last_name", "users"."doc" FROM "users" WHERE TRUE ORDER BY "rating" DESC, "base_rate" ASC LIMIT 10 OFFSET 20"#,
        query
    );
}

#[test]
fn unknown_filter_fields_are_dropped() {
    let resource = ODataResource::try_from("users?$filter=Nonexistent eq 'x'")
        .expect("Failed to parse ODataResource");
    let query = build_query_with_filter(&resource);
    assert_eq!(
        r#"SELECT "users"."id", "users"."first_name", "users"."last_name", "users"."doc" FROM "users" WHERE TRUE"#,
        query
    );
}

#[test]
fn has_filter_on_a_matched_column_is_not_implemented() {
    let resource = ODataResource::try_from("users?$filter=first_name has Sales.Pattern'Yellow'")
        .expect("Failed to parse ODataResource");
    let columns = users_columns();
    let err = query_plan(&resource, &columns).unwrap_err();
    assert_eq!(
        err,
        odata_core::error::ODataError::NotImplemented("Sales.Pattern'Yellow'".to_string())
    );
}

#[test]
fn null_comparisons_become_null_checks() {
    let resource = ODataResource {
        filters: Filters(vec![
            (
                FieldFilter::Contents(FieldFilterContents {
                    not: false,
                    field: "FirstName".to_string(),
                    operation: FilterOperation::Eq(Value::Null),
                }),
                Some(Chain::Or),
            ),
            (
                FieldFilter::Contents(FieldFilterContents {
                    not: false,
                    field: "LastName".to_string(),
                    operation: FilterOperation::Ne(Value::Null),
                }),
                None,
            ),
        ]),
        ..Default::default()
    };
    let query = build_query_with_filter(&resource);
    assert_eq!(
        r#"SELECT "users"."id", "users"."first_name", "users"."last_name", "users"."doc" FROM "users" WHERE "first_name" IS NULL OR "last_name" IS NOT NULL"#,
        query
    );
}

#[test]
fn query_options_resolve_at_lowering_time() {
    let resource = ODataResource::try_from("users?$filter=first_name eq @who&@who='John'")
        .expect("Failed to parse ODataResource");
    let query = build_query_with_filter(&resource);
    assert_eq!(
        r#"SELECT "users"."id", "users"."first_name", "users"."last_name", "users"."doc" FROM "users" WHERE "first_name" = 'John'"#,
        query
    );
}

#[test]
fn lowering_the_same_request_twice_gives_equal_sql() {
    let url = "users?$filter=first_name eq 'John' or last_name eq 'Doe'&$orderby=first_name&$top=5";
    let first = build_query_with_filter(&ODataResource::try_from(url).unwrap());
    let second = build_query_with_filter(&ODataResource::try_from(url).unwrap());
    assert_eq!(first, second);
}
