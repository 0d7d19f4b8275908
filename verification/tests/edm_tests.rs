use odata_core::columns::ColumnList;
use odata_core::columns::ColumnValue;
use odata_core::columns::PrimaryKeys;
use odata_core::columns::SqlColumnType;
use odata_core::edm::edmx_to_xml;
use odata_core::edm::Property;
use odata_core::model::ODataModel;
use odata_core::reflect::into_entity_type;
use odata_core::reflect::model_with_entity;

fn users_columns() -> ColumnList {
    ColumnList::from_pairs(vec![
        (
            "id".to_string(),
            ColumnValue { column: "id".to_string(), def: SqlColumnType::Integer },
        ),
        (
            "first_name".to_string(),
            ColumnValue { column: "first_name".to_string(), def: SqlColumnType::Varchar },
        ),
        (
            "last_name".to_string(),
            ColumnValue { column: "last_name".to_string(), def: SqlColumnType::Varchar },
        ),
        (
            "doc".to_string(),
            ColumnValue { column: "doc".to_string(), def: SqlColumnType::Json },
        ),
    ])
}

fn users_keys() -> PrimaryKeys {
    PrimaryKeys::new(vec!["id".to_string()])
}

fn get_property<'p>(key: &str, properties: &'p [Property]) -> Option<&'p Property> {
    properties.iter().find(|p| p.name == key)
}

#[test]
fn can_generate_edm_entity_from_model() {
    let et = into_entity_type("users", &users_keys(), &users_columns());
    assert_eq!("users", et.name);

    let properties = et.property.expect("properties");
    assert_eq!(4, properties.len());

    let id = get_property("id", &properties).expect("id");
    assert_eq!("Edm.Int32", id._type);

    let key = et.key.expect("key");
    assert_eq!(1, key.len());
    assert_eq!("id", key[0].property_ref.as_ref().expect("property_ref")[0].name);
}

#[test]
fn can_build_odata_model_from_db() {
    let model = ODataModel::default();
    let et = into_entity_type("users", &users_keys(), &users_columns());
    let model = model_with_entity(model, et);
    let resource = model.get_resource("users").expect("users");
    assert_eq!("users", resource.entity.name);

    let et = model.get_entity_type(resource).expect("entity_type");
    assert_eq!("users", et.name);
}

#[test]
fn reflected_properties_follow_the_type_table() {
    let columns = ColumnList::from_pairs(vec![
        (
            "a".to_string(),
            ColumnValue { column: "a".to_string(), def: SqlColumnType::BigInteger },
        ),
        (
            "b".to_string(),
            ColumnValue { column: "b".to_string(), def: SqlColumnType::Boolean },
        ),
        (
            "c".to_string(),
            ColumnValue { column: "c".to_string(), def: SqlColumnType::Timestamp },
        ),
        (
            "d".to_string(),
            ColumnValue { column: "d".to_string(), def: SqlColumnType::Uuid },
        ),
        (
            "e".to_string(),
            ColumnValue { column: "e".to_string(), def: SqlColumnType::Money },
        ),
        (
            "f".to_string(),
            ColumnValue { column: "f".to_string(), def: SqlColumnType::TinyUnsigned },
        ),
    ]);
    let et = into_entity_type("things", &PrimaryKeys::new(vec!["a".to_string()]), &columns);
    let ps = et.property.expect("properties");
    assert_eq!(ps[0]._type, "Edm.Int64");
    assert_eq!(ps[1]._type, "Edm.Boolean");
    assert_eq!(ps[2]._type, "Edm.DateTimeOffset");
    assert_eq!(ps[3]._type, "Edm.Guid");
    assert_eq!(ps[4]._type, "Edm.Decimal");
    assert_eq!(ps[5]._type, "Edm.Byte");
}

#[test]
fn metadata_document_serializes_as_csdl_xml() {
    let model = ODataModel::new();
    let et = into_entity_type("users", &users_keys(), &users_columns());
    let model = model_with_entity(model, et);
    let xml = edmx_to_xml(model.edm());
    assert_eq!(
        xml,
        r#"<edmx:Edmx Version="4.01"><edmx:DataServices><Schema Namespace="Default"><EntityType Name="users"><Key><PropertyRef Name="id"/></Key><Property Name="id" Type="Edm.Int32"/><Property Name="first_name" Type="Edm.String"/><Property Name="last_name" Type="Edm.String"/><Property Name="doc" Type="Edm.String"/></EntityType></Schema></edmx:DataServices></edmx:Edmx>"#
    );
}

#[test]
fn metadata_text_is_escaped() {
    let columns = ColumnList::from_pairs(vec![(
        "a".to_string(),
        ColumnValue { column: "a".to_string(), def: SqlColumnType::Varchar },
    )]);
    let et = into_entity_type("a<b&\"c\"", &PrimaryKeys::new(vec![]), &columns);
    let model = model_with_entity(ODataModel::new(), et);
    let xml = edmx_to_xml(model.edm());
    assert!(xml.contains("a&lt;b&amp;&quot;c&quot;"));
}

#[test]
fn context_url_points_at_metadata() {
    let model = ODataModel::new();
    let et = into_entity_type("users", &users_keys(), &users_columns());
    let model = model_with_entity(model, et);
    let context = model.context_for_entity("users").expect("context");
    assert_eq!(context, "Default/$metadata#users");
    assert!(model.context_for_entity("missing").is_none());
}

#[test]
fn registering_the_same_set_again_replaces_it() {
    let mut model = ODataModel::new();
    let mut first = odata_core::resource::ODataResource::default();
    first.entity.name = "users".to_string();
    first.title = Some("first".to_string());
    model.add_resource(first);
    let mut second = odata_core::resource::ODataResource::default();
    second.entity.name = "users".to_string();
    second.title = Some("second".to_string());
    model.add_resource(second);
    let found = model.get_resource("users").expect("users");
    assert_eq!(found.title, Some("second".to_string()));
}
