//! Reflection from a backend column catalog to an EDM entity type.

use vstd::prelude::*;

use crate::columns::column_pairs;
use crate::columns::ColumnList;
use crate::columns::PrimaryKeys;
use crate::columns::SqlColumnType;
use crate::edm::EntityType;
use crate::model::ODataModel;

verus! {

/// The EDM type a backend column family maps to.
pub open spec fn edm_type_of(t: SqlColumnType) -> Seq<char> {
    match t {
        SqlColumnType::Char => "Edm.String"@,
        SqlColumnType::Varchar => "Edm.String"@,
        SqlColumnType::Text => "Edm.String"@,
        SqlColumnType::Json => "Edm.String"@,
        SqlColumnType::Array => "Edm.String"@,
        SqlColumnType::Enumeration => "Edm.String"@,
        SqlColumnType::Inet => "Edm.String"@,
        SqlColumnType::Cidr => "Edm.String"@,
        SqlColumnType::MacAddr => "Edm.String"@,
        SqlColumnType::Custom => "Edm.String"@,
        SqlColumnType::Integer => "Edm.Int32"@,
        SqlColumnType::Unsigned => "Edm.Int32"@,
        SqlColumnType::Year => "Edm.Int32"@,
        SqlColumnType::BigInteger => "Edm.Int64"@,
        SqlColumnType::BigUnsigned => "Edm.Int64"@,
        SqlColumnType::SmallInteger => "Edm.Int16"@,
        SqlColumnType::SmallUnsigned => "Edm.Int16"@,
        SqlColumnType::TinyInteger => "Edm.Byte"@,
        SqlColumnType::TinyUnsigned => "Edm.Byte"@,
        SqlColumnType::Float => "Edm.Decimal"@,
        SqlColumnType::Double => "Edm.Decimal"@,
        SqlColumnType::Decimal => "Edm.Decimal"@,
        SqlColumnType::Money => "Edm.Decimal"@,
        SqlColumnType::Boolean => "Edm.Boolean"@,
        SqlColumnType::Date => "Edm.Date"@,
        SqlColumnType::Time => "Edm.TimeOfDay"@,
        SqlColumnType::DateTime => "Edm.DateTimeOffset"@,
        SqlColumnType::Timestamp => "Edm.DateTimeOffset"@,
        SqlColumnType::Binary => "Edm.Binary"@,
        SqlColumnType::VarBinary => "Edm.Binary"@,
        SqlColumnType::JsonBinary => "Edm.Binary"@,
        SqlColumnType::Uuid => "Edm.Guid"@,
        SqlColumnType::Unknown => "Edm.String"@,
    }
}

/// The EDM type name of a column family.
pub fn edm_type_name(t: SqlColumnType) -> (r: String)
    ensures
        r@ == edm_type_of(t),
{
    match t {
        SqlColumnType::Char => String::from_str("Edm.String"),
        SqlColumnType::Varchar => String::from_str("Edm.String"),
        SqlColumnType::Text => String::from_str("Edm.String"),
        SqlColumnType::Json => String::from_str("Edm.String"),
        SqlColumnType::Array => String::from_str("Edm.String"),
        SqlColumnType::Enumeration => String::from_str("Edm.String"),
        SqlColumnType::Inet => String::from_str("Edm.String"),
        SqlColumnType::Cidr => String::from_str("Edm.String"),
        SqlColumnType::MacAddr => String::from_str("Edm.String"),
        SqlColumnType::Custom => String::from_str("Edm.String"),
        SqlColumnType::Integer => String::from_str("Edm.Int32"),
        SqlColumnType::Unsigned => String::from_str("Edm.Int32"),
        SqlColumnType::Year => String::from_str("Edm.Int32"),
        SqlColumnType::BigInteger => String::from_str("Edm.Int64"),
        SqlColumnType::BigUnsigned => String::from_str("Edm.Int64"),
        SqlColumnType::SmallInteger => String::from_str("Edm.Int16"),
        SqlColumnType::SmallUnsigned => String::from_str("Edm.Int16"),
        SqlColumnType::TinyInteger => String::from_str("Edm.Byte"),
        SqlColumnType::TinyUnsigned => String::from_str("Edm.Byte"),
        SqlColumnType::Float => String::from_str("Edm.Decimal"),
        SqlColumnType::Double => String::from_str("Edm.Decimal"),
        SqlColumnType::Decimal => String::from_str("Edm.Decimal"),
        SqlColumnType::Money => String::from_str("Edm.Decimal"),
        SqlColumnType::Boolean => String::from_str("Edm.Boolean"),
        SqlColumnType::Date => String::from_str("Edm.Date"),
        SqlColumnType::Time => String::from_str("Edm.TimeOfDay"),
        SqlColumnType::DateTime => String::from_str("Edm.DateTimeOffset"),
        SqlColumnType::Timestamp => String::from_str("Edm.DateTimeOffset"),
        SqlColumnType::Binary => String::from_str("Edm.Binary"),
        SqlColumnType::VarBinary => String::from_str("Edm.Binary"),
        SqlColumnType::JsonBinary => String::from_str("Edm.Binary"),
        SqlColumnType::Uuid => String::from_str("Edm.Guid"),
        SqlColumnType::Unknown => String::from_str("Edm.String"),
    }
}

/// Reflect a table into an entity type: the table name names the type,
/// each catalog column becomes a property with its mapped EDM type, and
/// the primary-key names become one key with one reference each.
#[verifier::loop_isolation(false)]
pub fn into_entity_type(
    table_name: &str,
    p_keys: &PrimaryKeys,
    columns: &ColumnList,
) -> (et: EntityType)
    requires
        columns.wf(),
    ensures
        et.name@ == table_name@,
        et.key matches Some(ks) && ks@.len() == 1 && (ks@[0].property_ref matches Some(prs)
            && prs@.map_values(|p: crate::edm::PropertyRef| p.name@) == p_keys@),
        column_pairs(*columns).len() == 0 ==> et.property is None,
        column_pairs(*columns).len() > 0 ==> (et.property matches Some(ps) && {
            &&& ps@.len() == column_pairs(*columns).len()
            &&& forall|i: int|
                0 <= i < ps@.len() ==> {
                    &&& (#[trigger] ps@[i]).name@ == column_pairs(*columns)[i].0
                    &&& ps@[i]._type@ == edm_type_of(column_pairs(*columns)[i].1.1)
                    &&& ps@[i].nullable is None
                }
        }),
        et.navigation_property is None,
        et.has_stream is None,
        et.open_type is None,
{
    let mut et = EntityType::new(String::from_str(table_name));
    et.set_key(p_keys.keys());
    let ghost cat = column_pairs(*columns);
    let n = columns.len();
    let mut i: usize = 0;
    while i < n
        invariant
            i <= cat.len(),
            n == cat.len(),
            et.name@ == table_name@,
            et.key matches Some(ks) && ks@.len() == 1 && (ks@[0].property_ref matches Some(prs)
                && prs@.map_values(|p: crate::edm::PropertyRef| p.name@) == p_keys@),
            et.has_stream is None,
            et.open_type is None,
            et.navigation_property is None,
            i == 0 ==> et.property is None,
            i > 0 ==> (et.property matches Some(ps) && ps@.len() == i && (forall|k: int|
                0 <= k < i ==> {
                    &&& (#[trigger] ps@[k]).name@ == cat[k].0
                    &&& ps@[k]._type@ == edm_type_of(cat[k].1.1)
                    &&& ps@[k].nullable is None
                })),
        decreases n - i,
    {
        let key = columns.key_at(i);
        let col = columns.col_at(i);
        et.add_property(key.clone(), edm_type_name(col.def));
        proof {
            match &et.property {
                Some(ps) => {
                    assert(forall|k: int|
                        0 <= k < ps@.len() - 1 ==> #[trigger] ps@[k] == ps@.drop_last()[k]);
                },
                None => {},
            }
        }
        i += 1;
    }
    et
}

/// Register a reflected entity type with a model.
pub fn model_with_entity(model: ODataModel, et: EntityType) -> (r: ODataModel)
    requires
        model.wf(),
    ensures
        r.wf(),
{
    model.with_entity_type(et)
}

} // verus!
