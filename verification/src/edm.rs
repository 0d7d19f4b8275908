//! The CSDL entity data model: the value tree served at `$metadata`, with
//! a verified XML writer.
//!
//! The tree mirrors the CSDL schema: `Edmx` wraps `DataServices`, which
//! holds `Schema` elements with their entity types, enumerations and
//! containers. The writer emits `edmx:`-prefixed markup for the two outer
//! elements and unprefixed markup inside, with every text escaped.

use vstd::prelude::*;

use crate::bridge::string_from_chars;
use crate::chars::str_chars;

verus! {

/// The root of a metadata document.
#[derive(Debug, PartialEq)]
pub struct Edmx {
    pub version: String,
    pub xmlns: Option<String>,
    pub data_services: DataServices,
}

/// The data-services wrapper under the root.
#[derive(Debug, PartialEq)]
pub struct DataServices {
    pub schema: Vec<Schema>,
}

/// One schema of the model.
#[derive(Debug, PartialEq)]
pub struct Schema {
    pub namespace: String,
    pub xmlns: Option<String>,
    pub entity_type: Option<Vec<EntityType>>,
    pub complex_type: Option<Vec<ComplexType>>,
    pub enum_type: Option<Vec<EnumType>>,
    pub entity_container: Option<Vec<EntityContainer>>,
}

/// An entity type: its key and its properties.
#[derive(Debug, PartialEq)]
pub struct EntityType {
    pub name: String,
    pub has_stream: Option<bool>,
    pub open_type: Option<bool>,
    pub key: Option<Vec<Key>>,
    pub property: Option<Vec<Property>>,
    pub navigation_property: Option<Vec<NavigationProperty>>,
}

/// The key of an entity type: one reference per key property.
#[derive(Debug, PartialEq)]
pub struct Key {
    pub property_ref: Option<Vec<PropertyRef>>,
}

/// A reference to a named property.
#[derive(Debug, PartialEq)]
pub struct PropertyRef {
    pub name: String,
}

/// A structural property of an entity or complex type.
#[derive(Debug, PartialEq)]
pub struct Property {
    pub name: String,
    pub _type: String,
    pub nullable: Option<String>,
    pub default_value: Option<String>,
    pub max_length: Option<String>,
    pub precision: Option<String>,
    pub scale: Option<String>,
    pub unicode: Option<String>,
    pub srid: Option<String>,
    pub concurrency_mode: Option<String>,
}

/// A navigation property: a typed relationship to another entity type.
#[derive(Debug, PartialEq)]
pub struct NavigationProperty {
    pub name: String,
    pub _type: String,
    pub nullable: Option<String>,
    pub partner: Option<String>,
    pub contains_target: Option<String>,
    pub referential_constraint: Option<ReferentialConstraint>,
    pub on_delete: Option<OnDelete>,
}

/// The referential constraint of a navigation property.
#[derive(Debug, PartialEq)]
pub struct ReferentialConstraint {
    pub principal: Principal,
    pub dependent: Dependent,
}

/// The principal end of a referential constraint.
#[derive(Debug, PartialEq)]
pub struct Principal {
    pub role: String,
    pub property_ref: Option<Vec<PropertyRef>>,
}

/// The dependent end of a referential constraint.
#[derive(Debug, PartialEq)]
pub struct Dependent {
    pub role: String,
    pub property_ref: Option<Vec<PropertyRef>>,
}

/// The delete behaviour of a navigation property.
#[derive(Debug, PartialEq)]
pub struct OnDelete {
    pub action: String,
}

/// An explicit null in the annotation vocabulary.
#[derive(Debug, PartialEq)]
pub struct Null {}

/// A complex type: structural properties without a key.
#[derive(Debug, PartialEq)]
pub struct ComplexType {
    pub name: String,
    pub property: Option<Vec<Property>>,
    pub navigation_property: Option<Vec<NavigationProperty>>,
}

/// An enumeration type and its members.
#[derive(Debug, PartialEq)]
pub struct EnumType {
    pub name: String,
    pub member: Option<Vec<Member>>,
}

/// One member of an enumeration type.
#[derive(Debug, PartialEq)]
pub struct Member {
    pub name: String,
    pub value: String,
}

/// The container naming the service's entity sets and imports.
#[derive(Debug, PartialEq)]
pub struct EntityContainer {
    pub name: String,
    pub entity_set: Option<Vec<EntitySet>>,
    pub singleton: Option<Vec<Singleton>>,
    pub action_import: Option<Vec<ActionImport>>,
    pub function_import: Option<Vec<FunctionImport>>,
}

/// An addressable entity set of the container.
#[derive(Debug, PartialEq)]
pub struct EntitySet {
    pub name: String,
    pub entity_type: String,
    pub include_annotations: Option<String>,
    pub navigation_property_binding: Option<Vec<NavigationPropertyBinding>>,
}

/// A navigation target binding of a set or singleton.
#[derive(Debug, PartialEq)]
pub struct NavigationPropertyBinding {
    pub path: String,
    pub target: String,
}

/// A singleton of the container.
#[derive(Debug, PartialEq)]
pub struct Singleton {
    pub name: String,
    pub _type: String,
    pub navigation_property_binding: Option<Vec<NavigationPropertyBinding>>,
}

/// An action import of the container.
#[derive(Debug, PartialEq)]
pub struct ActionImport {
    pub name: String,
    pub action: String,
    pub entity_set: Option<String>,
}

/// A function import of the container.
#[derive(Debug, PartialEq)]
pub struct FunctionImport {
    pub name: String,
    pub function: String,
    pub entity_set: Option<String>,
    pub include_in_service_document: Option<String>,
}

impl Default for Edmx {
    /// An empty CSDL 4.01 document.
    fn default() -> (r: Self)
        ensures
            r.version@ == "4.01"@,
            r.xmlns is None,
            r.data_services.schema@.len() == 0,
    {
        Edmx {
            version: String::from_str("4.01"),
            xmlns: None,
            data_services: DataServices { schema: Vec::new() },
        }
    }
}

impl EntityType {
    /// A fresh entity type with no key and no properties.
    pub fn new(name: String) -> (r: Self)
        ensures
            r.name@ == name@,
            r.has_stream is None,
            r.open_type is None,
            r.key is None,
            r.property is None,
            r.navigation_property is None,
    {
        EntityType {
            name,
            has_stream: None,
            open_type: None,
            key: None,
            property: None,
            navigation_property: None,
        }
    }

    /// Append a property with the given EDM type, creating the list on the
    /// first call.
    pub fn add_property(&mut self, name: String, _type: String)
        ensures
            final(self).name == old(self).name,
            final(self).has_stream == old(self).has_stream,
            final(self).open_type == old(self).open_type,
            final(self).key == old(self).key,
            final(self).navigation_property == old(self).navigation_property,
            final(self).property matches Some(ps) && {
                let prev: Seq<Property> = match old(self).property {
                    Some(old_ps) => old_ps@,
                    None => Seq::empty(),
                };
                &&& ps@.len() == prev.len() + 1
                &&& ps@.drop_last() == prev
                &&& ps@.last().name@ == name@
                &&& ps@.last()._type@ == _type@
                &&& ps@.last().nullable is None
            },
    {
        let property = Property {
            name,
            _type,
            nullable: None,
            default_value: None,
            max_length: None,
            precision: None,
            scale: None,
            unicode: None,
            srid: None,
            concurrency_mode: None,
        };
        let mut list: Vec<Property> = match self.property.take() {
            Some(ps) => ps,
            None => Vec::new(),
        };
        let ghost prev = list@;
        list.push(property);
        proof {
            assert(list@.drop_last() =~= prev);
        }
        self.property = Some(list);
    }

    /// Set the key to a single `Key` holding one reference per name.
    pub fn set_key(&mut self, keys: &Vec<String>)
        ensures
            final(self).name == old(self).name,
            final(self).property == old(self).property,
            final(self).key matches Some(ks) && ks@.len() == 1 && (ks@[0].property_ref matches Some(
                prs,
            ) && prs@.map_values(|p: PropertyRef| p.name@) == keys@.map_values(
                |k: String| k@,
            )),
            final(self).has_stream == old(self).has_stream,
            final(self).open_type == old(self).open_type,
            final(self).navigation_property == old(self).navigation_property,
    {
        let mut refs: Vec<PropertyRef> = Vec::new();
        let mut i: usize = 0;
        proof {
            assert(refs@.map_values(|p: PropertyRef| p.name@) =~= keys@.map_values(
                |k: String| k@,
            ).take(0));
        }
        while i < keys.len()
            invariant
                i <= keys@.len(),
                refs@.map_values(|p: PropertyRef| p.name@) == keys@.map_values(
                    |k: String| k@,
                ).take(i as int),
            decreases keys@.len() - i,
        {
            let ghost old_refs = refs@;
            refs.push(PropertyRef { name: keys[i].clone() });
            proof {
                assert(refs@.map_values(|p: PropertyRef| p.name@) =~= old_refs.map_values(
                    |p: PropertyRef| p.name@,
                ).push(keys@[i as int]@));
                assert(keys@.map_values(|k: String| k@).take(i + 1 as int) =~= keys@.map_values(
                    |k: String| k@,
                ).take(i as int).push(keys@[i as int]@));
            }
            i += 1;
        }
        proof {
            assert(keys@.map_values(|k: String| k@).take(keys@.len() as int) =~= keys@.map_values(
                |k: String| k@,
            ));
        }
        let key = Key { property_ref: Some(refs) };
        let mut ks: Vec<Key> = Vec::new();
        ks.push(key);
        self.key = Some(ks);
    }
}

/// XML text escaping: the five reserved characters become entities.
pub open spec fn xml_escape(s: Seq<char>) -> Seq<char>
    decreases s.len(),
{
    if s.len() == 0 {
        Seq::empty()
    } else {
        (if s[0] == '&' {
            "&amp;"@
        } else if s[0] == '<' {
            "&lt;"@
        } else if s[0] == '>' {
            "&gt;"@
        } else if s[0] == '"' {
            "&quot;"@
        } else if s[0] == '\'' {
            "&apos;"@
        } else {
            seq![s[0]]
        }) + xml_escape(s.skip(1))
    }
}

/// One escaped attribute, with its leading space.
pub open spec fn xml_attr(name: Seq<char>, value: Seq<char>) -> Seq<char> {
    seq![' '] + name + "=\""@ + xml_escape(value) + seq!['"']
}

/// An optional attribute: nothing when the field is absent.
pub open spec fn opt_attr(name: Seq<char>, value: Option<String>) -> Seq<char> {
    match value {
        Some(v) => xml_attr(name, v@),
        None => Seq::empty(),
    }
}

/// An optional boolean attribute.
pub open spec fn opt_bool_attr(name: Seq<char>, value: Option<bool>) -> Seq<char> {
    match value {
        Some(b) => xml_attr(
            name,
            if b {
                "true"@
            } else {
                "false"@
            },
        ),
        None => Seq::empty(),
    }
}

/// An element with attributes and a body, self-closing when the body is
/// empty.
pub open spec fn xml_elem(name: Seq<char>, attrs: Seq<char>, body: Seq<char>) -> Seq<char> {
    if body.len() == 0 {
        seq!['<'] + name + attrs + "/>"@
    } else {
        seq!['<'] + name + attrs + seq!['>'] + body + "</"@ + name + seq!['>']
    }
}

/// An optional child element holding escaped text.
pub open spec fn opt_text_elem(name: Seq<char>, value: Option<String>) -> Seq<char> {
    match value {
        Some(v) => xml_elem(name, Seq::empty(), xml_escape(v@)),
        None => Seq::empty(),
    }
}


/// The markup of a property reference.
pub open spec fn property_ref_xml(p: PropertyRef) -> Seq<char> {
    xml_elem("PropertyRef"@, xml_attr("Name"@, p.name@), Seq::empty())
}

/// The markup of an entity key.
pub open spec fn key_xml(k: Key) -> Seq<char> {
    xml_elem(
        "Key"@,
        Seq::empty(),
        opt_refs_xml(k.property_ref),
    )
}

/// The markup of a structural property.
pub open spec fn property_xml(p: Property) -> Seq<char> {
    xml_elem(
        "Property"@,
        xml_attr("Name"@, p.name@) + xml_attr("Type"@, p._type@) + opt_attr(
            "Nullable"@,
            p.nullable,
        ),
        opt_text_elem("DefaultValue"@, p.default_value) + opt_text_elem("MaxLength"@, p.max_length)
            + opt_text_elem("Precision"@, p.precision) + opt_text_elem("Scale"@, p.scale)
            + opt_text_elem("Unicode"@, p.unicode) + opt_text_elem("SRID"@, p.srid)
            + opt_text_elem("ConcurrencyMode"@, p.concurrency_mode),
    )
}

/// The markup of a constraint end.
pub open spec fn principal_xml(p: Principal) -> Seq<char> {
    xml_elem(
        "Principal"@,
        Seq::empty(),
        xml_elem("Role"@, Seq::empty(), xml_escape(p.role@)) + opt_refs_xml(p.property_ref),
    )
}

/// The markup of a constraint end.
pub open spec fn dependent_xml(p: Dependent) -> Seq<char> {
    xml_elem(
        "Dependent"@,
        Seq::empty(),
        xml_elem("Role"@, Seq::empty(), xml_escape(p.role@)) + opt_refs_xml(p.property_ref),
    )
}

/// The markup of a referential constraint.
pub open spec fn referential_constraint_xml(c: ReferentialConstraint) -> Seq<char> {
    xml_elem(
        "ReferentialConstraint"@,
        Seq::empty(),
        principal_xml(c.principal) + dependent_xml(c.dependent),
    )
}

/// The markup of a delete rule.
pub open spec fn on_delete_xml(d: OnDelete) -> Seq<char> {
    xml_elem("OnDelete"@, Seq::empty(), xml_elem("Action"@, Seq::empty(), xml_escape(d.action@)))
}

/// The markup of a navigation property.
pub open spec fn navigation_property_xml(n: NavigationProperty) -> Seq<char> {
    xml_elem(
        "NavigationProperty"@,
        xml_attr("Name"@, n.name@) + xml_attr("Type"@, n._type@) + opt_attr(
            "Nullable"@,
            n.nullable,
        ),
        opt_text_elem("Partner"@, n.partner) + opt_text_elem("ContainsTarget"@, n.contains_target)
            + (match n.referential_constraint {
            Some(c) => referential_constraint_xml(c),
            None => Seq::empty(),
        }) + (match n.on_delete {
            Some(d) => on_delete_xml(d),
            None => Seq::empty(),
        }),
    )
}

/// The markup of an entity type.
#[verifier::opaque]
pub open spec fn entity_type_xml(t: EntityType) -> Seq<char> {
    xml_elem(
        "EntityType"@,
        xml_attr("Name"@, t.name@) + opt_bool_attr("HasStream"@, t.has_stream) + opt_bool_attr(
            "OpenType"@,
            t.open_type,
        ),
        opt_keys_xml(t.key) + opt_props_xml(t.property) + opt_navs_xml(t.navigation_property),
    )
}

/// The markup of a complex type.
pub open spec fn complex_type_xml(t: ComplexType) -> Seq<char> {
    xml_elem(
        "ComplexType"@,
        xml_attr("Name"@, t.name@),
        opt_props_xml(t.property) + opt_navs_xml(t.navigation_property),
    )
}

/// The markup of an enumeration member.
pub open spec fn member_xml(m: Member) -> Seq<char> {
    xml_elem("Member"@, xml_attr("Name"@, m.name@) + xml_attr("Value"@, m.value@), Seq::empty())
}

/// The markup of an enumeration type.
pub open spec fn enum_type_xml(t: EnumType) -> Seq<char> {
    xml_elem(
        "EnumType"@,
        xml_attr("Name"@, t.name@),
        opt_members_xml(t.member),
    )
}

/// The markup of a navigation binding.
pub open spec fn navigation_property_binding_xml(b: NavigationPropertyBinding) -> Seq<char> {
    xml_elem(
        "NavigationPropertyBinding"@,
        xml_attr("Path"@, b.path@) + xml_attr("Target"@, b.target@),
        Seq::empty(),
    )
}

/// The markup of an entity set.
pub open spec fn entity_set_xml(s: EntitySet) -> Seq<char> {
    xml_elem(
        "EntitySet"@,
        xml_attr("Name"@, s.name@) + xml_attr("EntityType"@, s.entity_type@),
        opt_text_elem("IncludeAnnotations"@, s.include_annotations) + opt_bindings_xml(s.navigation_property_binding),
    )
}

/// The markup of a singleton.
pub open spec fn singleton_xml(s: Singleton) -> Seq<char> {
    xml_elem(
        "Singleton"@,
        xml_attr("Name"@, s.name@) + xml_attr("Type"@, s._type@),
        opt_bindings_xml(s.navigation_property_binding),
    )
}

/// The markup of an action import.
pub open spec fn action_import_xml(a: ActionImport) -> Seq<char> {
    xml_elem(
        "ActionImport"@,
        xml_attr("Name"@, a.name@) + xml_attr("Action"@, a.action@),
        opt_text_elem("EntitySet"@, a.entity_set),
    )
}

/// The markup of a function import.
pub open spec fn function_import_xml(f: FunctionImport) -> Seq<char> {
    xml_elem(
        "FunctionImport"@,
        xml_attr("Name"@, f.name@) + xml_attr("Function"@, f.function@),
        opt_text_elem("EntitySet"@, f.entity_set) + opt_text_elem(
            "IncludeInServiceDocument"@,
            f.include_in_service_document,
        ),
    )
}

/// The markup of an entity container.
pub open spec fn entity_container_xml(c: EntityContainer) -> Seq<char> {
    xml_elem(
        "EntityContainer"@,
        xml_attr("Name"@, c.name@),
        opt_sets_xml(c.entity_set) + opt_singletons_xml(c.singleton) + opt_action_imports_xml(c.action_import) + opt_function_imports_xml(c.function_import),
    )
}

/// The markup of a schema.
#[verifier::opaque]
pub open spec fn schema_xml(s: Schema) -> Seq<char> {
    xml_elem(
        "Schema"@,
        xml_attr("Namespace"@, s.namespace@) + opt_attr("xmlns"@, s.xmlns),
        opt_entity_types_xml(s.entity_type) + opt_complex_types_xml(s.complex_type) + opt_enum_types_xml(s.enum_type) + opt_containers_xml(s.entity_container),
    )
}

/// The markup of a whole metadata document.
pub open spec fn edmx_xml(e: Edmx) -> Seq<char> {
    xml_elem(
        "edmx:Edmx"@,
        xml_attr("Version"@, e.version@) + opt_attr("xmlns:edmx"@, e.xmlns),
        xml_elem(
            "edmx:DataServices"@,
            Seq::empty(),
            schemas_list_xml(e.data_services.schema@, e.data_services.schema@.len() as int),
        ),
    )
}

/// The concatenated markup of the first `i` elements.
pub open spec fn refs_list_xml(ts: Seq<PropertyRef>, i: int) -> Seq<char>
    decreases i,
{
    if i <= 0 || i > ts.len() {
        Seq::empty()
    } else {
        refs_list_xml(ts, i - 1) + property_ref_xml(ts[i - 1])
    }
}

/// The markup of the optional list.
pub open spec fn opt_refs_xml(ts: Option<Vec<PropertyRef>>) -> Seq<char> {
    match ts {
        Some(v) => refs_list_xml(v@, v@.len() as int),
        None => Seq::empty(),
    }
}

/// The concatenated markup of the first `i` elements.
pub open spec fn keys_list_xml(ts: Seq<Key>, i: int) -> Seq<char>
    decreases i,
{
    if i <= 0 || i > ts.len() {
        Seq::empty()
    } else {
        keys_list_xml(ts, i - 1) + key_xml(ts[i - 1])
    }
}

/// The markup of the optional list.
pub open spec fn opt_keys_xml(ts: Option<Vec<Key>>) -> Seq<char> {
    match ts {
        Some(v) => keys_list_xml(v@, v@.len() as int),
        None => Seq::empty(),
    }
}

/// The concatenated markup of the first `i` elements.
pub open spec fn props_list_xml(ts: Seq<Property>, i: int) -> Seq<char>
    decreases i,
{
    if i <= 0 || i > ts.len() {
        Seq::empty()
    } else {
        props_list_xml(ts, i - 1) + property_xml(ts[i - 1])
    }
}

/// The markup of the optional list.
pub open spec fn opt_props_xml(ts: Option<Vec<Property>>) -> Seq<char> {
    match ts {
        Some(v) => props_list_xml(v@, v@.len() as int),
        None => Seq::empty(),
    }
}

/// The concatenated markup of the first `i` elements.
pub open spec fn navs_list_xml(ts: Seq<NavigationProperty>, i: int) -> Seq<char>
    decreases i,
{
    if i <= 0 || i > ts.len() {
        Seq::empty()
    } else {
        navs_list_xml(ts, i - 1) + navigation_property_xml(ts[i - 1])
    }
}

/// The markup of the optional list.
pub open spec fn opt_navs_xml(ts: Option<Vec<NavigationProperty>>) -> Seq<char> {
    match ts {
        Some(v) => navs_list_xml(v@, v@.len() as int),
        None => Seq::empty(),
    }
}

/// The concatenated markup of the first `i` elements.
pub open spec fn members_list_xml(ts: Seq<Member>, i: int) -> Seq<char>
    decreases i,
{
    if i <= 0 || i > ts.len() {
        Seq::empty()
    } else {
        members_list_xml(ts, i - 1) + member_xml(ts[i - 1])
    }
}

/// The markup of the optional list.
pub open spec fn opt_members_xml(ts: Option<Vec<Member>>) -> Seq<char> {
    match ts {
        Some(v) => members_list_xml(v@, v@.len() as int),
        None => Seq::empty(),
    }
}

/// The concatenated markup of the first `i` elements.
pub open spec fn bindings_list_xml(ts: Seq<NavigationPropertyBinding>, i: int) -> Seq<char>
    decreases i,
{
    if i <= 0 || i > ts.len() {
        Seq::empty()
    } else {
        bindings_list_xml(ts, i - 1) + navigation_property_binding_xml(ts[i - 1])
    }
}

/// The markup of the optional list.
pub open spec fn opt_bindings_xml(ts: Option<Vec<NavigationPropertyBinding>>) -> Seq<char> {
    match ts {
        Some(v) => bindings_list_xml(v@, v@.len() as int),
        None => Seq::empty(),
    }
}

/// The concatenated markup of the first `i` elements.
pub open spec fn sets_list_xml(ts: Seq<EntitySet>, i: int) -> Seq<char>
    decreases i,
{
    if i <= 0 || i > ts.len() {
        Seq::empty()
    } else {
        sets_list_xml(ts, i - 1) + entity_set_xml(ts[i - 1])
    }
}

/// The markup of the optional list.
pub open spec fn opt_sets_xml(ts: Option<Vec<EntitySet>>) -> Seq<char> {
    match ts {
        Some(v) => sets_list_xml(v@, v@.len() as int),
        None => Seq::empty(),
    }
}

/// The concatenated markup of the first `i` elements.
pub open spec fn singletons_list_xml(ts: Seq<Singleton>, i: int) -> Seq<char>
    decreases i,
{
    if i <= 0 || i > ts.len() {
        Seq::empty()
    } else {
        singletons_list_xml(ts, i - 1) + singleton_xml(ts[i - 1])
    }
}

/// The markup of the optional list.
pub open spec fn opt_singletons_xml(ts: Option<Vec<Singleton>>) -> Seq<char> {
    match ts {
        Some(v) => singletons_list_xml(v@, v@.len() as int),
        None => Seq::empty(),
    }
}

/// The concatenated markup of the first `i` elements.
pub open spec fn action_imports_list_xml(ts: Seq<ActionImport>, i: int) -> Seq<char>
    decreases i,
{
    if i <= 0 || i > ts.len() {
        Seq::empty()
    } else {
        action_imports_list_xml(ts, i - 1) + action_import_xml(ts[i - 1])
    }
}

/// The markup of the optional list.
pub open spec fn opt_action_imports_xml(ts: Option<Vec<ActionImport>>) -> Seq<char> {
    match ts {
        Some(v) => action_imports_list_xml(v@, v@.len() as int),
        None => Seq::empty(),
    }
}

/// The concatenated markup of the first `i` elements.
pub open spec fn function_imports_list_xml(ts: Seq<FunctionImport>, i: int) -> Seq<char>
    decreases i,
{
    if i <= 0 || i > ts.len() {
        Seq::empty()
    } else {
        function_imports_list_xml(ts, i - 1) + function_import_xml(ts[i - 1])
    }
}

/// The markup of the optional list.
pub open spec fn opt_function_imports_xml(ts: Option<Vec<FunctionImport>>) -> Seq<char> {
    match ts {
        Some(v) => function_imports_list_xml(v@, v@.len() as int),
        None => Seq::empty(),
    }
}

/// The concatenated markup of the first `i` elements.
pub open spec fn entity_types_list_xml(ts: Seq<EntityType>, i: int) -> Seq<char>
    decreases i,
{
    if i <= 0 || i > ts.len() {
        Seq::empty()
    } else {
        entity_types_list_xml(ts, i - 1) + entity_type_xml(ts[i - 1])
    }
}

/// The markup of the optional list.
pub open spec fn opt_entity_types_xml(ts: Option<Vec<EntityType>>) -> Seq<char> {
    match ts {
        Some(v) => entity_types_list_xml(v@, v@.len() as int),
        None => Seq::empty(),
    }
}

/// The concatenated markup of the first `i` elements.
pub open spec fn complex_types_list_xml(ts: Seq<ComplexType>, i: int) -> Seq<char>
    decreases i,
{
    if i <= 0 || i > ts.len() {
        Seq::empty()
    } else {
        complex_types_list_xml(ts, i - 1) + complex_type_xml(ts[i - 1])
    }
}

/// The markup of the optional list.
pub open spec fn opt_complex_types_xml(ts: Option<Vec<ComplexType>>) -> Seq<char> {
    match ts {
        Some(v) => complex_types_list_xml(v@, v@.len() as int),
        None => Seq::empty(),
    }
}

/// The concatenated markup of the first `i` elements.
pub open spec fn enum_types_list_xml(ts: Seq<EnumType>, i: int) -> Seq<char>
    decreases i,
{
    if i <= 0 || i > ts.len() {
        Seq::empty()
    } else {
        enum_types_list_xml(ts, i - 1) + enum_type_xml(ts[i - 1])
    }
}

/// The markup of the optional list.
pub open spec fn opt_enum_types_xml(ts: Option<Vec<EnumType>>) -> Seq<char> {
    match ts {
        Some(v) => enum_types_list_xml(v@, v@.len() as int),
        None => Seq::empty(),
    }
}

/// The concatenated markup of the first `i` elements.
pub open spec fn containers_list_xml(ts: Seq<EntityContainer>, i: int) -> Seq<char>
    decreases i,
{
    if i <= 0 || i > ts.len() {
        Seq::empty()
    } else {
        containers_list_xml(ts, i - 1) + entity_container_xml(ts[i - 1])
    }
}

/// The markup of the optional list.
pub open spec fn opt_containers_xml(ts: Option<Vec<EntityContainer>>) -> Seq<char> {
    match ts {
        Some(v) => containers_list_xml(v@, v@.len() as int),
        None => Seq::empty(),
    }
}

/// The concatenated markup of the first `i` elements.
pub open spec fn schemas_list_xml(ts: Seq<Schema>, i: int) -> Seq<char>
    decreases i,
{
    if i <= 0 || i > ts.len() {
        Seq::empty()
    } else {
        schemas_list_xml(ts, i - 1) + schema_xml(ts[i - 1])
    }
}

/// The markup of the optional list.
pub open spec fn opt_schemas_xml(ts: Option<Vec<Schema>>) -> Seq<char> {
    match ts {
        Some(v) => schemas_list_xml(v@, v@.len() as int),
        None => Seq::empty(),
    }
}

/// Sequence concatenation is associative.
proof fn lemma_cat3(a: Seq<char>, b: Seq<char>, c: Seq<char>)
    ensures
        (a + b) + c == a + (b + c),
{
    assert((a + b) + c =~= a + (b + c));
}

/// The empty sequence is a left unit.
proof fn lemma_cat_empty(a: Seq<char>)
    ensures
        Seq::<char>::empty() + a == a,
{
    assert(Seq::<char>::empty() + a =~= a);
}

/// Append a literal to the output.
fn push_lit(out: &mut Vec<char>, s: &str)
    ensures
        final(out)@ == old(out)@ + s@,
{
    let chars = str_chars(s);
    crate::chars::append_chars(out, &chars);
}

/// Append the escaped text of a string.
#[verifier::loop_isolation(false)]
fn push_escaped(out: &mut Vec<char>, s: &str)
    ensures
        final(out)@ == old(out)@ + xml_escape(s@),
{
    proof {
        reveal_strlit("&amp;");
        reveal_strlit("&lt;");
        reveal_strlit("&gt;");
        reveal_strlit("&quot;");
        reveal_strlit("&apos;");
    }
    let v = str_chars(s);
    let mut i: usize = 0;
    proof {
        assert(v@.skip(0) =~= v@);
        assert(old(out)@ + xml_escape(v@) =~= old(out)@ + xml_escape(v@));
    }
    while i < v.len()
        invariant
            i <= v@.len(),
            old(out)@ + xml_escape(v@) == out@ + xml_escape(v@.skip(i as int)),
        decreases v.len() - i,
    {
        proof {
            assert(v@.skip(i as int)[0] == v@[i as int]);
            assert(v@.skip(i as int).skip(1) =~= v@.skip(i + 1));
        }
        let c = v[i];
        if c == '&' {
            push_lit(out, "&amp;");
        } else if c == '<' {
            push_lit(out, "&lt;");
        } else if c == '>' {
            push_lit(out, "&gt;");
        } else if c == '"' {
            push_lit(out, "&quot;");
        } else if c == '\'' {
            push_lit(out, "&apos;");
        } else {
            out.push(c);
        }
        proof {
            assert(old(out)@ + xml_escape(v@) =~= out@ + xml_escape(v@.skip(i + 1)));
        }
        i += 1;
    }
    proof {
        assert(v@.skip(v@.len() as int) =~= Seq::<char>::empty());
        assert(out@ + Seq::<char>::empty() =~= out@);
    }
}

/// Append one escaped attribute.
fn push_attr(out: &mut Vec<char>, name: &str, value: &str)
    ensures
        final(out)@ == old(out)@ + xml_attr(name@, value@),
{
    proof {
        reveal_strlit("=\"");
    }
    out.push(' ');
    push_lit(out, name);
    push_lit(out, "=\"");
    push_escaped(out, value);
    out.push('"');
    proof {
        assert(out@ =~= old(out)@ + xml_attr(name@, value@));
    }
}

/// Append an attribute when the field is present.
fn push_opt_attr(out: &mut Vec<char>, name: &str, value: &Option<String>)
    ensures
        final(out)@ == old(out)@ + opt_attr(name@, *value),
{
    match value {
        Some(v) => {
            push_attr(out, name, v.as_str());
        },
        None => {
            proof {
                assert(out@ + Seq::<char>::empty() =~= out@);
            }
        },
    }
}

/// Append a boolean attribute when the field is present.
fn push_opt_bool_attr(out: &mut Vec<char>, name: &str, value: &Option<bool>)
    ensures
        final(out)@ == old(out)@ + opt_bool_attr(name@, *value),
{
    proof {
        reveal_strlit("true");
        reveal_strlit("false");
    }
    match value {
        Some(b) => {
            if *b {
                push_attr(out, name, "true");
            } else {
                push_attr(out, name, "false");
            }
        },
        None => {
            proof {
                assert(out@ + Seq::<char>::empty() =~= out@);
            }
        },
    }
}

/// Wrap attributes and a body into one element, self-closing when empty.
fn finish_elem(name: &str, attrs: &Vec<char>, body: &Vec<char>) -> (r: Vec<char>)
    ensures
        r@ == xml_elem(name@, attrs@, body@),
{
    proof {
        reveal_strlit("/>");
        reveal_strlit("</");
    }
    let mut out: Vec<char> = Vec::new();
    out.push('<');
    push_lit(&mut out, name);
    crate::chars::append_chars(&mut out, attrs);
    if body.len() == 0 {
        push_lit(&mut out, "/>");
        proof {
            assert(out@ =~= xml_elem(name@, attrs@, body@));
        }
    } else {
        out.push('>');
        crate::chars::append_chars(&mut out, body);
        push_lit(&mut out, "</");
        push_lit(&mut out, name);
        out.push('>');
        proof {
            assert(out@ =~= xml_elem(name@, attrs@, body@));
        }
    }
    out
}

/// Append a child element with escaped text when the field is present.
fn push_opt_text_elem(out: &mut Vec<char>, name: &str, value: &Option<String>)
    ensures
        final(out)@ == old(out)@ + opt_text_elem(name@, *value),
{
    match value {
        Some(v) => {
            let mut body: Vec<char> = Vec::new();
            push_escaped(&mut body, v.as_str());
            proof {
                assert(body@ =~= Seq::<char>::empty() + xml_escape(v@));
                assert(body@ =~= xml_escape(v@));
            }
            let elem = finish_elem(name, &Vec::new(), &body);
            crate::chars::append_chars(out, &elem);
        },
        None => {
            proof {
                assert(out@ + Seq::<char>::empty() =~= out@);
            }
        },
    }
}

/// Render a property reference.
fn property_ref_chars(p: &PropertyRef) -> (r: Vec<char>)
    ensures
        r@ == property_ref_xml(*p),
{
    proof {
        reveal_strlit("PropertyRef");
        reveal_strlit("Name");
    }
    let mut attrs: Vec<char> = Vec::new();
    push_attr(&mut attrs, "Name", p.name.as_str());
    proof {
        assert(attrs@ =~= xml_attr("Name"@, p.name@));
    }
    finish_elem("PropertyRef", &attrs, &Vec::new())
}

/// Render the optional reference list.
#[verifier::loop_isolation(false)]
fn push_opt_refs(out: &mut Vec<char>, refs: &Option<Vec<PropertyRef>>)
    ensures
        final(out)@ == old(out)@ + opt_refs_xml(*refs),
{
    match refs {
        Some(v) => {
            let mut i: usize = 0;
            while i < v.len()
                invariant
                    i <= v@.len(),
                    out@ == old(out)@ + refs_list_xml(v@, i as int),
                decreases v@.len() - i,
            {
                let child = property_ref_chars(&v[i]);
                crate::chars::append_chars(out, &child);
                proof {
                    assert(out@ =~= old(out)@ + refs_list_xml(v@, i + 1));
                }
                i += 1;
            }
        },
        None => {
            proof {
                assert(out@ + Seq::<char>::empty() =~= out@);
            }
        },
    }
}

/// Render an entity key.
fn key_chars(k: &Key) -> (r: Vec<char>)
    ensures
        r@ == key_xml(*k),
{
    proof {
        reveal_strlit("Key");
    }
    let mut body: Vec<char> = Vec::new();
    push_opt_refs(&mut body, &k.property_ref);
    proof {
        assert(body@ =~= opt_refs_xml(k.property_ref));
    }
    finish_elem("Key", &Vec::new(), &body)
}

/// Render a structural property.
fn property_chars(p: &Property) -> (r: Vec<char>)
    ensures
        r@ == property_xml(*p),
{
    proof {
        reveal_strlit("Property");
        reveal_strlit("Name");
        reveal_strlit("Type");
        reveal_strlit("Nullable");
        reveal_strlit("DefaultValue");
        reveal_strlit("MaxLength");
        reveal_strlit("Precision");
        reveal_strlit("Scale");
        reveal_strlit("Unicode");
        reveal_strlit("SRID");
        reveal_strlit("ConcurrencyMode");
    }
    let mut attrs: Vec<char> = Vec::new();
    push_attr(&mut attrs, "Name", p.name.as_str());
    push_attr(&mut attrs, "Type", p._type.as_str());
    push_opt_attr(&mut attrs, "Nullable", &p.nullable);
    let mut body: Vec<char> = Vec::new();
    push_opt_text_elem(&mut body, "DefaultValue", &p.default_value);
    push_opt_text_elem(&mut body, "MaxLength", &p.max_length);
    push_opt_text_elem(&mut body, "Precision", &p.precision);
    push_opt_text_elem(&mut body, "Scale", &p.scale);
    push_opt_text_elem(&mut body, "Unicode", &p.unicode);
    push_opt_text_elem(&mut body, "SRID", &p.srid);
    push_opt_text_elem(&mut body, "ConcurrencyMode", &p.concurrency_mode);
    proof {
        assert(attrs@ =~= xml_attr("Name"@, p.name@) + xml_attr("Type"@, p._type@) + opt_attr(
            "Nullable"@,
            p.nullable,
        ));
        assert(body@ =~= opt_text_elem("DefaultValue"@, p.default_value) + opt_text_elem(
            "MaxLength"@,
            p.max_length,
        ) + opt_text_elem("Precision"@, p.precision) + opt_text_elem("Scale"@, p.scale)
            + opt_text_elem("Unicode"@, p.unicode) + opt_text_elem("SRID"@, p.srid)
            + opt_text_elem("ConcurrencyMode"@, p.concurrency_mode));
    }
    finish_elem("Property", &attrs, &body)
}

/// Render an enumeration member.
fn member_chars(m: &Member) -> (r: Vec<char>)
    ensures
        r@ == member_xml(*m),
{
    proof {
        reveal_strlit("Member");
        reveal_strlit("Name");
        reveal_strlit("Value");
    }
    let mut attrs: Vec<char> = Vec::new();
    push_attr(&mut attrs, "Name", m.name.as_str());
    push_attr(&mut attrs, "Value", m.value.as_str());
    proof {
        assert(attrs@ =~= xml_attr("Name"@, m.name@) + xml_attr("Value"@, m.value@));
    }
    finish_elem("Member", &attrs, &Vec::new())
}

/// Render a constraint end.
fn principal_chars(p: &Principal) -> (r: Vec<char>)
    ensures
        r@ == principal_xml(*p),
{
    proof {
        reveal_strlit("Principal");
        reveal_strlit("Role");
    }
    let mut role_body: Vec<char> = Vec::new();
    push_escaped(&mut role_body, p.role.as_str());
    proof {
        assert(role_body@ =~= xml_escape(p.role@));
    }
    let role = finish_elem("Role", &Vec::new(), &role_body);
    let mut body: Vec<char> = Vec::new();
    crate::chars::append_chars(&mut body, &role);
    push_opt_refs(&mut body, &p.property_ref);
    proof {
        assert(body@ =~= xml_elem("Role"@, Seq::empty(), xml_escape(p.role@)) + opt_refs_xml(
            p.property_ref,
        ));
    }
    finish_elem("Principal", &Vec::new(), &body)
}

/// Render a constraint end.
fn dependent_chars(p: &Dependent) -> (r: Vec<char>)
    ensures
        r@ == dependent_xml(*p),
{
    proof {
        reveal_strlit("Dependent");
        reveal_strlit("Role");
    }
    let mut role_body: Vec<char> = Vec::new();
    push_escaped(&mut role_body, p.role.as_str());
    proof {
        assert(role_body@ =~= xml_escape(p.role@));
    }
    let role = finish_elem("Role", &Vec::new(), &role_body);
    let mut body: Vec<char> = Vec::new();
    crate::chars::append_chars(&mut body, &role);
    push_opt_refs(&mut body, &p.property_ref);
    proof {
        assert(body@ =~= xml_elem("Role"@, Seq::empty(), xml_escape(p.role@)) + opt_refs_xml(
            p.property_ref,
        ));
    }
    finish_elem("Dependent", &Vec::new(), &body)
}

/// Render a navigation property.
#[verifier::spinoff_prover]
fn navigation_property_chars(n: &NavigationProperty) -> (r: Vec<char>)
    ensures
        r@ == navigation_property_xml(*n),
{
    proof {
        reveal_strlit("NavigationProperty");
        reveal_strlit("Name");
        reveal_strlit("Type");
        reveal_strlit("Nullable");
        reveal_strlit("Partner");
        reveal_strlit("ContainsTarget");
        reveal_strlit("ReferentialConstraint");
        reveal_strlit("OnDelete");
        reveal_strlit("Action");
    }
    let mut attrs: Vec<char> = Vec::new();
    push_attr(&mut attrs, "Name", n.name.as_str());
    push_attr(&mut attrs, "Type", n._type.as_str());
    push_opt_attr(&mut attrs, "Nullable", &n.nullable);
    let mut body: Vec<char> = Vec::new();
    push_opt_text_elem(&mut body, "Partner", &n.partner);
    push_opt_text_elem(&mut body, "ContainsTarget", &n.contains_target);
    match &n.referential_constraint {
        Some(c) => {
            let mut c_body: Vec<char> = Vec::new();
            let pr = principal_chars(&c.principal);
            crate::chars::append_chars(&mut c_body, &pr);
            let dp = dependent_chars(&c.dependent);
            crate::chars::append_chars(&mut c_body, &dp);
            proof {
                assert(c_body@ =~= principal_xml(c.principal) + dependent_xml(c.dependent));
            }
            let elem = finish_elem("ReferentialConstraint", &Vec::new(), &c_body);
            crate::chars::append_chars(&mut body, &elem);
        },
        None => {
            proof {
                assert(body@ + Seq::<char>::empty() =~= body@);
            }
        },
    }
    match &n.on_delete {
        Some(d) => {
            let mut a_body: Vec<char> = Vec::new();
            push_escaped(&mut a_body, d.action.as_str());
            proof {
                assert(a_body@ =~= xml_escape(d.action@));
            }
            let action = finish_elem("Action", &Vec::new(), &a_body);
            let elem = finish_elem("OnDelete", &Vec::new(), &action);
            crate::chars::append_chars(&mut body, &elem);
        },
        None => {
            proof {
                assert(body@ + Seq::<char>::empty() =~= body@);
            }
        },
    }
    proof {
        assert(attrs@ =~= xml_attr("Name"@, n.name@) + xml_attr("Type"@, n._type@) + opt_attr(
            "Nullable"@,
            n.nullable,
        ));
        assert(body@ =~= opt_text_elem("Partner"@, n.partner) + opt_text_elem(
            "ContainsTarget"@,
            n.contains_target,
        ) + (match n.referential_constraint {
            Some(c) => referential_constraint_xml(c),
            None => Seq::<char>::empty(),
        }) + (match n.on_delete {
            Some(d) => on_delete_xml(d),
            None => Seq::<char>::empty(),
        }));
    }
    finish_elem("NavigationProperty", &attrs, &body)
}

/// Append the optional list of children.
#[verifier::loop_isolation(false)]
fn push_opt_keys(out: &mut Vec<char>, ts: &Option<Vec<Key>>)
    ensures
        final(out)@ == old(out)@ + opt_keys_xml(*ts),
{
    match ts {
        Some(v) => {
            let mut i: usize = 0;
            while i < v.len()
                invariant
                    i <= v@.len(),
                    out@ == old(out)@ + keys_list_xml(v@, i as int),
                decreases v@.len() - i,
            {
                let child = key_chars(&v[i]);
                crate::chars::append_chars(out, &child);
                proof {
                    assert(out@ =~= old(out)@ + keys_list_xml(v@, i + 1));
                }
                i += 1;
            }
        },
        None => {
            proof {
                assert(out@ + Seq::<char>::empty() =~= out@);
            }
        },
    }
}
/// Append the optional list of children.
#[verifier::loop_isolation(false)]
fn push_opt_props(out: &mut Vec<char>, ts: &Option<Vec<Property>>)
    ensures
        final(out)@ == old(out)@ + opt_props_xml(*ts),
{
    match ts {
        Some(v) => {
            let mut i: usize = 0;
            while i < v.len()
                invariant
                    i <= v@.len(),
                    out@ == old(out)@ + props_list_xml(v@, i as int),
                decreases v@.len() - i,
            {
                let child = property_chars(&v[i]);
                crate::chars::append_chars(out, &child);
                proof {
                    assert(out@ =~= old(out)@ + props_list_xml(v@, i + 1));
                }
                i += 1;
            }
        },
        None => {
            proof {
                assert(out@ + Seq::<char>::empty() =~= out@);
            }
        },
    }
}
/// Append the optional list of children.
#[verifier::loop_isolation(false)]
fn push_opt_navs(out: &mut Vec<char>, ts: &Option<Vec<NavigationProperty>>)
    ensures
        final(out)@ == old(out)@ + opt_navs_xml(*ts),
{
    match ts {
        Some(v) => {
            let mut i: usize = 0;
            while i < v.len()
                invariant
                    i <= v@.len(),
                    out@ == old(out)@ + navs_list_xml(v@, i as int),
                decreases v@.len() - i,
            {
                let child = navigation_property_chars(&v[i]);
                crate::chars::append_chars(out, &child);
                proof {
                    assert(out@ =~= old(out)@ + navs_list_xml(v@, i + 1));
                }
                i += 1;
            }
        },
        None => {
            proof {
                assert(out@ + Seq::<char>::empty() =~= out@);
            }
        },
    }
}
/// Append the optional list of children.
#[verifier::loop_isolation(false)]
fn push_opt_members(out: &mut Vec<char>, ts: &Option<Vec<Member>>)
    ensures
        final(out)@ == old(out)@ + opt_members_xml(*ts),
{
    match ts {
        Some(v) => {
            let mut i: usize = 0;
            while i < v.len()
                invariant
                    i <= v@.len(),
                    out@ == old(out)@ + members_list_xml(v@, i as int),
                decreases v@.len() - i,
            {
                let child = member_chars(&v[i]);
                crate::chars::append_chars(out, &child);
                proof {
                    assert(out@ =~= old(out)@ + members_list_xml(v@, i + 1));
                }
                i += 1;
            }
        },
        None => {
            proof {
                assert(out@ + Seq::<char>::empty() =~= out@);
            }
        },
    }
}
/// Append the optional list of children.
#[verifier::loop_isolation(false)]
fn push_opt_bindings(out: &mut Vec<char>, ts: &Option<Vec<NavigationPropertyBinding>>)
    ensures
        final(out)@ == old(out)@ + opt_bindings_xml(*ts),
{
    match ts {
        Some(v) => {
            let mut i: usize = 0;
            while i < v.len()
                invariant
                    i <= v@.len(),
                    out@ == old(out)@ + bindings_list_xml(v@, i as int),
                decreases v@.len() - i,
            {
                let child = binding_chars(&v[i]);
                crate::chars::append_chars(out, &child);
                proof {
                    assert(out@ =~= old(out)@ + bindings_list_xml(v@, i + 1));
                }
                i += 1;
            }
        },
        None => {
            proof {
                assert(out@ + Seq::<char>::empty() =~= out@);
            }
        },
    }
}
/// Render an entity type with its key and properties.
#[verifier::spinoff_prover]
pub fn entity_type_chars(t: &EntityType) -> (r: Vec<char>)
    ensures
        r@ == entity_type_xml(*t),
{
    proof {
        reveal(entity_type_xml);
        reveal_strlit("EntityType");
        reveal_strlit("Name");
        reveal_strlit("HasStream");
        reveal_strlit("OpenType");
    }
    let mut attrs: Vec<char> = Vec::new();
    push_attr(&mut attrs, "Name", t.name.as_str());
    push_opt_bool_attr(&mut attrs, "HasStream", &t.has_stream);
    push_opt_bool_attr(&mut attrs, "OpenType", &t.open_type);
    let mut body: Vec<char> = Vec::new();
    push_opt_keys(&mut body, &t.key);
    push_opt_props(&mut body, &t.property);
    push_opt_navs(&mut body, &t.navigation_property);
    proof {
        assert(attrs@ =~= xml_attr("Name"@, t.name@) + opt_bool_attr("HasStream"@, t.has_stream)
            + opt_bool_attr("OpenType"@, t.open_type));
        assert(body@ =~= opt_keys_xml(t.key) + opt_props_xml(t.property) + opt_navs_xml(
            t.navigation_property,
        ));
    }
    finish_elem("EntityType", &attrs, &body)
}

/// Render a complex type.
#[verifier::spinoff_prover]
fn complex_type_chars(t: &ComplexType) -> (r: Vec<char>)
    ensures
        r@ == complex_type_xml(*t),
{
    proof {
        reveal_strlit("ComplexType");
        reveal_strlit("Name");
    }
    let mut attrs: Vec<char> = Vec::new();
    push_attr(&mut attrs, "Name", t.name.as_str());
    let mut body: Vec<char> = Vec::new();
    push_opt_props(&mut body, &t.property);
    push_opt_navs(&mut body, &t.navigation_property);
    proof {
        assert(attrs@ =~= xml_attr("Name"@, t.name@));
        assert(body@ =~= opt_props_xml(t.property) + opt_navs_xml(t.navigation_property));
    }
    finish_elem("ComplexType", &attrs, &body)
}

/// Render an enumeration type.
#[verifier::spinoff_prover]
fn enum_type_chars(t: &EnumType) -> (r: Vec<char>)
    ensures
        r@ == enum_type_xml(*t),
{
    proof {
        reveal_strlit("EnumType");
        reveal_strlit("Name");
    }
    let mut attrs: Vec<char> = Vec::new();
    push_attr(&mut attrs, "Name", t.name.as_str());
    let mut body: Vec<char> = Vec::new();
    push_opt_members(&mut body, &t.member);
    proof {
        assert(attrs@ =~= xml_attr("Name"@, t.name@));
        assert(body@ =~= opt_members_xml(t.member));
    }
    finish_elem("EnumType", &attrs, &body)
}

/// Render a navigation binding.
fn binding_chars(b: &NavigationPropertyBinding) -> (r: Vec<char>)
    ensures
        r@ == navigation_property_binding_xml(*b),
{
    proof {
        reveal_strlit("NavigationPropertyBinding");
        reveal_strlit("Path");
        reveal_strlit("Target");
    }
    let mut attrs: Vec<char> = Vec::new();
    push_attr(&mut attrs, "Path", b.path.as_str());
    push_attr(&mut attrs, "Target", b.target.as_str());
    proof {
        assert(attrs@ =~= xml_attr("Path"@, b.path@) + xml_attr("Target"@, b.target@));
    }
    finish_elem("NavigationPropertyBinding", &attrs, &Vec::new())
}

/// Render an entity set.
#[verifier::spinoff_prover]
fn entity_set_chars(s: &EntitySet) -> (r: Vec<char>)
    ensures
        r@ == entity_set_xml(*s),
{
    proof {
        reveal_strlit("EntitySet");
        reveal_strlit("Name");
        reveal_strlit("EntityType");
        reveal_strlit("IncludeAnnotations");
    }
    let mut attrs: Vec<char> = Vec::new();
    push_attr(&mut attrs, "Name", s.name.as_str());
    push_attr(&mut attrs, "EntityType", s.entity_type.as_str());
    let mut body: Vec<char> = Vec::new();
    push_opt_text_elem(&mut body, "IncludeAnnotations", &s.include_annotations);
    push_opt_bindings(&mut body, &s.navigation_property_binding);
    proof {
        assert(attrs@ =~= xml_attr("Name"@, s.name@) + xml_attr("EntityType"@, s.entity_type@));
        assert(body@ =~= opt_text_elem("IncludeAnnotations"@, s.include_annotations)
            + opt_bindings_xml(s.navigation_property_binding));
    }
    finish_elem("EntitySet", &attrs, &body)
}

/// Render a singleton.
#[verifier::spinoff_prover]
fn singleton_chars(s: &Singleton) -> (r: Vec<char>)
    ensures
        r@ == singleton_xml(*s),
{
    proof {
        reveal_strlit("Singleton");
        reveal_strlit("Name");
        reveal_strlit("Type");
    }
    let mut attrs: Vec<char> = Vec::new();
    push_attr(&mut attrs, "Name", s.name.as_str());
    push_attr(&mut attrs, "Type", s._type.as_str());
    let mut body: Vec<char> = Vec::new();
    push_opt_bindings(&mut body, &s.navigation_property_binding);
    proof {
        assert(attrs@ =~= xml_attr("Name"@, s.name@) + xml_attr("Type"@, s._type@));
        assert(body@ =~= Seq::<char>::empty() + opt_bindings_xml(s.navigation_property_binding));
        assert(body@ =~= opt_bindings_xml(s.navigation_property_binding));
    }
    finish_elem("Singleton", &attrs, &body)
}

/// Render an action import.
#[verifier::spinoff_prover]
fn action_import_chars(a: &ActionImport) -> (r: Vec<char>)
    ensures
        r@ == action_import_xml(*a),
{
    proof {
        reveal_strlit("ActionImport");
        reveal_strlit("Name");
        reveal_strlit("Action");
        reveal_strlit("EntitySet");
    }
    let mut attrs: Vec<char> = Vec::new();
    push_attr(&mut attrs, "Name", a.name.as_str());
    push_attr(&mut attrs, "Action", a.action.as_str());
    let mut body: Vec<char> = Vec::new();
    push_opt_text_elem(&mut body, "EntitySet", &a.entity_set);
    proof {
        assert(attrs@ =~= xml_attr("Name"@, a.name@) + xml_attr("Action"@, a.action@));
        assert(body@ =~= Seq::<char>::empty() + opt_text_elem("EntitySet"@, a.entity_set));
        assert(body@ =~= opt_text_elem("EntitySet"@, a.entity_set));
    }
    finish_elem("ActionImport", &attrs, &body)
}

/// Render a function import.
#[verifier::spinoff_prover]
fn function_import_chars(f: &FunctionImport) -> (r: Vec<char>)
    ensures
        r@ == function_import_xml(*f),
{
    proof {
        reveal_strlit("FunctionImport");
        reveal_strlit("Name");
        reveal_strlit("Function");
        reveal_strlit("EntitySet");
        reveal_strlit("IncludeInServiceDocument");
    }
    let mut attrs: Vec<char> = Vec::new();
    push_attr(&mut attrs, "Name", f.name.as_str());
    push_attr(&mut attrs, "Function", f.function.as_str());
    let mut body: Vec<char> = Vec::new();
    push_opt_text_elem(&mut body, "EntitySet", &f.entity_set);
    push_opt_text_elem(&mut body, "IncludeInServiceDocument", &f.include_in_service_document);
    proof {
        assert(attrs@ =~= xml_attr("Name"@, f.name@) + xml_attr("Function"@, f.function@));
        assert(body@ =~= opt_text_elem("EntitySet"@, f.entity_set) + opt_text_elem(
            "IncludeInServiceDocument"@,
            f.include_in_service_document,
        ));
    }
    finish_elem("FunctionImport", &attrs, &body)
}

/// Append the optional list of children.
#[verifier::loop_isolation(false)]
fn push_opt_sets(out: &mut Vec<char>, ts: &Option<Vec<EntitySet>>)
    ensures
        final(out)@ == old(out)@ + opt_sets_xml(*ts),
{
    match ts {
        Some(v) => {
            let mut i: usize = 0;
            while i < v.len()
                invariant
                    i <= v@.len(),
                    out@ == old(out)@ + sets_list_xml(v@, i as int),
                decreases v@.len() - i,
            {
                let child = entity_set_chars(&v[i]);
                crate::chars::append_chars(out, &child);
                proof {
                    assert(out@ =~= old(out)@ + sets_list_xml(v@, i + 1));
                }
                i += 1;
            }
        },
        None => {
            proof {
                assert(out@ + Seq::<char>::empty() =~= out@);
            }
        },
    }
}
/// Append the optional list of children.
#[verifier::loop_isolation(false)]
fn push_opt_singletons(out: &mut Vec<char>, ts: &Option<Vec<Singleton>>)
    ensures
        final(out)@ == old(out)@ + opt_singletons_xml(*ts),
{
    match ts {
        Some(v) => {
            let mut i: usize = 0;
            while i < v.len()
                invariant
                    i <= v@.len(),
                    out@ == old(out)@ + singletons_list_xml(v@, i as int),
                decreases v@.len() - i,
            {
                let child = singleton_chars(&v[i]);
                crate::chars::append_chars(out, &child);
                proof {
                    assert(out@ =~= old(out)@ + singletons_list_xml(v@, i + 1));
                }
                i += 1;
            }
        },
        None => {
            proof {
                assert(out@ + Seq::<char>::empty() =~= out@);
            }
        },
    }
}
/// Append the optional list of children.
#[verifier::loop_isolation(false)]
fn push_opt_action_imports(out: &mut Vec<char>, ts: &Option<Vec<ActionImport>>)
    ensures
        final(out)@ == old(out)@ + opt_action_imports_xml(*ts),
{
    match ts {
        Some(v) => {
            let mut i: usize = 0;
            while i < v.len()
                invariant
                    i <= v@.len(),
                    out@ == old(out)@ + action_imports_list_xml(v@, i as int),
                decreases v@.len() - i,
            {
                let child = action_import_chars(&v[i]);
                crate::chars::append_chars(out, &child);
                proof {
                    assert(out@ =~= old(out)@ + action_imports_list_xml(v@, i + 1));
                }
                i += 1;
            }
        },
        None => {
            proof {
                assert(out@ + Seq::<char>::empty() =~= out@);
            }
        },
    }
}
/// Append the optional list of children.
#[verifier::loop_isolation(false)]
fn push_opt_function_imports(out: &mut Vec<char>, ts: &Option<Vec<FunctionImport>>)
    ensures
        final(out)@ == old(out)@ + opt_function_imports_xml(*ts),
{
    match ts {
        Some(v) => {
            let mut i: usize = 0;
            while i < v.len()
                invariant
                    i <= v@.len(),
                    out@ == old(out)@ + function_imports_list_xml(v@, i as int),
                decreases v@.len() - i,
            {
                let child = function_import_chars(&v[i]);
                crate::chars::append_chars(out, &child);
                proof {
                    assert(out@ =~= old(out)@ + function_imports_list_xml(v@, i + 1));
                }
                i += 1;
            }
        },
        None => {
            proof {
                assert(out@ + Seq::<char>::empty() =~= out@);
            }
        },
    }
}
/// Append the optional list of children.
#[verifier::spinoff_prover]
#[verifier::loop_isolation(false)]
fn push_opt_entity_types(out: &mut Vec<char>, ts: &Option<Vec<EntityType>>)
    ensures
        final(out)@ == old(out)@ + opt_entity_types_xml(*ts),
{
    match ts {
        Some(v) => {
            let mut i: usize = 0;
            while i < v.len()
                invariant
                    i <= v@.len(),
                    out@ == old(out)@ + entity_types_list_xml(v@, i as int),
                decreases v@.len() - i,
            {
                let child = entity_type_chars(&v[i]);
                crate::chars::append_chars(out, &child);
                proof {
                    lemma_cat3(
                        old(out)@,
                        entity_types_list_xml(v@, i as int),
                        entity_type_xml(v@[i as int]),
                    );
                    assert(entity_types_list_xml(v@, i + 1) == entity_types_list_xml(v@, i as int)
                        + entity_type_xml(v@[i as int]));
                }
                i += 1;
            }
        },
        None => {
            proof {
                assert(out@ + Seq::<char>::empty() =~= out@);
            }
        },
    }
}
/// Append the optional list of children.
#[verifier::loop_isolation(false)]
fn push_opt_complex_types(out: &mut Vec<char>, ts: &Option<Vec<ComplexType>>)
    ensures
        final(out)@ == old(out)@ + opt_complex_types_xml(*ts),
{
    match ts {
        Some(v) => {
            let mut i: usize = 0;
            while i < v.len()
                invariant
                    i <= v@.len(),
                    out@ == old(out)@ + complex_types_list_xml(v@, i as int),
                decreases v@.len() - i,
            {
                let child = complex_type_chars(&v[i]);
                crate::chars::append_chars(out, &child);
                proof {
                    assert(out@ =~= old(out)@ + complex_types_list_xml(v@, i + 1));
                }
                i += 1;
            }
        },
        None => {
            proof {
                assert(out@ + Seq::<char>::empty() =~= out@);
            }
        },
    }
}
/// Append the optional list of children.
#[verifier::loop_isolation(false)]
fn push_opt_enum_types(out: &mut Vec<char>, ts: &Option<Vec<EnumType>>)
    ensures
        final(out)@ == old(out)@ + opt_enum_types_xml(*ts),
{
    match ts {
        Some(v) => {
            let mut i: usize = 0;
            while i < v.len()
                invariant
                    i <= v@.len(),
                    out@ == old(out)@ + enum_types_list_xml(v@, i as int),
                decreases v@.len() - i,
            {
                let child = enum_type_chars(&v[i]);
                crate::chars::append_chars(out, &child);
                proof {
                    assert(out@ =~= old(out)@ + enum_types_list_xml(v@, i + 1));
                }
                i += 1;
            }
        },
        None => {
            proof {
                assert(out@ + Seq::<char>::empty() =~= out@);
            }
        },
    }
}
/// Append the optional list of children.
#[verifier::loop_isolation(false)]
fn push_opt_containers(out: &mut Vec<char>, ts: &Option<Vec<EntityContainer>>)
    ensures
        final(out)@ == old(out)@ + opt_containers_xml(*ts),
{
    match ts {
        Some(v) => {
            let mut i: usize = 0;
            while i < v.len()
                invariant
                    i <= v@.len(),
                    out@ == old(out)@ + containers_list_xml(v@, i as int),
                decreases v@.len() - i,
            {
                let child = entity_container_chars(&v[i]);
                crate::chars::append_chars(out, &child);
                proof {
                    assert(out@ =~= old(out)@ + containers_list_xml(v@, i + 1));
                }
                i += 1;
            }
        },
        None => {
            proof {
                assert(out@ + Seq::<char>::empty() =~= out@);
            }
        },
    }
}
/// Render an entity container with its sets and imports.
#[verifier::spinoff_prover]
fn entity_container_chars(c: &EntityContainer) -> (r: Vec<char>)
    ensures
        r@ == entity_container_xml(*c),
{
    proof {
        reveal_strlit("EntityContainer");
        reveal_strlit("Name");
    }
    let mut attrs: Vec<char> = Vec::new();
    push_attr(&mut attrs, "Name", c.name.as_str());
    let mut body: Vec<char> = Vec::new();
    push_opt_sets(&mut body, &c.entity_set);
    push_opt_singletons(&mut body, &c.singleton);
    push_opt_action_imports(&mut body, &c.action_import);
    push_opt_function_imports(&mut body, &c.function_import);
    proof {
        assert(attrs@ =~= xml_attr("Name"@, c.name@));
        assert(body@ =~= opt_sets_xml(c.entity_set) + opt_singletons_xml(c.singleton)
            + opt_action_imports_xml(c.action_import) + opt_function_imports_xml(
            c.function_import,
        ));
    }
    finish_elem("EntityContainer", &attrs, &body)
}

/// Render a schema with its entity types.
#[verifier::spinoff_prover]
pub fn schema_chars(s: &Schema) -> (r: Vec<char>)
    ensures
        r@ == schema_xml(*s),
{
    proof {
        reveal(schema_xml);
        reveal_strlit("Schema");
        reveal_strlit("Namespace");
        reveal_strlit("xmlns");
    }
    let mut attrs: Vec<char> = Vec::new();
    push_attr(&mut attrs, "Namespace", s.namespace.as_str());
    push_opt_attr(&mut attrs, "xmlns", &s.xmlns);
    let mut body: Vec<char> = Vec::new();
    push_opt_entity_types(&mut body, &s.entity_type);
    push_opt_complex_types(&mut body, &s.complex_type);
    push_opt_enum_types(&mut body, &s.enum_type);
    push_opt_containers(&mut body, &s.entity_container);
    proof {
        assert(attrs@ =~= xml_attr("Namespace"@, s.namespace@) + opt_attr("xmlns"@, s.xmlns));
        assert(body@ =~= opt_entity_types_xml(s.entity_type) + opt_complex_types_xml(
            s.complex_type,
        ) + opt_enum_types_xml(s.enum_type) + opt_containers_xml(s.entity_container));
    }
    finish_elem("Schema", &attrs, &body)
}

/// Serialize a whole metadata document as XML text.
#[verifier::rlimit(100)]
#[verifier::spinoff_prover]
#[verifier::loop_isolation(false)]
pub fn edmx_to_xml(e: &Edmx) -> (r: String)
    ensures
        r@ == edmx_xml(*e),
{
    proof {
        reveal_strlit("edmx:Edmx");
        reveal_strlit("edmx:DataServices");
        reveal_strlit("Version");
        reveal_strlit("xmlns:edmx");
    }
    let mut attrs: Vec<char> = Vec::new();
    push_attr(&mut attrs, "Version", e.version.as_str());
    push_opt_attr(&mut attrs, "xmlns:edmx", &e.xmlns);
    let mut ds_body: Vec<char> = Vec::new();
    let mut i: usize = 0;
    while i < e.data_services.schema.len()
        invariant
            i <= e.data_services.schema@.len(),
            ds_body@ == schemas_list_xml(e.data_services.schema@, i as int),
        decreases e.data_services.schema@.len() - i,
    {
        let child = schema_chars(&e.data_services.schema[i]);
        crate::chars::append_chars(&mut ds_body, &child);
        proof {
            lemma_cat_empty(schema_xml(e.data_services.schema@[0]));
            lemma_cat3(
                Seq::<char>::empty(),
                schemas_list_xml(e.data_services.schema@, i as int),
                schema_xml(e.data_services.schema@[i as int]),
            );
            assert(schemas_list_xml(e.data_services.schema@, i + 1) == schemas_list_xml(
                e.data_services.schema@,
                i as int,
            ) + schema_xml(e.data_services.schema@[i as int]));
            assert(ds_body@ == schemas_list_xml(e.data_services.schema@, i + 1));
        }
        i += 1;
    }
    let ds = finish_elem("edmx:DataServices", &Vec::new(), &ds_body);
    proof {
        lemma_cat_empty(xml_attr("Version"@, e.version@));
        lemma_cat3(Seq::<char>::empty(), xml_attr("Version"@, e.version@), opt_attr("xmlns:edmx"@, e.xmlns));
        assert(attrs@ == xml_attr("Version"@, e.version@) + opt_attr("xmlns:edmx"@, e.xmlns));
    }
    let out = finish_elem("edmx:Edmx", &attrs, &ds);
    string_from_chars(&out)
}

} // verus!
