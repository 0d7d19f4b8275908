//! The process-wide model: registered resources by entity-set name, and
//! the EDM document served at `$metadata`.

use vstd::prelude::*;

use crate::edm::DataServices;
use crate::edm::Edmx;
use crate::edm::EntityType;
use crate::edm::Schema;
use crate::resource::ODataResource;
use crate::value::Entity;

verus! {

/// The registered resources, keyed by entity-set name (unique), and one
/// EDM tree whose first schema collects the reflected entity types.
pub struct ODataModel {
    resources: Vec<(String, ODataResource)>,
    edm: Edmx,
}

/// The first registered resource under a name, from position `i` on.
pub open spec fn find_resource(
    rs: Seq<(String, ODataResource)>,
    name: Seq<char>,
    i: int,
) -> Option<int>
    decreases rs.len() - i,
{
    if i < 0 || i >= rs.len() {
        None
    } else if rs[i].0@ == name {
        Some(i)
    } else {
        find_resource(rs, name, i + 1)
    }
}

/// The first entity type with the given name, from position `i` on.
pub open spec fn find_entity_type(ts: Seq<EntityType>, name: Seq<char>, i: int) -> Option<int>
    decreases ts.len() - i,
{
    if i < 0 || i >= ts.len() {
        None
    } else if ts[i].name@ == name {
        Some(i)
    } else {
        find_entity_type(ts, name, i + 1)
    }
}

proof fn lemma_find_resource_range(rs: Seq<(String, ODataResource)>, name: Seq<char>, j: int)
    ensures
        find_resource(rs, name, j) matches Some(i) ==> j <= i < rs.len() && rs[i].0@ == name,
        (find_resource(rs, name, j) is None && j >= 0) ==> forall|i: int|
            j <= i < rs.len() ==> (#[trigger] rs[i]).0@ != name,
    decreases rs.len() - j,
{
    if 0 <= j < rs.len() && rs[j].0@ != name {
        lemma_find_resource_range(rs, name, j + 1);
    }
}

proof fn lemma_find_entity_type_range(ts: Seq<EntityType>, name: Seq<char>, j: int)
    ensures
        find_entity_type(ts, name, j) matches Some(i) ==> j <= i < ts.len() && ts[i].name@ == name,
    decreases ts.len() - j,
{
    if 0 <= j < ts.len() && ts[j].name@ != name {
        lemma_find_entity_type_range(ts, name, j + 1);
    }
}

impl ODataModel {
    /// The registered pairs of name and resource.
    pub closed spec fn resources_view(self) -> Seq<(String, ODataResource)> {
        self.resources@
    }

    /// The EDM tree.
    pub closed spec fn edm_view(self) -> Edmx {
        self.edm
    }

    /// Names are unique, and the EDM tree holds at least its first schema.
    pub closed spec fn wf(self) -> bool {
        &&& (forall|i: int, j: int|
            0 <= i < j < self.resources@.len() ==> (#[trigger] self.resources@[i]).0@ != (
            #[trigger] self.resources@[j]).0@)
        &&& self.edm.data_services.schema@.len() >= 1
    }

    /// A fresh model: no resources, and an EDM tree holding one schema
    /// with the default namespace.
    pub fn new() -> (r: ODataModel)
        ensures
            r.wf(),
            r.resources_view().len() == 0,
            r.edm_view().data_services.schema@.len() == 1,
            r.edm_view().data_services.schema@[0].namespace@ == "Default"@,
            r.edm_view().data_services.schema@[0].entity_type is None,
            r.edm_view().version@ == "4.01"@,
    {
        let mut schema_list: Vec<Schema> = Vec::new();
        schema_list.push(
            Schema {
                namespace: String::from_str("Default"),
                xmlns: None,
                entity_type: None,
                complex_type: None,
                enum_type: None,
                entity_container: None,
            },
        );
        ODataModel {
            resources: Vec::new(),
            edm: Edmx {
                version: String::from_str("4.01"),
                xmlns: None,
                data_services: DataServices { schema: schema_list },
            },
        }
    }

    /// Register a resource under its entity name; a resource already
    /// registered under that name is replaced.
    #[verifier::loop_isolation(false)]
    pub fn add_resource(&mut self, resource: ODataResource)
        requires
            old(self).wf(),
        ensures
            final(self).wf(),
            final(self).edm_view() == old(self).edm_view(),
            (find_resource(
                final(self).resources_view(),
                resource.entity.name@,
                0,
            ) matches Some(k) && final(self).resources_view()[k].1 == resource),
            forall|i: int|
                0 <= i < old(self).resources_view().len() && (#[trigger] old(
                    self,
                ).resources_view()[i]).0@ != resource.entity.name@ ==> exists|k: int|
                    0 <= k < final(self).resources_view().len() && final(self).resources_view()[k]
                        == old(self).resources_view()[i],
    {
        let ghost old_rs = self.resources@;
        let name = resource.entity.name.clone();
        let name_chars = crate::chars::str_chars(name.as_str());
        let mut pos: Option<usize> = None;
        let mut i: usize = 0;
        while i < self.resources.len()
            invariant
                i <= old_rs.len(),
                self.resources@ == old_rs,
                match pos {
                    Some(p) => p < i && old_rs[p as int].0@ == resource.entity.name@,
                    None => forall|j: int|
                        0 <= j < i ==> (#[trigger] old_rs[j]).0@ != resource.entity.name@,
                },
            decreases old_rs.len() - i,
        {
            if pos.is_none() {
                let key = &self.resources[i].0;
                if crate::chars::chars_eq_str(
                    &crate::chars::str_chars(key.as_str()),
                    name.as_str(),
                ) {
                    pos = Some(i);
                }
            }
            i += 1;
        }
        match pos {
            Some(p) => {
                let ghost before_remove = self.resources@;
                self.resources.remove(p);
                let ghost after_remove = self.resources@;
                self.resources.push((name, resource));
                proof {
                    assert(after_remove =~= before_remove.remove(p as int));
                    let rs = self.resources@;
                    assert(rs.len() == before_remove.len());
                    assert forall|i2: int, j2: int| 0 <= i2 < j2 < rs.len() implies (
                    #[trigger] rs[i2]).0@ != (#[trigger] rs[j2]).0@ by {
                        if j2 < rs.len() - 1 {
                            assert(rs[i2] == if i2 < p {
                                before_remove[i2]
                            } else {
                                before_remove[i2 + 1]
                            });
                            assert(rs[j2] == if j2 < p {
                                before_remove[j2]
                            } else {
                                before_remove[j2 + 1]
                            });
                        } else {
                            assert(rs[j2].0@ == resource.entity.name@);
                            let oi = if i2 < p {
                                i2
                            } else {
                                i2 + 1
                            };
                            assert(rs[i2] == before_remove[oi]);
                            assert(oi != p);
                            assert(before_remove[p as int].0@ == resource.entity.name@);
                        }
                    }
                    assert(rs[rs.len() - 1].1 == resource);
                    lemma_find_resource_range(rs, resource.entity.name@, 0);
                    assert(find_resource(rs, resource.entity.name@, 0) is Some) by {
                        if find_resource(rs, resource.entity.name@, 0) is None {
                            assert(rs[rs.len() - 1].0@ == resource.entity.name@);
                        }
                    }
                    match find_resource(rs, resource.entity.name@, 0) {
                        Some(k) => {
                            assert(rs[k].0@ == resource.entity.name@);
                            assert(k == rs.len() - 1) by {
                                if k < rs.len() - 1 {
                                    assert(rs[k].0@ != rs[rs.len() - 1].0@);
                                }
                            }
                        },
                        None => {},
                    }
                    assert forall|i2: int|
                        0 <= i2 < old_rs.len() && (#[trigger] old_rs[i2]).0@
                            != resource.entity.name@ implies exists|k: int|
                        0 <= k < rs.len() && rs[k] == old_rs[i2] by {
                        let k = if i2 < p {
                            i2
                        } else {
                            i2 - 1
                        };
                        assert(i2 != p);
                        assert(rs[k] == old_rs[i2]);
                    }
                }
            },
            None => {
                self.resources.push((name, resource));
                proof {
                    let rs = self.resources@;
                    assert forall|i2: int, j2: int| 0 <= i2 < j2 < rs.len() implies (
                    #[trigger] rs[i2]).0@ != (#[trigger] rs[j2]).0@ by {
                        if j2 == rs.len() - 1 {
                            assert(rs[i2] == old_rs[i2]);
                        }
                    }
                    lemma_find_resource_range(rs, resource.entity.name@, 0);
                    assert(find_resource(rs, resource.entity.name@, 0) is Some) by {
                        if find_resource(rs, resource.entity.name@, 0) is None {
                            assert(rs[rs.len() - 1].0@ == resource.entity.name@);
                        }
                    }
                    match find_resource(rs, resource.entity.name@, 0) {
                        Some(k) => {
                            assert(k == rs.len() - 1) by {
                                if k < rs.len() - 1 {
                                    assert(rs[k] == old_rs[k]);
                                    assert(old_rs[k].0@ != resource.entity.name@);
                                }
                            }
                        },
                        None => {},
                    }
                    assert forall|i2: int|
                        0 <= i2 < old_rs.len() && (#[trigger] old_rs[i2]).0@
                            != resource.entity.name@ implies exists|k: int|
                        0 <= k < rs.len() && rs[k] == old_rs[i2] by {
                        assert(rs[i2] == old_rs[i2]);
                    }
                }
            },
        }
    }

    /// Look up the registered resource under a name.
    #[verifier::loop_isolation(false)]
    pub fn get_resource(&self, name: &str) -> (r: Option<&ODataResource>)
        ensures
            match find_resource(self.resources_view(), name@, 0) {
                Some(i) => r matches Some(res) && *res == self.resources_view()[i].1,
                None => r is None,
            },
    {
        proof {
            lemma_find_resource_range(self.resources@, name@, 0);
        }
        let mut i: usize = 0;
        while i < self.resources.len()
            invariant
                i <= self.resources@.len(),
                find_resource(self.resources@, name@, 0) == find_resource(
                    self.resources@,
                    name@,
                    i as int,
                ),
            decreases self.resources@.len() - i,
        {
            let key = &self.resources[i].0;
            if crate::chars::chars_eq_str(&crate::chars::str_chars(key.as_str()), name) {
                return Some(&self.resources[i].1);
            }
            i += 1;
        }
        None
    }

    /// The entity type registered for a resource's entity name.
    pub fn get_entity_type(&self, reference: &ODataResource) -> (r: Option<&EntityType>)
        requires
            self.wf(),
        ensures
            (match self.edm_view().data_services.schema@[0].entity_type {
                Some(ts) => match find_entity_type(ts@, reference.entity.name@, 0) {
                    Some(i) => r matches Some(et) && *et == ts@[i],
                    None => r is None,
                },
                None => r is None,
            }),
    {
        self.get_entity_type_by_name(reference.entity.name.as_str())
    }

    /// The entity type with the given name in the first schema.
    #[verifier::loop_isolation(false)]
    pub fn get_entity_type_by_name(&self, name: &str) -> (r: Option<&EntityType>)
        requires
            self.wf(),
        ensures
            (match self.edm_view().data_services.schema@[0].entity_type {
                Some(ts) => match find_entity_type(ts@, name@, 0) {
                    Some(i) => r matches Some(et) && *et == ts@[i],
                    None => r is None,
                },
                None => r is None,
            }),
    {
        let schema = &self.edm.data_services.schema[0];
        match &schema.entity_type {
            Some(ts) => {
                proof {
                    lemma_find_entity_type_range(ts@, name@, 0);
                }
                let mut i: usize = 0;
                while i < ts.len()
                    invariant
                        i <= ts@.len(),
                        find_entity_type(ts@, name@, 0) == find_entity_type(ts@, name@, i as int),
                    decreases ts@.len() - i,
                {
                    let et = &ts[i];
                    if crate::chars::chars_eq_str(
                        &crate::chars::str_chars(et.name.as_str()),
                        name,
                    ) {
                        return Some(et);
                    }
                    i += 1;
                }
                None
            },
            None => None,
        }
    }

    /// Register an entity type: a resource stub is added under its name
    /// (replacing an entry already registered there), the type is appended
    /// to the first schema's list, and everything else of the model is
    /// kept.
    pub fn with_entity_type(self, et: EntityType) -> (r: ODataModel)
        requires
            self.wf(),
        ensures
            r.wf(),
            (find_resource(r.resources_view(), et.name@, 0) matches Some(k) && {
                let stub = r.resources_view()[k].1;
                &&& stub.entity.name@ == et.name@
                &&& stub.entity.key is None
                &&& stub.kind == crate::resource::ODataResourceKind::EntitySet
            }),
            forall|i: int|
                0 <= i < self.resources_view().len() && (#[trigger] self.resources_view()[i]).0@
                    != et.name@ ==> exists|k: int|
                    0 <= k < r.resources_view().len() && r.resources_view()[k]
                        == self.resources_view()[i],
            r.edm_view().version == self.edm_view().version,
            r.edm_view().xmlns == self.edm_view().xmlns,
            r.edm_view().data_services.schema@.len() == self.edm_view().data_services.schema@.len(),
            forall|j: int|
                1 <= j < r.edm_view().data_services.schema@.len()
                    ==> #[trigger] r.edm_view().data_services.schema@[j]
                    == self.edm_view().data_services.schema@[j],
            ({
                let old_schema = self.edm_view().data_services.schema@[0];
                let new_schema = r.edm_view().data_services.schema@[0];
                &&& new_schema.namespace == old_schema.namespace
                &&& new_schema.xmlns == old_schema.xmlns
                &&& new_schema.complex_type == old_schema.complex_type
                &&& new_schema.enum_type == old_schema.enum_type
                &&& new_schema.entity_container == old_schema.entity_container
                &&& (match (old_schema.entity_type, new_schema.entity_type) {
                    (Some(old_ts), Some(new_ts)) => new_ts@ == old_ts@.push(et),
                    (None, Some(new_ts)) => new_ts@ == seq![et],
                    _ => false,
                })
            }),
    {
        let ghost old_resources = self.resources@;
        let ghost old_schemas = self.edm.data_services.schema@;
        let mut model = self;
        let mut resource = ODataResource::default();
        resource.entity = Entity { name: et.name.clone(), key: None };
        model.add_resource(resource);
        let ghost rs = model.resources@;
        let mut schema_list = model.edm.data_services.schema;
        proof {
            assert(schema_list@ == old_schemas);
        }
        let mut first = schema_list.remove(0);
        let ghost old_first = first;
        let mut ts: Vec<EntityType> = match first.entity_type.take() {
            Some(list) => list,
            None => Vec::new(),
        };
        proof {
            match old_first.entity_type {
                Some(list) => {
                    assert(ts@ == list@);
                },
                None => {
                    assert(ts@ =~= Seq::<EntityType>::empty());
                },
            }
        }
        ts.push(et);
        proof {
            match old_first.entity_type {
                Some(list) => {
                    assert(ts@ == list@.push(et));
                },
                None => {
                    assert(ts@ =~= seq![et]);
                },
            }
        }
        first.entity_type = Some(ts);
        schema_list.insert(0, first);
        model.edm.data_services.schema = schema_list;
        proof {
            assert(model.resources@ == rs);
            assert(model.edm.data_services.schema@.len() == old_schemas.len());
            assert(model.edm.data_services.schema@[0] == first);
            assert(forall|j: int|
                1 <= j < old_schemas.len() ==> #[trigger] model.edm.data_services.schema@[j]
                    == old_schemas[j]) by {
                assert(forall|j: int|
                    1 <= j < old_schemas.len() ==> model.edm.data_services.schema@[j]
                        == old_schemas.remove(0)[j - 1]);
            }
        }
        model
    }

    /// The EDM tree served at `$metadata`.
    pub fn edm(&self) -> (r: &Edmx)
        ensures
            *r == self.edm_view(),
    {
        &self.edm
    }

    /// The context URL fragment for an entity set: the schema namespace
    /// with the metadata suffix, when the entity type is registered.
    pub fn context_for_entity(&self, entity_id: &str) -> (r: Option<String>)
        requires
            self.wf(),
        ensures
            (match self.edm_view().data_services.schema@[0].entity_type {
                Some(ts) => match find_entity_type(ts@, entity_id@, 0) {
                    Some(i) => r matches Some(s) && s@
                        == self.edm_view().data_services.schema@[0].namespace@ + "/$metadata#"@
                        + ts@[i].name@,
                    None => r is None,
                },
                None => r is None,
            }),
    {
        let entity_type = self.get_entity_type_by_name(entity_id);
        match entity_type {
            Some(et) => {
                let mut out = self.edm.data_services.schema[0].namespace.clone();
                out.append("/$metadata#");
                out.append(et.name.as_str());
                Some(out)
            },
            None => None,
        }
    }
}

impl Default for ODataModel {
    /// The same fresh model as `new`.
    fn default() -> (r: Self)
        ensures
            r.wf(),
            r.resources_view().len() == 0,
    {
        ODataModel::new()
    }
}

} // verus!
