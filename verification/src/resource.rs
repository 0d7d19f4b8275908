//! The request model: a parsed OData resource with its filter tree,
//! ordering, pagination and format options.

use vstd::prelude::*;

use crate::chars::split_on;
use crate::chars::str_chars;
use crate::error::ODataError;
use crate::value::Entity;
use crate::value::Value;

verus! {

/// What kind of resource a request addresses.
#[derive(Debug, Default, PartialEq, Eq, Structural, Clone, Copy)]
pub enum ODataResourceKind {
    #[default]
    EntitySet,
    Singleton,
    FunctionImport,
    ServiceDocument,
}

/// How two neighbouring filter nodes are connected.
#[derive(Debug, PartialEq, Eq, Structural, Clone, Copy)]
pub enum Chain {
    And,
    Or,
}

/// A trailing `$`-operation on a resource path.
#[derive(Debug, PartialEq, Eq, Structural, Clone, Copy)]
pub enum Operation {
    Count,
    Value,
    All,
}

impl Operation {
    /// Recognize a `$`-operation path segment; anything else is refused
    /// with `InvalidOperation`.
    pub fn try_from(value: &str) -> (r: Result<Operation, ODataError>)
        ensures
            r == spec_operation_of(value@),
    {
        let v = str_chars(value);
        if crate::chars::chars_eq_str(&v, "$count") {
            Ok(Operation::Count)
        } else if crate::chars::chars_eq_str(&v, "$value") {
            Ok(Operation::Value)
        } else if crate::chars::chars_eq_str(&v, "$all") {
            Ok(Operation::All)
        } else {
            Err(ODataError::InvalidOperation)
        }
    }
}

/// A path segment classified while walking a resource path: either a plain
/// part or a recognized `$`-operation.
#[derive(Debug, PartialEq)]
pub enum NextPart {
    Part(String),
    Operation(Operation),
}

/// Classify one path segment: a `$`-operation when it is one of the three
/// recognized keywords, otherwise a plain part.
pub fn interpret_next_part(part: &String) -> (r: NextPart)
    ensures
        spec_operation_of(part@) matches Ok(op) ==> r == NextPart::Operation(op),
        spec_operation_of(part@) is Err ==> (r matches NextPart::Part(p) && p@ == part@),
{
    match Operation::try_from(part.as_str()) {
        Ok(op) => NextPart::Operation(op),
        Err(_) => NextPart::Part(part.clone()),
    }
}

/// The operation a recognized `$`-keyword names.
pub open spec fn spec_operation_of(s: Seq<char>) -> Result<Operation, ODataError> {
    if s == "$count"@ {
        Ok(Operation::Count)
    } else if s == "$value"@ {
        Ok(Operation::Value)
    } else if s == "$all"@ {
        Ok(Operation::All)
    } else {
        Err(ODataError::InvalidOperation)
    }
}

/// One comparison or check on a field in a `$filter` expression.
#[derive(Debug, PartialEq)]
pub enum FilterOperation {
    Eq(Value),
    Ne(Value),
    Gt(Value),
    Ge(Value),
    Lt(Value),
    Le(Value),
    In(Vec<Value>),
    Has(String),
    Function(String),
}

/// A leaf of the filter tree: an optionally negated check on a field.
#[derive(Debug, PartialEq)]
pub struct FieldFilterContents {
    pub not: bool,
    pub field: String,
    pub operation: FilterOperation,
}

/// A node of the filter tree: a leaf, or a negatable nested group.
#[derive(Debug, PartialEq)]
pub enum FieldFilter {
    Contents(FieldFilterContents),
    Nested((bool, Filters)),
}

/// An ordered chain of filter nodes; every node but the last carries the
/// connective to its successor.
#[derive(Debug, PartialEq)]
pub struct Filters(pub Vec<(FieldFilter, Option<Chain>)>);

impl FieldFilter {
    /// The leaf contents, when this node is a leaf.
    pub fn contents(&self) -> (r: Option<&FieldFilterContents>)
        ensures
            match r {
                Some(c) => *self matches FieldFilter::Contents(c2) && *c == c2,
                None => !(*self matches FieldFilter::Contents(_)),
            },
    {
        match self {
            FieldFilter::Contents(operation) => Some(operation),
            _ => None,
        }
    }

    /// The nested group, when this node is one.
    pub fn nested(&self) -> (r: Option<&(bool, Filters)>)
        ensures
            match r {
                Some(n) => *self matches FieldFilter::Nested(n2) && *n == n2,
                None => !(*self matches FieldFilter::Nested(_)),
            },
    {
        match self {
            FieldFilter::Nested(nested) => Some(nested),
            _ => None,
        }
    }
}

impl Filters {
    /// Whether the chain holds no node.
    pub fn is_empty(&self) -> (r: bool)
        ensures
            r == (self.0@.len() == 0),
    {
        self.0.len() == 0
    }

    /// How many nodes the chain holds at its top level.
    pub fn len(&self) -> (r: usize)
        ensures
            r == self.0@.len(),
    {
        self.0.len()
    }

    /// The nodes with their connectives.
    pub fn contents(&self) -> (r: &Vec<(FieldFilter, Option<Chain>)>)
        ensures
            r == &self.0,
    {
        &self.0
    }

    /// Chain alignment: every node but the last carries a connective, and
    /// the last carries none; the same holds inside every nested group.
    pub open spec fn wf(self) -> bool
        decreases self,
    {
        &&& (self.0@.len() > 0 ==> self.0@.last().1 is None)
        &&& (forall|i: int| 0 <= i < self.0@.len() - 1 ==> (#[trigger] self.0@[i]).1 is Some)
        &&& (forall|i: int|
            0 <= i < self.0@.len() ==> (#[trigger] self.0@[i]).0.wf())
    }
}

impl FilterOperation {
    /// Every literal carried by the operation is well formed.
    pub open spec fn wf(self) -> bool {
        match self {
            FilterOperation::Eq(v) => v.wf(),
            FilterOperation::Ne(v) => v.wf(),
            FilterOperation::Gt(v) => v.wf(),
            FilterOperation::Ge(v) => v.wf(),
            FilterOperation::Lt(v) => v.wf(),
            FilterOperation::Le(v) => v.wf(),
            FilterOperation::In(vs) => forall|i: int|
                0 <= i < vs@.len() ==> (#[trigger] vs@[i]).wf(),
            FilterOperation::Has(_) => true,
            FilterOperation::Function(_) => true,
        }
    }
}

impl FieldFilter {
    /// A leaf's literals are well formed; a nested group must itself be
    /// well formed.
    pub open spec fn wf(self) -> bool
        decreases self,
    {
        match self {
            FieldFilter::Contents(c) => c.operation.wf(),
            FieldFilter::Nested(p) => p.1.wf(),
        }
    }
}

/// How much metadata a JSON response should carry.
#[derive(Debug, Default, PartialEq, Eq, Structural, Clone, Copy)]
pub enum ODataMetaData {
    NoMetadata,
    #[default]
    Minimal,
    Full,
}

impl ODataMetaData {
    /// The metadata level a `$format` parameter value names; anything
    /// unrecognized falls back to `Minimal`.
    pub fn from(value: &str) -> (r: ODataMetaData)
        ensures
            r == spec_metadata_of(value@),
    {
        let v = str_chars(value);
        if crate::chars::chars_eq_str(&v, "none") {
            ODataMetaData::NoMetadata
        } else if crate::chars::chars_eq_str(&v, "minimal") {
            ODataMetaData::Minimal
        } else if crate::chars::chars_eq_str(&v, "full") {
            ODataMetaData::Full
        } else {
            ODataMetaData::Minimal
        }
    }
}

/// The metadata level named by a `$format` key value.
pub open spec fn spec_metadata_of(s: Seq<char>) -> ODataMetaData {
    if s == "none"@ {
        ODataMetaData::NoMetadata
    } else if s == "minimal"@ {
        ODataMetaData::Minimal
    } else if s == "full"@ {
        ODataMetaData::Full
    } else {
        ODataMetaData::Minimal
    }
}

/// The response format a request asked for.
#[derive(Debug, PartialEq)]
pub struct ODataFormat {
    pub format: String,
    pub metadata: ODataMetaData,
    pub streaming: bool,
}

/// The state `$format` parsing folds over: media type, metadata level,
/// streaming flag.
pub open spec fn format_default() -> (Seq<char>, ODataMetaData, bool) {
    ("application/json"@, ODataMetaData::Minimal, false)
}

/// Apply one `;`-separated part of a `$format` value: only `key=value`
/// parts with a recognized key change anything.
pub open spec fn format_step(
    acc: (Seq<char>, ODataMetaData, bool),
    part: Seq<char>,
) -> (Seq<char>, ODataMetaData, bool) {
    match crate::chars::first_match(part, seq!['=']) {
        Some(i) => {
            let k = part.take(i);
            let v = part.skip(i + 1);
            if k == "metadata"@ || k == "odata.metadata"@ {
                (acc.0, spec_metadata_of(v), acc.2)
            } else if k == "streaming"@ || k == "odata.streaming"@ {
                (acc.0, acc.1, v == "true"@)
            } else if k == "format"@ {
                (v, acc.1, acc.2)
            } else {
                acc
            }
        },
        None => acc,
    }
}

/// Fold `format_step` over the parts, first to last.
pub open spec fn format_fold(parts: Seq<Seq<char>>) -> (Seq<char>, ODataMetaData, bool)
    decreases parts.len(),
{
    if parts.len() == 0 {
        format_default()
    } else {
        format_step(format_fold(parts.drop_last()), parts.last())
    }
}

impl Default for ODataFormat {
    /// `application/json`, minimal metadata, no streaming.
    fn default() -> (r: Self)
        ensures
            (r.format@, r.metadata, r.streaming) == format_default(),
    {
        ODataFormat {
            format: String::from_str("application/json"),
            metadata: ODataMetaData::Minimal,
            streaming: false,
        }
    }
}

impl ODataFormat {
    /// Parse a `$format` value of the shape `media-type;key=value;...`.
    pub fn from(value: &str) -> (r: ODataFormat)
        ensures
            (r.format@, r.metadata, r.streaming) == format_fold(split_on(value@, ';')),
    {
        let chars = str_chars(value);
        let parts = crate::chars::split_on_char(&chars, ';');
        let mut format = String::from_str("application/json");
        let mut metadata = ODataMetaData::Minimal;
        let mut streaming = false;
        let mut i: usize = 0;
        proof {
            assert(split_on(value@, ';').take(0) =~= Seq::<Seq<char>>::empty());
        }
        while i < parts.len()
            invariant
                i <= parts@.len(),
                parts@.map_values(|t: Vec<char>| t@) == split_on(value@, ';'),
                (format@, metadata, streaming) == format_fold(
                    split_on(value@, ';').take(i as int),
                ),
            decreases parts.len() - i,
        {
            let ghost spec_parts = split_on(value@, ';');
            proof {
                assert(spec_parts.take(i + 1 as int).drop_last() =~= spec_parts.take(i as int));
                assert(spec_parts.take(i + 1 as int).last() == parts@[i as int]@);
                reveal_strlit("=");
                assert("="@ =~= seq!['=']);
            }
            let part = &parts[i];
            match crate::chars::find_char(part, '=') {
                Some(eq) => {
                    proof {
                        crate::chars::lemma_char_match(part@, '=', eq as int);
                        assert forall|j: int| 0 <= j < eq implies !crate::chars::match_at(
                            part@,
                            seq!['='],
                            j,
                        ) by {
                            crate::chars::lemma_char_match(part@, '=', j);
                        }
                        crate::chars::lemma_first_match_found(part@, seq!['='], eq as int);
                    }
                    let plen: usize = part.len();
                    let k = crate::chars::subchars(part, 0, eq);
                    let v = crate::chars::subchars(part, eq + 1, plen);
                    proof {
                        assert(k@ =~= part@.take(eq as int));
                        assert(v@ =~= part@.skip(eq + 1));
                    }
                    if crate::chars::chars_eq_str(&k, "metadata") || crate::chars::chars_eq_str(
                        &k,
                        "odata.metadata",
                    ) {
                        metadata = ODataMetaData::from(
                            crate::bridge::string_from_chars(&v).as_str(),
                        );
                    } else if crate::chars::chars_eq_str(&k, "streaming")
                        || crate::chars::chars_eq_str(&k, "odata.streaming") {
                        streaming = crate::chars::chars_eq_str(&v, "true");
                    } else if crate::chars::chars_eq_str(&k, "format") {
                        format = crate::bridge::string_from_chars(&v);
                    }
                },
                None => {
                    proof {
                        assert forall|j: int| !crate::chars::match_at(part@, seq!['='], j) by {
                            crate::chars::lemma_char_match(part@, '=', j);
                        }
                        crate::chars::lemma_first_match_absent(part@, seq!['=']);
                    }
                },
            }
            i += 1;
        }
        proof {
            assert(split_on(value@, ';').take(split_on(value@, ';').len() as int) =~= split_on(
                value@,
                ';',
            ));
        }
        ODataFormat { format, metadata, streaming }
    }
}

/// One `$orderby` entry: a field and a direction.
#[derive(Debug, PartialEq)]
pub struct OrderBy {
    pub field: String,
    pub direction: OrderByDirection,
}

/// The direction of an `$orderby` entry; ascending when not named.
#[derive(Debug, Default, PartialEq, Eq, Structural, Clone, Copy)]
pub enum OrderByDirection {
    #[default]
    Asc,
    Desc,
}

impl Default for OrderBy {
    /// An empty field, ordered ascending.
    fn default() -> (r: Self)
        ensures
            r.field@ == Seq::<char>::empty(),
            r.direction == OrderByDirection::Asc,
    {
        OrderBy { field: String::new(), direction: OrderByDirection::Asc }
    }
}

/// A resource description from a service document.
#[derive(Debug, Default, PartialEq)]
pub struct ServiceDocument {
    pub context: String,
    pub value: Vec<ServiceDocumentValue>,
}

/// One entry of a service document.
#[derive(Debug, Default, PartialEq)]
pub struct ServiceDocumentValue {
    pub name: String,
    pub kind: Option<String>,
    pub url: String,
    pub title: Option<String>,
}

/// A parsed OData request.
#[derive(Debug)]
pub struct ODataResource {
    pub entity: Entity,
    pub kind: ODataResourceKind,
    pub url: String,
    pub title: Option<String>,
    pub property: Option<String>,
    pub operation: Option<Operation>,
    pub relationships: Vec<Entity>,
    pub search: Option<String>,
    pub filters: Filters,
    /// The requested format; defaults to `application/json` when not set.
    pub requested_format: ODataFormat,
    pub top: Option<u32>,
    pub skip: Option<u32>,
    pub order_by: Vec<OrderBy>,
    /// The `@name='...'` query parameters, kept for resolving
    /// `Value::QueryOption` references at lowering time.
    pub query_options: Vec<(String, String)>,
}

impl ODataResource {
    /// Structural soundness of a parsed resource: the filter tree is chain
    /// aligned and every literal it holds is well formed.
    pub open spec fn wf(self) -> bool {
        &&& self.entity.wf()
        &&& self.filters.wf()
        &&& (forall|i: int|
            0 <= i < self.relationships@.len() ==> (#[trigger] self.relationships@[i]).wf())
    }
}

impl Default for ODataResource {
    /// An unnamed entity-set resource with no key, no query options and
    /// default format.
    fn default() -> (r: Self)
        ensures
            r.entity.name@ == Seq::<char>::empty(),
            r.entity.key is None,
            r.kind == ODataResourceKind::EntitySet,
            r.url@ == Seq::<char>::empty(),
            r.title is None,
            r.property is None,
            r.operation is None,
            r.relationships@.len() == 0,
            r.search is None,
            r.filters.0@.len() == 0,
            (r.requested_format.format@, r.requested_format.metadata, r.requested_format.streaming)
                == format_default(),
            r.top is None,
            r.skip is None,
            r.order_by@.len() == 0,
            r.query_options@.len() == 0,
            r.wf(),
    {
        ODataResource {
            entity: Entity { name: String::new(), key: None },
            kind: ODataResourceKind::EntitySet,
            url: String::new(),
            title: None,
            property: None,
            operation: None,
            relationships: Vec::new(),
            search: None,
            filters: Filters(Vec::new()),
            requested_format: ODataFormat::default(),
            top: None,
            skip: None,
            order_by: Vec::new(),
            query_options: Vec::new(),
        }
    }
}

/// Whether a resource is exactly the stub a service-document entry
/// describes: the entry's name parsed as the entity, its kind label
/// mapped, its url and title copied, and every other field at its
/// default.
pub open spec fn stub_of(res: ODataResource, value: ServiceDocumentValue) -> bool {
    &&& crate::value::entity_view(res.entity) == crate::value::spec_entity_of(value.name@)
    &&& res.kind == spec_kind_of(value.kind)
    &&& res.url@ == value.url@
    &&& res.title == value.title
    &&& res.property is None
    &&& res.operation is None
    &&& res.relationships@.len() == 0
    &&& res.search is None
    &&& res.filters.0@.len() == 0
    &&& (res.requested_format.format@, res.requested_format.metadata, res.requested_format.streaming)
        == format_default()
    &&& res.top is None
    &&& res.skip is None
    &&& res.order_by@.len() == 0
    &&& res.query_options@.len() == 0
    &&& res.wf()
}

impl ODataResource {
    /// Interpret a service-document entry as a resource stub: the name is
    /// parsed for a key, the kind label is mapped, and everything else is
    /// left at its default.
    pub fn from(value: ServiceDocumentValue) -> (r: ODataResource)
        ensures
            stub_of(r, value),
    {
        let name_chars = str_chars(value.name.as_str());
        let entity = crate::value::extract_entity(&name_chars);
        let kind = match &value.kind {
            Some(kind) => {
                let k = str_chars(kind.as_str());
                if crate::chars::chars_eq_str(&k, "Singleton") {
                    ODataResourceKind::Singleton
                } else if crate::chars::chars_eq_str(&k, "FunctionImport") {
                    ODataResourceKind::FunctionImport
                } else if crate::chars::chars_eq_str(&k, "ServiceDocument") {
                    ODataResourceKind::ServiceDocument
                } else {
                    ODataResourceKind::EntitySet
                }
            },
            None => ODataResourceKind::EntitySet,
        };
        ODataResource {
            entity,
            kind,
            url: value.url,
            title: value.title,
            property: None,
            operation: None,
            relationships: Vec::new(),
            search: None,
            filters: Filters(Vec::new()),
            requested_format: ODataFormat::default(),
            top: None,
            skip: None,
            order_by: Vec::new(),
            query_options: Vec::new(),
        }
    }
}

/// The resource kind a service-document label names.
pub open spec fn spec_kind_of(label: Option<String>) -> ODataResourceKind {
    match label {
        Some(k) => if k@ == "Singleton"@ {
            ODataResourceKind::Singleton
        } else if k@ == "FunctionImport"@ {
            ODataResourceKind::FunctionImport
        } else if k@ == "ServiceDocument"@ {
            ODataResourceKind::ServiceDocument
        } else {
            ODataResourceKind::EntitySet
        },
        None => ODataResourceKind::EntitySet,
    }
}

} // verus!
