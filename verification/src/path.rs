//! The resource-path parser: from a request URL to a populated
//! [`ODataResource`].

use vstd::prelude::*;

use crate::bridge::percent_decode;
use crate::bridge::percent_decoded;
use crate::bridge::string_from_chars;
use crate::bridge::url_parse;
use crate::bridge::url_parse_ok;
use crate::bridge::url_path_segments;
use crate::bridge::url_query_pairs;
use crate::chars::str_chars;
use crate::chars::trim_start_matches_str;
use crate::error::ODataError;
use crate::filter::filters_view;
use crate::filter::NodeV;
use crate::resource::Chain;
use crate::resource::Filters;
use crate::resource::ODataFormat;
use crate::resource::ODataMetaData;
use crate::resource::ODataResource;
use crate::resource::ODataResourceKind;
use crate::resource::Operation;
use crate::resource::OrderBy;
use crate::resource::OrderByDirection;
use crate::resource::ServiceDocument;
use crate::value::entity_view;
use crate::value::EntityV;

verus! {

/// The path components of a parsed resource: the root entity, the
/// navigation chain, the trailing property and the trailing operation.
pub struct PathV {
    pub entity: EntityV,
    pub relationships: Seq<EntityV>,
    pub property: Option<Seq<char>>,
    pub operation: Option<Operation>,
}

/// The walking state over the path segments after the root entity:
/// starting with segment 3, each segment is percent-decoded on its own; a
/// recognized `$`-operation is recorded and terminates path processing,
/// and any other segment makes the previous provisional property a
/// navigation entity.
pub open spec fn path_state(segs: Seq<Seq<char>>, i: int) -> (
    Seq<EntityV>,
    Option<Seq<char>>,
    Option<Operation>,
)
    decreases i,
{
    if i <= 3 {
        (Seq::empty(), None, None)
    } else {
        let p = path_state(segs, i - 1);
        if p.2 is Some {
            p
        } else {
            let seg = percent_decoded(segs[i - 1]);
            match crate::resource::spec_operation_of(seg) {
                Ok(op) => (p.0, p.1, Some(op)),
                Err(_) => match p.1 {
                    Some(prev) => (p.0.push(crate::value::spec_entity_of(prev)), Some(seg), p.2),
                    None => (p.0, Some(seg), p.2),
                },
            }
        }
    }
}

/// What the path segments of a request URL describe: the third segment is
/// the percent-decoded root entity (the first two are the service prefix),
/// and the rest are walked by `path_state`.
pub open spec fn spec_parse_path(segs: Seq<Seq<char>>) -> Result<PathV, ODataError> {
    if segs.len() < 3 {
        Err(ODataError::IncompletePath)
    } else {
        let st = path_state(segs, segs.len() as int);
        Ok(
            PathV {
                entity: crate::value::spec_entity_of(percent_decoded(segs[2])),
                relationships: st.0,
                property: st.1,
                operation: st.2,
            },
        )
    }
}

/// The query options of a request, as parsing folds them up.
pub struct QueryV {
    pub search: Option<Seq<char>>,
    pub filters: Seq<(NodeV, Option<Chain>)>,
    pub format: (Seq<char>, ODataMetaData, bool),
    pub top: Option<u32>,
    pub skip: Option<u32>,
    pub order_by: Seq<(Seq<char>, OrderByDirection)>,
    pub options: Seq<(Seq<char>, Seq<char>)>,
}

/// The query state before any parameter is read.
pub open spec fn query_default() -> QueryV {
    QueryV {
        search: None,
        filters: Seq::empty(),
        format: crate::resource::format_default(),
        top: None,
        skip: None,
        order_by: Seq::empty(),
        options: Seq::empty(),
    }
}

/// Apply one decoded query pair: the recognized `$` parameters set their
/// field, a `@name` parameter is retained for query-option references, and
/// anything else is ignored.
pub open spec fn apply_query_pair(acc: QueryV, k: Seq<char>, v: Seq<char>) -> Result<
    QueryV,
    ODataError,
> {
    if k == "$search"@ {
        Ok(QueryV { search: Some(v), ..acc })
    } else if k == "$filter"@ {
        match crate::filter::spec_parse_filter(v) {
            Ok(f) => Ok(QueryV { filters: f, ..acc }),
            Err(e) => Err(e),
        }
    } else if k == "$format"@ {
        Ok(QueryV { format: crate::resource::format_fold(crate::chars::split_on(v, ';')), ..acc })
    } else if k == "$top"@ {
        match crate::chars::u32_of_chars(v) {
            Some(n) => Ok(QueryV { top: Some(n), ..acc }),
            None => Err(ODataError::InvalidQueryTopSkip),
        }
    } else if k == "$skip"@ {
        match crate::chars::u32_of_chars(v) {
            Some(n) => Ok(QueryV { skip: Some(n), ..acc }),
            None => Err(ODataError::InvalidQueryTopSkip),
        }
    } else if k == "$orderby"@ {
        match crate::filter::spec_orderby(v) {
            Ok(o) => Ok(QueryV { order_by: o, ..acc }),
            Err(e) => Err(e),
        }
    } else if k.len() > 0 && k[0] == '@' {
        Ok(QueryV { options: acc.options.push((k.skip(1), v)), ..acc })
    } else {
        Ok(acc)
    }
}

/// Fold the query pairs at and after `i` over the state `acc`.
pub open spec fn fold_query(pairs: Seq<(Seq<char>, Seq<char>)>, i: int, acc: QueryV) -> Result<
    QueryV,
    ODataError,
>
    decreases pairs.len() - i,
{
    if i < 0 || i >= pairs.len() {
        Ok(acc)
    } else {
        match apply_query_pair(acc, pairs[i].0, pairs[i].1) {
            Ok(a2) => fold_query(pairs, i + 1, a2),
            Err(e) => Err(e),
        }
    }
}

/// A failed query fold never reports a URL error.
pub proof fn lemma_fold_query_err(pairs: Seq<(Seq<char>, Seq<char>)>, i: int, acc: QueryV)
    ensures
        fold_query(pairs, i, acc) matches Err(e) ==> !(e matches ODataError::Url),
    decreases pairs.len() - i,
{
    if 0 <= i < pairs.len() {
        let k = pairs[i].0;
        let v = pairs[i].1;
        crate::filter::lemma_parse_filter_err(v);
        crate::filter::lemma_orderby_err(crate::chars::split_on(v, ','), 0);
        match apply_query_pair(acc, k, v) {
            Ok(a2) => {
                lemma_fold_query_err(pairs, i + 1, a2);
            },
            Err(_) => {},
        }
    }
}

/// The view of an optional string.
pub open spec fn opt_text(o: Option<String>) -> Option<Seq<char>> {
    match o {
        Some(s) => Some(s@),
        None => None,
    }
}

/// Whether a parsed resource carries exactly the given path and query
/// descriptions.
pub open spec fn resource_matches(res: ODataResource, p: PathV, q: QueryV, url: Seq<char>) -> bool {
    &&& entity_view(res.entity) == p.entity
    &&& res.kind == ODataResourceKind::EntitySet
    &&& res.url@ == url
    &&& res.title is None
    &&& opt_text(res.property) == p.property
    &&& res.operation == p.operation
    &&& res.relationships@.map_values(|e: crate::value::Entity| entity_view(e)) == p.relationships
    &&& opt_text(res.search) == q.search
    &&& filters_view(res.filters) == q.filters
    &&& (res.requested_format.format@, res.requested_format.metadata, res.requested_format.streaming)
        == q.format
    &&& res.top == q.top
    &&& res.skip == q.skip
    &&& res.order_by@.map_values(|o: OrderBy| (o.field@, o.direction)) == q.order_by
    &&& res.query_options@.map_values(|p2: (String, String)| (p2.0@, p2.1@)) == q.options
}

/// Build a resource from the raw path segments and decoded query pairs of
/// a request URL. This is the verified core of URL parsing: the segment
/// walk, the key extraction, the `$filter` parse and the query folding are
/// all pinned to their specifications.
#[verifier::loop_isolation(false)]
pub fn parse_resource_parts(
    segments: &Vec<String>,
    pairs: &Vec<(String, String)>,
    url_text: String,
) -> (r: Result<ODataResource, ODataError>)
    ensures
        (match spec_parse_path(segments@.map_values(|x: String| x@)) {
            Err(e) => r matches Err(e2) && e2 == e,
            Ok(p) => match fold_query(
                pairs@.map_values(|x: (String, String)| (x.0@, x.1@)),
                0,
                query_default(),
            ) {
                Err(e) => r matches Err(e2) && e2 == e,
                Ok(q) => r matches Ok(res) && resource_matches(res, p, q, url_text@),
            },
        }),
        r matches Ok(res) ==> res.wf(),
{
    let ghost segs = segments@.map_values(|x: String| x@);
    let ghost pv = pairs@.map_values(|x: (String, String)| (x.0@, x.1@));
    if segments.len() < 3 {
        return Err(ODataError::IncompletePath);
    }
    let decoded = percent_decode(segments[2].as_str());
    proof {
        assert(segs[2] == segments@[2]@);
    }
    let name_chars = str_chars(decoded.as_str());
    let entity = crate::value::extract_entity(&name_chars);
    let mut relationships: Vec<crate::value::Entity> = Vec::new();
    let mut property: Option<String> = None;
    let mut operation: Option<Operation> = None;
    let mut i: usize = 3;
    proof {
        assert(relationships@.map_values(|e: crate::value::Entity| entity_view(e))
            =~= Seq::<EntityV>::empty());
    }
    while i < segments.len()
        invariant
            3 <= i <= segs.len(),
            relationships@.map_values(|e: crate::value::Entity| entity_view(e)) == path_state(
                segs,
                i as int,
            ).0,
            opt_text(property) == path_state(segs, i as int).1,
            operation == path_state(segs, i as int).2,
            forall|k: int|
                0 <= k < relationships@.len() ==> (#[trigger] relationships@[k]).wf(),
        decreases segments.len() - i,
    {
        proof {
            assert(segs[i as int] == segments@[i as int]@);
        }
        if operation.is_none() {
            let seg_decoded = percent_decode(segments[i].as_str());
            let part = crate::resource::interpret_next_part(&seg_decoded);
            match part {
                crate::resource::NextPart::Operation(op) => {
                    operation = Some(op);
                },
                crate::resource::NextPart::Part(p) => {
                    match property {
                        Some(prev) => {
                            let prev_chars = str_chars(prev.as_str());
                            let e = crate::value::extract_entity(&prev_chars);
                            let ghost old_rels = relationships@;
                            relationships.push(e);
                            proof {
                                assert(relationships@.map_values(
                                    |e2: crate::value::Entity| entity_view(e2),
                                ) =~= old_rels.map_values(
                                    |e2: crate::value::Entity| entity_view(e2),
                                ).push(entity_view(e)));
                            }
                        },
                        None => {},
                    }
                    property = Some(p);
                },
            }
        }
        i += 1;
    }
    let resource = ODataResource {
        entity,
        kind: ODataResourceKind::EntitySet,
        url: url_text,
        title: None,
        property,
        operation,
        relationships,
        search: None,
        filters: Filters(Vec::new()),
        requested_format: ODataFormat::default(),
        top: None,
        skip: None,
        order_by: Vec::new(),
        query_options: Vec::new(),
    };
    apply_query_pairs(resource, pairs)
}

/// Fold the decoded query pairs into a freshly parsed resource.
#[verifier::loop_isolation(false)]
fn apply_query_pairs(resource: ODataResource, pairs: &Vec<(String, String)>) -> (r: Result<
    ODataResource,
    ODataError,
>)
    requires
        resource.wf(),
        resource.search is None,
        resource.filters.0@.len() == 0,
        (
            resource.requested_format.format@,
            resource.requested_format.metadata,
            resource.requested_format.streaming,
        ) == crate::resource::format_default(),
        resource.top is None,
        resource.skip is None,
        resource.order_by@.len() == 0,
        resource.query_options@.len() == 0,
    ensures
        (match fold_query(
            pairs@.map_values(|x: (String, String)| (x.0@, x.1@)),
            0,
            query_default(),
        ) {
            Err(e) => r matches Err(e2) && e2 == e,
            Ok(q) => r matches Ok(res) && {
                &&& res.entity == resource.entity
                &&& res.kind == resource.kind
                &&& res.url == resource.url
                &&& res.title == resource.title
                &&& res.property == resource.property
                &&& res.operation == resource.operation
                &&& res.relationships == resource.relationships
                &&& opt_text(res.search) == q.search
                &&& filters_view(res.filters) == q.filters
                &&& (
                    res.requested_format.format@,
                    res.requested_format.metadata,
                    res.requested_format.streaming,
                ) == q.format
                &&& res.top == q.top
                &&& res.skip == q.skip
                &&& res.order_by@.map_values(|o: OrderBy| (o.field@, o.direction)) == q.order_by
                &&& res.query_options@.map_values(|p2: (String, String)| (p2.0@, p2.1@))
                    == q.options
                &&& res.wf()
            },
        }),
{
    let ghost pv = pairs@.map_values(|x: (String, String)| (x.0@, x.1@));
    let mut res = resource;
    let mut i: usize = 0;
    proof {
        assert(res.order_by@.map_values(|o: OrderBy| (o.field@, o.direction))
            =~= Seq::<(Seq<char>, OrderByDirection)>::empty());
        assert(res.query_options@.map_values(|p2: (String, String)| (p2.0@, p2.1@))
            =~= Seq::<(Seq<char>, Seq<char>)>::empty());
        assert(filters_view(res.filters) =~= Seq::<(NodeV, Option<Chain>)>::empty());
    }
    let ghost q0 = query_default();
    while i < pairs.len()
        invariant
            i <= pv.len(),
            res.entity == resource.entity,
            res.kind == resource.kind,
            res.url == resource.url,
            res.title == resource.title,
            res.property == resource.property,
            res.operation == resource.operation,
            res.relationships == resource.relationships,
            res.wf(),
            (fold_query(
                pv,
                i as int,
                QueryV {
                    search: opt_text(res.search),
                    filters: filters_view(res.filters),
                    format: (
                        res.requested_format.format@,
                        res.requested_format.metadata,
                        res.requested_format.streaming,
                    ),
                    top: res.top,
                    skip: res.skip,
                    order_by: res.order_by@.map_values(|o: OrderBy| (o.field@, o.direction)),
                    options: res.query_options@.map_values(
                        |p2: (String, String)| (p2.0@, p2.1@),
                    ),
                },
            ) == fold_query(pv, 0, q0)),
        decreases pairs.len() - i,
    {
        proof {
            assert(pv[i as int] == (pairs@[i as int].0@, pairs@[i as int].1@));
        }
        let key = &pairs[i].0;
        let value = &pairs[i].1;
        let key_chars = str_chars(key.as_str());
        if crate::chars::chars_eq_str(&key_chars, "$search") {
            res.search = Some(value.clone());
        } else if crate::chars::chars_eq_str(&key_chars, "$filter") {
            match crate::filter::parse_filter(value.as_str()) {
                Ok(f) => {
                    res.filters = f;
                },
                Err(e) => {
                    return Err(e);
                },
            }
        } else if crate::chars::chars_eq_str(&key_chars, "$format") {
            res.requested_format = ODataFormat::from(value.as_str());
        } else if crate::chars::chars_eq_str(&key_chars, "$top") {
            let value_chars = str_chars(value.as_str());
            match crate::chars::parse_u32(&value_chars) {
                Some(n) => {
                    res.top = Some(n);
                },
                None => {
                    return Err(ODataError::InvalidQueryTopSkip);
                },
            }
        } else if crate::chars::chars_eq_str(&key_chars, "$skip") {
            let value_chars = str_chars(value.as_str());
            match crate::chars::parse_u32(&value_chars) {
                Some(n) => {
                    res.skip = Some(n);
                },
                None => {
                    return Err(ODataError::InvalidQueryTopSkip);
                },
            }
        } else if crate::chars::chars_eq_str(&key_chars, "$orderby") {
            match crate::filter::parse_orderby(value.as_str()) {
                Ok(o) => {
                    res.order_by = o;
                },
                Err(e) => {
                    return Err(e);
                },
            }
        } else if key_chars.len() > 0 && key_chars[0] == '@' {
            let name = crate::chars::subchars(&key_chars, 1, key_chars.len());
            let ghost old_opts = res.query_options@;
            res.query_options.push((string_from_chars(&name), value.clone()));
            proof {
                assert(name@ =~= key@.skip(1));
                assert(res.query_options@.map_values(|p2: (String, String)| (p2.0@, p2.1@))
                    =~= old_opts.map_values(|p2: (String, String)| (p2.0@, p2.1@)).push(
                    (key@.skip(1), value@),
                ));
            }
        }
        i += 1;
    }
    Ok(res)
}

} // verus!
