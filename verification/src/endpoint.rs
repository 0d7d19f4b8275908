//! The service endpoint: the base URL a service lives under, and the entry
//! points that parse a request URL into a resource.

use vstd::prelude::*;

use crate::bridge::string_from_chars;
use crate::bridge::url_parse;
use crate::bridge::url_parse_ok;
use crate::bridge::url_path_segments;
use crate::bridge::url_query_pairs;
use crate::chars::str_chars;
use crate::chars::trim_start_matches;
use crate::chars::trim_start_matches_str;
use crate::error::ODataError;
use crate::resource::ODataResource;
use crate::resource::ServiceDocument;

verus! {

/// The base a relative request path is resolved against before parsing, so
/// that URL machinery can split and decode it uniformly.
pub open spec fn parse_prefix() -> Seq<char> {
    "http://services.odata.org/V4/TripPinService/"@
}

/// The absolute URL a request path is parsed as.
pub open spec fn full_url(s: Seq<char>) -> Seq<char> {
    parse_prefix() + trim_start_matches(s, seq!['/'])
}

/// What parsing the request path `s` must yield, in terms of the URL text
/// alone: a `Url` error exactly when URL parsing refuses the resolved
/// text; otherwise the resource built from the text's named path segments
/// and query pairs, with every parse error if and only if its cause.
pub open spec fn parse_outcome(s: Seq<char>, r: Result<ODataResource, ODataError>) -> bool {
    &&& (!url_parse_ok(full_url(s)) ==> (r matches Err(e) && e == ODataError::Url))
    &&& ((r matches Err(e) && e == ODataError::Url) ==> !url_parse_ok(full_url(s)))
    &&& (url_parse_ok(full_url(s)) ==> (match crate::bridge::url_segments_of(full_url(s)) {
        None => r matches Err(e) && e == ODataError::IncompletePath,
        Some(segs) => (match crate::path::spec_parse_path(segs) {
            Err(e) => r matches Err(e2) && e2 == e,
            Ok(p) => (match crate::path::fold_query(
                crate::bridge::url_pairs_of(full_url(s)),
                0,
                crate::path::query_default(),
            ) {
                Err(e) => r matches Err(e2) && e2 == e,
                Ok(q) => r matches Ok(res) && crate::path::resource_matches(
                    res,
                    p,
                    q,
                    full_url(s),
                ),
            }),
        }),
    }))
    &&& (r matches Ok(res) ==> res.wf())
}

impl ODataResource {
    /// Parse a resource from the path-and-query portion of a request URL.
    /// The path is resolved against a synthetic service base, so the first
    /// two segments are the service prefix and the third names the entity.
    pub fn try_from(value: &str) -> (r: Result<ODataResource, ODataError>)
        ensures
            parse_outcome(value@, r),
    {
        proof {
            reveal_strlit("/");
            assert("/"@ =~= seq!['/']);
        }
        let v = str_chars(value);
        let trimmed = trim_start_matches_str(&v, "/");
        let mut full = String::from_str("http://services.odata.org/V4/TripPinService/");
        let tail = string_from_chars(&trimmed);
        full.append(tail.as_str());
        proof {
            assert(full@ == full_url(value@));
        }
        match url_parse(full.as_str()) {
            None => Err(ODataError::Url),
            Some(u) => {
                match url_path_segments(&u) {
                    None => Err(ODataError::IncompletePath),
                    Some(segments) => {
                        let pairs = url_query_pairs(&u);
                        proof {
                            crate::path::lemma_fold_query_err(
                                pairs@.map_values(|x: (String, String)| (x.0@, x.1@)),
                                0,
                                crate::path::query_default(),
                            );
                        }
                        crate::path::parse_resource_parts(&segments, &pairs, full)
                    },
                }
            },
        }
    }
}

/// A remote or served OData endpoint: its base URL, version label and
/// service name, with the resources its service document describes.
pub struct ODataEndpoint {
    pub base_url: String,
    pub version: Option<String>,
    pub service: String,
    pub resources: Vec<ODataResource>,
    pub odata_context: Option<String>,
}

/// The textual base of an endpoint: `base/[version/]service/`.
pub open spec fn endpoint_text(base: Seq<char>, version: Option<Seq<char>>, service: Seq<char>) -> Seq<char> {
    match version {
        Some(ver) => base + seq!['/'] + ver + seq!['/'] + service + seq!['/'],
        None => base + seq!['/'] + service + seq!['/'],
    }
}

impl ODataEndpoint {
    /// A fresh endpoint with no discovered resources.
    pub fn new(base_url: &str, version: Option<&str>, service: &str) -> (r: ODataEndpoint)
        ensures
            r.base_url@ == base_url@,
            crate::path::opt_text(r.version) == (match version {
                Some(v) => Some(v@),
                None => None::<Seq<char>>,
            }),
            r.service@ == service@,
            r.resources@.len() == 0,
            r.odata_context is None,
    {
        ODataEndpoint {
            base_url: String::from_str(base_url),
            version: match version {
                Some(v) => Some(String::from_str(v)),
                None => None,
            },
            service: String::from_str(service),
            resources: Vec::new(),
            odata_context: None,
        }
    }

    /// The URL text of the endpoint base, ending in a slash.
    pub fn url_string(&self) -> (r: String)
        ensures
            r@ == endpoint_text(
                self.base_url@,
                crate::path::opt_text(self.version),
                self.service@,
            ),
            r@.len() >= 2,
    {
        proof {
            reveal_strlit("/");
            assert("/"@ =~= seq!['/']);
        }
        let mut r = self.base_url.clone();
        r.append("/");
        match &self.version {
            Some(ver) => {
                r.append(ver.as_str());
                r.append("/");
            },
            None => {},
        }
        r.append(self.service.as_str());
        r.append("/");
        r
    }

    /// Take over the contents of a service document: its context URL and
    /// one resource stub per described entry, in order.
    pub fn enrich(&mut self, service_document: ServiceDocument)
        ensures
            crate::path::opt_text(final(self).odata_context) == Some(service_document.context@),
            final(self).resources@.len() == service_document.value@.len(),
            forall|i: int|
                0 <= i < service_document.value@.len() ==> crate::resource::stub_of(
                    #[trigger] final(self).resources@[i],
                    service_document.value@[i],
                ),
            final(self).base_url == old(self).base_url,
            final(self).version == old(self).version,
            final(self).service == old(self).service,
    {
        let ghost docv = service_document.value@;
        self.odata_context = Some(service_document.context);
        let mut values = service_document.value;
        let mut resources: Vec<ODataResource> = Vec::new();
        while values.len() > 0
            invariant
                resources@.len() + values@.len() == docv.len(),
                values@ == docv.skip(resources@.len() as int),
                forall|i: int|
                    0 <= i < resources@.len() ==> crate::resource::stub_of(
                        #[trigger] resources@[i],
                        docv[i],
                    ),
            decreases values.len(),
        {
            let ghost before = values@;
            let v = values.remove(0);
            proof {
                assert(v == docv[resources@.len() as int]);
                assert(values@ =~= docv.skip(resources@.len() as int + 1));
            }
            let res = ODataResource::from(v);
            resources.push(res);
        }
        self.resources = resources;
    }

    /// Parse a request URL addressed to this endpoint: the endpoint base
    /// is stripped and the remaining path parsed as a resource.
    pub fn parse_resource(&self, url: &str) -> (r: Result<ODataResource, ODataError>)
        ensures
            parse_outcome(
                trim_start_matches(
                    url@,
                    endpoint_text(
                        self.base_url@,
                        crate::path::opt_text(self.version),
                        self.service@,
                    ),
                ),
                r,
            ),
    {
        let prefix = self.url_string();
        let url_chars = str_chars(url);
        let path = trim_start_matches_str(&url_chars, prefix.as_str());
        let path_string = string_from_chars(&path);
        ODataResource::try_from(path_string.as_str())
    }
}

/// Parse an OData request URL against an endpoint.
pub fn parse_url(endpoint: &ODataEndpoint, url: &str) -> (r: Result<ODataResource, ODataError>)
    ensures
        parse_outcome(
            trim_start_matches(
                url@,
                endpoint_text(
                    endpoint.base_url@,
                    crate::path::opt_text(endpoint.version),
                    endpoint.service@,
                ),
            ),
            r,
        ),
{
    endpoint.parse_resource(url)
}

} // verus!
