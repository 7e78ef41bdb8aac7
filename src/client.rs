use vstd::prelude::*;
use crate::config::MagentoConfiguration;
use crate::entities::{ChildrenOutcome, values_view};
use crate::json::{lemma_array_view, member, Json, JsonValue};
use crate::text::{decimal, decimal_text};

verus! {

/// What `urlencoding::encode` makes of a text.
pub uninterp spec fn url_encoded(s: Seq<char>) -> Seq<char>;

/// The characters that percent-encoding leaves as they are.
pub open spec fn is_unreserved(c: char) -> bool {
    ('0' <= c && c <= '9') || ('A' <= c && c <= 'Z') || ('a' <= c && c <= 'z') || c == '-' || c == '.'
        || c == '_' || c == '~'
}

/// Relies on `urlencoding::encode`, which percent-encodes every byte but the
/// ASCII alphanumerics and `-`, `.`, `_`, `~`: a text of those alone comes
/// back unchanged.
#[verifier::external_body]
fn encode_path_segment(s: &str) -> (r: String)
    ensures
        r@ == url_encoded(s@),
        (forall|i: int| 0 <= i < s@.len() ==> is_unreserved(#[trigger] s@[i])) ==> r@ == s@,
{
    urlencoding::encode(s).into_owned()
}

/// `ids` joined with `,` between them.
pub open spec fn joined(ids: Seq<Seq<char>>) -> Seq<char>
    decreases ids.len(),
{
    if ids.len() == 0 {
        Seq::empty()
    } else if ids.len() == 1 {
        ids[0]
    } else {
        joined(ids.drop_last()) + ","@ + ids.last()
    }
}

/// The views of a list of strings.
pub open spec fn texts_view(v: Seq<String>) -> Seq<Seq<char>> {
    Seq::new(v.len(), |i: int| v[i]@)
}

/// Joins ids with `,` between them.
pub fn join_ids(ids: &Vec<String>) -> (r: String)
    ensures
        r@ == joined(texts_view(ids@)),
{
    let ghost all = texts_view(ids@);
    let mut out = String::from_str("");
    let mut i: usize = 0;
    proof {
        reveal_strlit("");
        assert(all.subrange(0, 0) =~= Seq::<Seq<char>>::empty());
    }
    while i < ids.len()
        invariant
            i <= ids.len(),
            all == texts_view(ids@),
            out@ == joined(all.subrange(0, i as int)),
        decreases ids.len() - i,
    {
        let ghost prev = all.subrange(0, i as int);
        proof {
            assert(all.subrange(0, i + 1).drop_last() =~= prev);
            reveal_strlit(",");
        }
        if i > 0 {
            out.append(",");
        }
        out.append(ids[i].as_str());
        proof {
            if i == 0 {
                assert(out@ =~= joined(all.subrange(0, 1)));
            } else {
                assert(out@ =~= joined(all.subrange(0, i + 1)));
            }
        }
        i += 1;
    }
    proof {
        assert(all.subrange(0, ids.len() as int) =~= all);
    }
    out
}

/// The query that selects records whose `entity_id` is among `ids`.
pub open spec fn id_filter(ids: Seq<Seq<char>>) -> Seq<char> {
    "?searchCriteria[filter_groups][0][filters][0][field]=entity_id&searchCriteria[filter_groups][0][filters][0][value]="@
        + joined(ids) + "&searchCriteria[filter_groups][0][filters][0][condition_type]=in"@
}

/// Whether the page `page` of a size-paginated listing is its last: the
/// listing reports `total` records. The comparison is strict, so the run
/// asks for one page past the last one that holds records.
pub open spec fn page_is_final(page: int, page_size: int, total: int) -> bool {
    page * page_size > total
}

/// A paginated run ends: with `total` records at `page_size` a page, the
/// page `total / page_size + 1` is final and no earlier page is.
pub proof fn lemma_pagination_terminates(page_size: int, total: int)
    requires
        page_size > 0,
        total >= 0,
    ensures
        page_is_final(total / page_size + 1, page_size, total),
        forall|p: int| 0 <= p <= total / page_size ==> !#[trigger] page_is_final(p, page_size, total),
{
    let q = total / page_size;
    assert((q + 1) * page_size > total) by (nonlinear_arith)
        requires
            q == total / page_size,
            page_size > 0,
            total >= 0,
    ;
    assert forall|p: int| 0 <= p <= q implies !#[trigger] page_is_final(p, page_size, total) by {
        assert(p * page_size <= total) by (nonlinear_arith)
            requires
                q == total / page_size,
                page_size > 0,
                total >= 0,
                0 <= p <= q,
        ;
    }
}

/// One page of records, and whether it is the last.
pub struct FetchResult {
    pub records: Vec<JsonValue>,
    pub is_final_page: bool,
}

/// Why a fetch from the catalog API failed.
#[derive(Debug, Clone, Copy, PartialEq, Eq, Structural)]
pub enum FetchError {
    /// The request did not reach the API, or it answered with a failure.
    Transport,
    /// The body did not have the expected shape.
    Decode,
}

/// The items and final flag of a paginated listing body
/// `{items: [...], total_count: n}`; `None` for any other shape.
pub open spec fn page_body(body: Json, page_size: int, page: int) -> Option<(Seq<Json>, bool)> {
    match member(body, "items"@) {
        Some(Json::Array(items)) => match member(body, "total_count"@) {
            Some(Json::Int(t)) => Some((items, page_is_final(page, page_size, t))),
            _ => None,
        },
        _ => None,
    }
}

/// The items of an unpaged listing body `{items: [...]}`; `None` for any
/// other shape.
pub open spec fn listing_body(body: Json) -> Option<Seq<Json>> {
    match member(body, "items"@) {
        Some(Json::Array(items)) => Some(items),
        _ => None,
    }
}

fn take_member(body: JsonValue, key: &str) -> (r: Option<JsonValue>)
    ensures
        crate::json::opt_view(r) == member(body@, key@),
{
    match body {
        JsonValue::Object(mut entries) => {
            proof {
                crate::json::lemma_object_view(entries);
            }
            crate::json::take_entry(&mut entries, key)
        },
        _ => None,
    }
}

/// Reads a paginated listing body.
pub fn decode_page(body: JsonValue, page_size: i32, page: i32) -> (r: Result<FetchResult, FetchError>)
    ensures
        match page_body(body@, page_size as int, page as int) {
            Some((items, fin)) => r matches Ok(res) && values_view(res.records@) == items
                && res.is_final_page == fin,
            None => r == Err::<FetchResult, _>(FetchError::Decode),
        },
{
    let total = match body.get_int("total_count") {
        Some(t) => t,
        None => { return Err(FetchError::Decode); },
    };
    match take_member(body, "items") {
        Some(JsonValue::Array(items)) => {
            proof {
                lemma_array_view(items);
                assert(values_view(items@) =~= JsonValue::Array(items)@->Array_0);
            }
            let p = page as i64;
            let z = page_size as i64;
            proof {
                assert(-0x8000_0000 <= p <= 0x7fff_ffff && -0x8000_0000 <= z <= 0x7fff_ffff ==> -0x4000_0000_0000_0000 <= p * z
                    <= 0x4000_0000_0000_0000) by (nonlinear_arith);
            }
            let fin = p * z > total;
            Ok(FetchResult { records: items, is_final_page: fin })
        },
        _ => Err(FetchError::Decode),
    }
}

/// Reads an unpaged listing body: its one page is the last.
pub fn decode_listing(body: JsonValue) -> (r: Result<FetchResult, FetchError>)
    ensures
        match listing_body(body@) {
            Some(items) => r matches Ok(res) && values_view(res.records@) == items && res.is_final_page,
            None => r == Err::<FetchResult, _>(FetchError::Decode),
        },
{
    match take_member(body, "items") {
        Some(JsonValue::Array(items)) => {
            proof {
                lemma_array_view(items);
                assert(values_view(items@) =~= JsonValue::Array(items)@->Array_0);
            }
            Ok(FetchResult { records: items, is_final_page: true })
        },
        _ => Err(FetchError::Decode),
    }
}

/// Reads the answer of the children endpoint: a list of child records. Any
/// other shape degrades to an empty child list.
pub fn decode_children(body: JsonValue) -> (r: ChildrenOutcome)
    ensures
        match body@ {
            Json::Array(items) => r matches ChildrenOutcome::Fetched(v) && values_view(v@) == items,
            _ => r is Degraded,
        },
{
    match body {
        JsonValue::Array(items) => {
            proof {
                lemma_array_view(items);
                assert(values_view(items@) =~= JsonValue::Array(items)@->Array_0);
            }
            ChildrenOutcome::Fetched(items)
        },
        _ => ChildrenOutcome::Degraded,
    }
}

/// Builds the requests to the catalog API.
pub struct MagentoRestClient {
    pub config: MagentoConfiguration,
    pub api_version: String,
}

impl MagentoRestClient {
    pub fn new(config: MagentoConfiguration) -> (r: MagentoRestClient)
        ensures
            r.config == config,
            r.api_version@ == "V1"@,
    {
        MagentoRestClient { config, api_version: String::from_str("V1") }
    }

    /// A copy of this client.
    pub fn duplicate(&self) -> (r: MagentoRestClient)
        ensures
            r.same_as(self),
    {
        MagentoRestClient { config: self.config.duplicate(), api_version: self.api_version.clone() }
    }

    /// Whether two clients have the same configuration and API version.
    pub open spec fn same_as(&self, o: &MagentoRestClient) -> bool {
        &&& self.config.url@ == o.config.url@
        &&& self.config.consumer_key@ == o.config.consumer_key@
        &&& self.config.consumer_secret@ == o.config.consumer_secret@
        &&& self.config.access_token@ == o.config.access_token@
        &&& self.config.access_token_secret@ == o.config.access_token_secret@
        &&& self.api_version@ == o.api_version@
    }

    /// The root of the versioned API.
    pub open spec fn api_url(&self) -> Seq<char> {
        self.config.url@ + "/"@ + self.api_version@
    }

    /// The root of the versioned API: `{url}/{api_version}`.
    pub fn get_api_url(&self) -> (r: String)
        ensures
            r@ == self.api_url(),
    {
        let mut s = self.config.url.clone();
        s.append("/");
        s.append(self.api_version.as_str());
        s
    }

    /// The value of the `Authorization` header: `Bearer {access_token}`.
    pub fn get_auth_header(&self) -> (r: String)
        ensures
            r@ == "Bearer "@ + self.config.access_token@,
    {
        let mut s = String::from_str("Bearer ");
        s.append(self.config.access_token.as_str());
        s
    }

    fn api_path(&self, path: &str) -> (r: String)
        ensures
            r@ == self.api_url() + path@,
    {
        let mut s = self.get_api_url();
        s.append(path);
        s
    }

    /// The unpaged listing of product attributes.
    pub fn attributes_url(&self) -> (r: String)
        ensures
            r@ == self.api_url() + "/products/attributes?searchCriteria="@,
    {
        self.api_path("/products/attributes?searchCriteria=")
    }

    /// The unpaged listing of categories.
    pub fn categories_url(&self) -> (r: String)
        ensures
            r@ == self.api_url() + "/categories/list?searchCriteria"@,
    {
        self.api_path("/categories/list?searchCriteria")
    }

    fn with_id_filter(&self, path: &str, ids: &Vec<String>) -> (r: String)
        ensures
            r@ == self.api_url() + path@ + id_filter(texts_view(ids@)),
    {
        let mut s = self.api_path(path);
        s.append("?searchCriteria[filter_groups][0][filters][0][field]=entity_id&searchCriteria[filter_groups][0][filters][0][value]=");
        let j = join_ids(ids);
        s.append(j.as_str());
        s.append("&searchCriteria[filter_groups][0][filters][0][condition_type]=in");
        proof {
            assert(s@ =~= self.api_url() + path@ + id_filter(texts_view(ids@)));
        }
        s
    }

    /// The categories whose ids are among `ids`.
    pub fn categories_by_ids_url(&self, ids: &Vec<String>) -> (r: String)
        ensures
            r@ == self.api_url() + "/categories/list"@ + id_filter(texts_view(ids@)),
    {
        self.with_id_filter("/categories/list", ids)
    }

    /// The products whose ids are among `ids`.
    pub fn products_by_ids_url(&self, ids: &Vec<String>) -> (r: String)
        ensures
            r@ == self.api_url() + "/products"@ + id_filter(texts_view(ids@)),
    {
        self.with_id_filter("/products", ids)
    }

    /// One page of the product listing.
    pub fn products_url(&self, page_size: i32, page: i32) -> (r: String)
        ensures
            r@ == self.api_url() + "/products?searchCriteria%5BpageSize%5D="@ + decimal(page_size as int)
                + "&searchCriteria%5BcurrentPage%5D="@ + decimal(page as int),
    {
        let mut s = self.api_path("/products?searchCriteria%5BpageSize%5D=");
        let a = decimal_text(page_size as i64);
        s.append(a.as_str());
        s.append("&searchCriteria%5BcurrentPage%5D=");
        let b = decimal_text(page as i64);
        s.append(b.as_str());
        s
    }

    /// The child variants of a configurable product, given its sku already
    /// percent-encoded.
    pub fn children_url_from(&self, encoded_sku: &str) -> (r: String)
        ensures
            r@ == self.api_url() + "/configurable-products/"@ + encoded_sku@ + "/children"@,
    {
        let mut s = self.api_path("/configurable-products/");
        s.append(encoded_sku);
        s.append("/children");
        s
    }

    /// The child variants of the configurable product `sku`.
    pub fn configurable_children_url(&self, sku: &str) -> (r: String)
        ensures
            r@ == self.api_url() + "/configurable-products/"@ + url_encoded(sku@) + "/children"@,
            (forall|i: int| 0 <= i < sku@.len() ==> is_unreserved(#[trigger] sku@[i])) ==> r@
                == self.api_url() + "/configurable-products/"@ + sku@ + "/children"@,
    {
        let e = encode_path_segment(sku);
        self.children_url_from(e.as_str())
    }
}

} // verus!
