use vstd::prelude::*;
use crate::client::{
    decode_listing, decode_page, id_filter, listing_body, page_body, texts_view, FetchError,
    FetchResult, MagentoRestClient,
};
use crate::config::{AppConfiguration, MagentoConfiguration};
use crate::entities::{
    attributes_view, categories_view, products_view, values_view, Attribute, Category, DocView, Product,
};
use crate::json::{Json, JsonValue};
use crate::sink::{bulk_parts, pairs_view, BulkRequest};
use crate::sink::ESClient;
use crate::text::decimal;

verus! {

/// The page size of a paginated run.
pub const PAGE_SIZE: i32 = 500;

/// The entity types an import can run for.
#[derive(Debug, Clone, Copy, PartialEq, Eq, Structural)]
pub enum EntityKind {
    Product,
    Category,
    Attribute,
}

/// The entity type an adapter name selects.
pub open spec fn kind_of_name(name: Seq<char>) -> Option<EntityKind> {
    if name == "product"@ {
        Some(EntityKind::Product)
    } else if name == "category"@ {
        Some(EntityKind::Category)
    } else if name == "attribute"@ {
        Some(EntityKind::Attribute)
    } else {
        None
    }
}

/// The name of an entity type, which also names its index.
pub open spec fn kind_name(k: EntityKind) -> Seq<char> {
    match k {
        EntityKind::Product => "product"@,
        EntityKind::Category => "category"@,
        EntityKind::Attribute => "attribute"@,
    }
}

/// What a run asks the catalog API for next.
#[derive(Debug)]
pub enum FetchRequest {
    /// One page of a size-paginated listing.
    Page { page_size: i32, page: i32 },
    /// The records with these ids, as one page.
    ByIds(Vec<String>),
    /// An unpaged listing, as one page.
    Listing,
}

/// Whether `r` is the request for page `page` of a run of `kind`: products
/// are paged unless an id list is given; categories are listed whole unless
/// an id list is given; attributes are always listed whole, whatever ids are
/// given. An id list is passed on as it is.
pub open spec fn is_request_for(r: FetchRequest, kind: EntityKind, ids: Option<Vec<String>>, page: i32) -> bool {
    match (kind, ids) {
        (EntityKind::Product, None) => r matches FetchRequest::Page { page_size: s, page: p } && s == PAGE_SIZE && p == page,
        (EntityKind::Attribute, _) => r is Listing,
        (EntityKind::Category, None) => r is Listing,
        (_, Some(v)) => r matches FetchRequest::ByIds(x) && texts_view(x@) == texts_view(v@),
    }
}

/// Where a run stands.
#[derive(Debug, Clone, Copy, PartialEq, Eq, Structural)]
pub enum RunState {
    /// The next page is to be fetched.
    Fetching,
    /// A page was fetched; its documents are to be indexed.
    Indexing { is_final: bool },
    /// The last page was indexed.
    Done,
    /// A fetch failed; the run ends.
    Failed,
}

/// What the code around a run is to do next.
pub enum RunAction {
    /// Fetch this request and report with `on_fetched`.
    Fetch(FetchRequest),
    /// Transform the fetched records, submit them, and report with `on_indexed`.
    Index,
    /// The run is over.
    Finish,
    /// The run stopped on a fetch failure.
    Abort,
}

/// An import of products, with its page cursor.
pub struct ProductAdapter {
    pub client: MagentoRestClient,
    pub es: ESClient,
    pub page: i32,
    pub page_size: i32,
}

/// An import of categories, with its page cursor.
pub struct CategoryAdapter {
    pub client: MagentoRestClient,
    pub es: ESClient,
    pub page: i32,
    pub page_size: i32,
}

/// An import of attributes, with its page cursor.
pub struct AttributeAdapter {
    pub client: MagentoRestClient,
    pub es: ESClient,
    pub page: i32,
    pub page_size: i32,
}

impl ProductAdapter {
    pub fn new(client: MagentoRestClient, es: ESClient) -> (r: ProductAdapter)
        ensures
            r.client == client,
            r.es == es,
            r.page == 0,
            r.page_size == PAGE_SIZE,
    {
        ProductAdapter { client, es, page: 0, page_size: PAGE_SIZE }
    }
}

impl CategoryAdapter {
    pub fn new(client: MagentoRestClient, es: ESClient) -> (r: CategoryAdapter)
        ensures
            r.client == client,
            r.es == es,
            r.page == 0,
            r.page_size == PAGE_SIZE,
    {
        CategoryAdapter { client, es, page: 0, page_size: PAGE_SIZE }
    }
}

impl AttributeAdapter {
    pub fn new(client: MagentoRestClient, es: ESClient) -> (r: AttributeAdapter)
        ensures
            r.client == client,
            r.es == es,
            r.page == 0,
            r.page_size == PAGE_SIZE,
    {
        AttributeAdapter { client, es, page: 0, page_size: PAGE_SIZE }
    }
}

/// The adapter an import runs with, one per entity type.
pub enum ImportAdapter {
    Product(ProductAdapter),
    Category(CategoryAdapter),
    Attribute(AttributeAdapter),
}

impl ImportAdapter {
    /// The entity type of the adapter.
    pub open spec fn kind_of(&self) -> EntityKind {
        match self {
            ImportAdapter::Product(_) => EntityKind::Product,
            ImportAdapter::Category(_) => EntityKind::Category,
            ImportAdapter::Attribute(_) => EntityKind::Attribute,
        }
    }

    /// The page the adapter's cursor is on.
    pub open spec fn page_of(&self) -> i32 {
        match self {
            ImportAdapter::Product(a) => a.page,
            ImportAdapter::Category(a) => a.page,
            ImportAdapter::Attribute(a) => a.page,
        }
    }

    /// The root of the catalog API the adapter reads.
    pub open spec fn api_of(&self) -> Seq<char> {
        match self {
            ImportAdapter::Product(a) => a.client.api_url(),
            ImportAdapter::Category(a) => a.client.api_url(),
            ImportAdapter::Attribute(a) => a.client.api_url(),
        }
    }

    /// The client that builds the adapter's requests.
    pub open spec fn client_of(&self) -> MagentoRestClient {
        match self {
            ImportAdapter::Product(a) => a.client,
            ImportAdapter::Category(a) => a.client,
            ImportAdapter::Attribute(a) => a.client,
        }
    }

    /// The client that builds the adapter's bulk requests.
    pub open spec fn es_of(&self) -> ESClient {
        match self {
            ImportAdapter::Product(a) => a.es,
            ImportAdapter::Category(a) => a.es,
            ImportAdapter::Attribute(a) => a.es,
        }
    }

    /// The same adapter with its cursor on page `p`.
    pub open spec fn with_page(self, p: i32) -> ImportAdapter {
        match self {
            ImportAdapter::Product(a) => ImportAdapter::Product(
                ProductAdapter { client: a.client, es: a.es, page: p, page_size: a.page_size },
            ),
            ImportAdapter::Category(a) => ImportAdapter::Category(
                CategoryAdapter { client: a.client, es: a.es, page: p, page_size: a.page_size },
            ),
            ImportAdapter::Attribute(a) => ImportAdapter::Attribute(
                AttributeAdapter { client: a.client, es: a.es, page: p, page_size: a.page_size },
            ),
        }
    }

    pub fn kind(&self) -> (r: EntityKind)
        ensures
            r == self.kind_of(),
    {
        match self {
            ImportAdapter::Product(_) => EntityKind::Product,
            ImportAdapter::Category(_) => EntityKind::Category,
            ImportAdapter::Attribute(_) => EntityKind::Attribute,
        }
    }

    pub fn page(&self) -> (r: i32)
        ensures
            r == self.page_of(),
    {
        match self {
            ImportAdapter::Product(a) => a.page,
            ImportAdapter::Category(a) => a.page,
            ImportAdapter::Attribute(a) => a.page,
        }
    }

    /// The name of the adapter's entity type, which also names its index.
    pub fn entity_name(&self) -> (r: &'static str)
        ensures
            r@ == kind_name(self.kind_of()),
    {
        match self {
            ImportAdapter::Product(_) => "product",
            ImportAdapter::Category(_) => "category",
            ImportAdapter::Attribute(_) => "attribute",
        }
    }

    /// The client that builds the adapter's requests.
    pub fn client(&self) -> (r: &MagentoRestClient)
        ensures
            *r == self.client_of(),
            r.api_url() == self.api_of(),
    {
        match self {
            ImportAdapter::Product(a) => &a.client,
            ImportAdapter::Category(a) => &a.client,
            ImportAdapter::Attribute(a) => &a.client,
        }
    }

    /// The client that builds the adapter's bulk requests.
    pub fn es(&self) -> (r: &ESClient)
        ensures
            *r == self.es_of(),
    {
        match self {
            ImportAdapter::Product(a) => &a.es,
            ImportAdapter::Category(a) => &a.es,
            ImportAdapter::Attribute(a) => &a.es,
        }
    }

    /// The request for the current page (see `request_for`); an id list is
    /// passed on as it is.
    pub fn request(&self, ids: &Option<Vec<String>>) -> (r: FetchRequest)
        ensures
            is_request_for(r, self.kind_of(), *ids, self.page_of()),
    {
        match self {
            ImportAdapter::Product(a) => match ids {
                Some(v) => FetchRequest::ByIds(v.clone()),
                None => FetchRequest::Page { page_size: PAGE_SIZE, page: a.page },
            },
            ImportAdapter::Category(_) => match ids {
                Some(v) => FetchRequest::ByIds(v.clone()),
                None => FetchRequest::Listing,
            },
            ImportAdapter::Attribute(_) => FetchRequest::Listing,
        }
    }

    /// The address a request of this adapter is sent to.
    pub fn request_url(&self, req: &FetchRequest) -> (r: String)
        ensures
            match (self.kind_of(), req) {
                (EntityKind::Product, FetchRequest::Page { page_size, page }) => r@ == self.api_of()
                    + "/products?searchCriteria%5BpageSize%5D="@ + decimal(*page_size as int)
                    + "&searchCriteria%5BcurrentPage%5D="@ + decimal(*page as int),
                (EntityKind::Product, FetchRequest::ByIds(ids)) => r@ == self.api_of() + "/products"@
                    + id_filter(texts_view(ids@)),
                (EntityKind::Category, FetchRequest::ByIds(ids)) => r@ == self.api_of()
                    + "/categories/list"@ + id_filter(texts_view(ids@)),
                (EntityKind::Attribute, _) => r@ == self.api_of()
                    + "/products/attributes?searchCriteria="@,
                (_, _) => r@ == self.api_of() + "/categories/list?searchCriteria"@,
            },
    {
        let c = self.client();
        match (self, req) {
            (ImportAdapter::Product(_), FetchRequest::Page { page_size, page }) => c.products_url(*page_size, *page),
            (ImportAdapter::Product(_), FetchRequest::ByIds(ids)) => c.products_by_ids_url(ids),
            (ImportAdapter::Category(_), FetchRequest::ByIds(ids)) => c.categories_by_ids_url(ids),
            (ImportAdapter::Attribute(_), _) => c.attributes_url(),
            (_, _) => c.categories_url(),
        }
    }
}

/// Reads the answer to a request: a paginated body for a page request, a
/// listing body (one final page) for any other.
pub fn decode_response(req: &FetchRequest, body: JsonValue) -> (r: Result<FetchResult, FetchError>)
    ensures
        match req {
            FetchRequest::Page { page_size, page } => match page_body(body@, *page_size as int, *page as int) {
                Some((items, fin)) => r matches Ok(res) && crate::entities::values_view(res.records@) == items
                    && res.is_final_page == fin,
                None => r == Err::<FetchResult, _>(FetchError::Decode),
            },
            _ => match listing_body(body@) {
                Some(items) => r matches Ok(res) && crate::entities::values_view(res.records@) == items
                    && res.is_final_page,
                None => r == Err::<FetchResult, _>(FetchError::Decode),
            },
        },
{
    match req {
        FetchRequest::Page { page_size, page } => decode_page(body, *page_size, *page),
        _ => decode_listing(body),
    }
}

/// Documents as id/value pairs.
pub open spec fn doc_pairs(docs: Seq<DocView>) -> Seq<(Seq<char>, Json)> {
    Seq::new(docs.len(), |i: int| (docs[i].id, docs[i].value))
}

/// The bulk request that indexes documents of type product.
pub fn product_batch(es: &ESClient, docs: Vec<Product>) -> (r: BulkRequest)
    ensures
        r.index@ == es.prefix() + "_"@ + "product"@,
        values_view(r.body@) == bulk_parts(doc_pairs(products_view(docs@))),
{
    let ghost dv = products_view(docs@);
    let mut rest = docs;
    let mut pairs: Vec<(String, JsonValue)> = Vec::new();
    let ghost mut i: int = 0;
    while rest.len() > 0
        invariant
            0 <= i <= dv.len(),
            dv.len() == i + rest.len(),
            forall|t: int| 0 <= t < rest.len() ==> (#[trigger] rest[t])@ == dv[i + t],
            pairs.len() == i,
            forall|t: int| 0 <= t < i ==> ((#[trigger] pairs[t]).0@, pairs[t].1@) == (dv[t].id, dv[t].value),
        decreases rest.len(),
    {
        let ghost rest_before = rest@;
        let d = rest.remove(0);
        proof {
            assert forall|t: int| 0 <= t < rest.len() implies (#[trigger] rest[t])@ == dv[i + 1 + t] by {
                assert(rest[t] == rest_before[t + 1]);
            }
        }
        pairs.push(d.into_pair());
        proof {
            i = i + 1;
        }
    }
    assert(pairs_view(pairs@) =~= doc_pairs(dv));
    es.bulk_request("product", pairs)
}

/// The bulk request that indexes documents of type category.
pub fn category_batch(es: &ESClient, docs: Vec<Category>) -> (r: BulkRequest)
    ensures
        r.index@ == es.prefix() + "_"@ + "category"@,
        values_view(r.body@) == bulk_parts(doc_pairs(categories_view(docs@))),
{
    let ghost dv = categories_view(docs@);
    let mut rest = docs;
    let mut pairs: Vec<(String, JsonValue)> = Vec::new();
    let ghost mut i: int = 0;
    while rest.len() > 0
        invariant
            0 <= i <= dv.len(),
            dv.len() == i + rest.len(),
            forall|t: int| 0 <= t < rest.len() ==> (#[trigger] rest[t])@ == dv[i + t],
            pairs.len() == i,
            forall|t: int| 0 <= t < i ==> ((#[trigger] pairs[t]).0@, pairs[t].1@) == (dv[t].id, dv[t].value),
        decreases rest.len(),
    {
        let ghost rest_before = rest@;
        let d = rest.remove(0);
        proof {
            assert forall|t: int| 0 <= t < rest.len() implies (#[trigger] rest[t])@ == dv[i + 1 + t] by {
                assert(rest[t] == rest_before[t + 1]);
            }
        }
        pairs.push(d.into_pair());
        proof {
            i = i + 1;
        }
    }
    assert(pairs_view(pairs@) =~= doc_pairs(dv));
    es.bulk_request("category", pairs)
}

/// The bulk request that indexes documents of type attribute.
pub fn attribute_batch(es: &ESClient, docs: Vec<Attribute>) -> (r: BulkRequest)
    ensures
        r.index@ == es.prefix() + "_"@ + "attribute"@,
        values_view(r.body@) == bulk_parts(doc_pairs(attributes_view(docs@))),
{
    let ghost dv = attributes_view(docs@);
    let mut rest = docs;
    let mut pairs: Vec<(String, JsonValue)> = Vec::new();
    let ghost mut i: int = 0;
    while rest.len() > 0
        invariant
            0 <= i <= dv.len(),
            dv.len() == i + rest.len(),
            forall|t: int| 0 <= t < rest.len() ==> (#[trigger] rest[t])@ == dv[i + t],
            pairs.len() == i,
            forall|t: int| 0 <= t < i ==> ((#[trigger] pairs[t]).0@, pairs[t].1@) == (dv[t].id, dv[t].value),
        decreases rest.len(),
    {
        let ghost rest_before = rest@;
        let d = rest.remove(0);
        proof {
            assert forall|t: int| 0 <= t < rest.len() implies (#[trigger] rest[t])@ == dv[i + 1 + t] by {
                assert(rest[t] == rest_before[t + 1]);
            }
        }
        pairs.push(d.into_pair());
        proof {
            i = i + 1;
        }
    }
    assert(pairs_view(pairs@) =~= doc_pairs(dv));
    es.bulk_request("attribute", pairs)
}

/// One run of an import, from its first fetch to its end.
pub struct ImportRun {
    pub adapter: ImportAdapter,
    pub ids: Option<Vec<String>>,
    pub state: RunState,
}

impl ImportRun {
    /// A run that starts by fetching the adapter's current page.
    pub fn new(adapter: ImportAdapter, ids: Option<Vec<String>>) -> (r: ImportRun)
        ensures
            r.adapter == adapter,
            r.ids == ids,
            r.state == RunState::Fetching,
    {
        ImportRun { adapter, ids, state: RunState::Fetching }
    }

    /// What is to be done next.
    pub fn next_action(&self) -> (r: RunAction)
        ensures
            match self.state {
                RunState::Fetching => r matches RunAction::Fetch(req)
                    && is_request_for(req, self.adapter.kind_of(), self.ids, self.adapter.page_of()),
                RunState::Indexing { .. } => r is Index,
                RunState::Done => r is Finish,
                RunState::Failed => r is Abort,
            },
    {
        match self.state {
            RunState::Fetching => RunAction::Fetch(self.adapter.request(&self.ids)),
            RunState::Indexing { .. } => RunAction::Index,
            RunState::Done => RunAction::Finish,
            RunState::Failed => RunAction::Abort,
        }
    }

    /// Takes in the outcome of a fetch: a page (with whether it is the last)
    /// moves the run on to indexing; a failure ends it. In any other state
    /// the run is unchanged.
    pub fn on_fetched(&mut self, outcome: Result<bool, FetchError>)
        ensures
            final(self).adapter == old(self).adapter,
            final(self).ids == old(self).ids,
            final(self).state == (match (old(self).state, outcome) {
                (RunState::Fetching, Ok(fin)) => RunState::Indexing { is_final: fin },
                (RunState::Fetching, Err(_)) => RunState::Failed,
                (s, _) => s,
            }),
    {
        if let RunState::Fetching = self.state {
            self.state = match outcome {
                Ok(fin) => RunState::Indexing { is_final: fin },
                Err(_) => RunState::Failed,
            };
        }
    }

    /// Takes in that a page was submitted to the index, whether or not the
    /// submission succeeded: after the last page the run is done; otherwise
    /// the cursor moves to the next page, with the same ids, and the run
    /// fetches again. A cursor on the largest page number cannot move and
    /// ends the run. In any other state the run is unchanged.
    pub fn on_indexed(&mut self)
        ensures
            final(self).ids == old(self).ids,
            final(self).adapter == old(self).adapter.with_page(final(self).adapter.page_of()),
            match old(self).state {
                RunState::Indexing { is_final } => if !is_final && old(self).adapter.page_of() < i32::MAX {
                    final(self).state == RunState::Fetching && final(self).adapter.page_of() == old(self).adapter.page_of() + 1
                } else {
                    final(self).state == RunState::Done && final(self).adapter.page_of() == old(self).adapter.page_of()
                },
                _ => final(self).state == old(self).state && final(self).adapter.page_of() == old(self).adapter.page_of(),
            },
    {
        if let RunState::Indexing { is_final } = self.state {
            if !is_final && self.adapter.page() < i32::MAX {
                match &mut self.adapter {
                    ImportAdapter::Product(a) => { a.page = a.page + 1; },
                    ImportAdapter::Category(a) => { a.page = a.page + 1; },
                    ImportAdapter::Attribute(a) => { a.page = a.page + 1; },
                }
                self.state = RunState::Fetching;
            } else {
                self.state = RunState::Done;
            }
        }
    }
}

/// Chooses adapters by name.
pub struct ImportWorker {
    magento_rest_client: MagentoRestClient,
    es: ESClient,
    page: i32,
    page_size: i32,
}

impl ImportWorker {
    /// The client the worker's adapters read the catalog API with.
    pub closed spec fn client_of(&self) -> MagentoRestClient {
        self.magento_rest_client
    }

    /// The client the worker's adapters write the search index with.
    pub closed spec fn es_of(&self) -> ESClient {
        self.es
    }

    pub fn new(client: MagentoRestClient, es: ESClient) -> (r: ImportWorker)
        ensures
            r.client_of() == client,
            r.es_of() == es,
    {
        ImportWorker { magento_rest_client: client, es, page_size: PAGE_SIZE, page: 0 }
    }

    /// The adapter named `adapter_name` (`product`, `category` or
    /// `attribute`), on its first page; `None` for any other name.
    pub fn get_adapter(&self, adapter_name: &str) -> (r: Option<ImportAdapter>)
        ensures
            match kind_of_name(adapter_name@) {
                Some(k) => r matches Some(a) && a.kind_of() == k && a.page_of() == 0
                    && a.client_of().same_as(&self.client_of()) && a.es_of().same_as(&self.es_of()),
                None => r is None,
            },
    {
        let name = String::from_str(adapter_name);
        if crate::json::text_is(&name, "product") {
            Some(ImportAdapter::Product(ProductAdapter::new(self.magento_rest_client.duplicate(), self.es.duplicate())))
        } else if crate::json::text_is(&name, "category") {
            Some(ImportAdapter::Category(CategoryAdapter::new(self.magento_rest_client.duplicate(), self.es.duplicate())))
        } else if crate::json::text_is(&name, "attribute") {
            Some(ImportAdapter::Attribute(AttributeAdapter::new(self.magento_rest_client.duplicate(), self.es.duplicate())))
        } else {
            None
        }
    }

    /// The run of the adapter named `adapter_name` with the given ids;
    /// `None` where no adapter has that name.
    pub fn start(&self, adapter_name: &str, ids: Option<Vec<String>>) -> (r: Option<ImportRun>)
        ensures
            match kind_of_name(adapter_name@) {
                Some(k) => r matches Some(run) && run.adapter.kind_of() == k && run.adapter.page_of() == 0
                    && run.adapter.client_of().same_as(&self.client_of()) && run.adapter.es_of().same_as(&self.es_of())
                    && run.state == RunState::Fetching && run.ids == ids,
                None => r is None,
            },
    {
        match self.get_adapter(adapter_name) {
            Some(a) => Some(ImportRun::new(a, ids)),
            None => None,
        }
    }
}

/// The importer: the configuration and the clients built from it.
pub struct Mage2Importer {
    config: AppConfiguration,
    magento_rest_client: MagentoRestClient,
    es: ESClient,
}

/// Whether a client was built from the catalog API configuration `c`.
pub open spec fn client_from(cl: MagentoRestClient, c: MagentoConfiguration) -> bool {
    &&& cl.config.url@ == c.url@
    &&& cl.config.consumer_key@ == c.consumer_key@
    &&& cl.config.consumer_secret@ == c.consumer_secret@
    &&& cl.config.access_token@ == c.access_token@
    &&& cl.config.access_token_secret@ == c.access_token_secret@
    &&& cl.api_version@ == "V1"@
}

impl Mage2Importer {
    /// Builds the clients of an import from its configuration, which it keeps.
    pub fn new(configuration: AppConfiguration) -> (r: Mage2Importer)
        ensures
            r.configuration() == configuration,
            client_from(r.client_of(), configuration.magento),
            r.es_of().prefix() == configuration.elasticsearch.index@,
            r.es_of().url() == configuration.elasticsearch.url@,
    {
        let rest_client = MagentoRestClient::new(configuration.magento.duplicate());
        let es_client = ESClient::new(configuration.elasticsearch.duplicate());
        Mage2Importer { config: configuration, magento_rest_client: rest_client, es: es_client }
    }

    /// The configuration the importer was built from.
    pub closed spec fn configuration(&self) -> AppConfiguration {
        self.config
    }

    /// The client the importer reads the catalog API with.
    pub closed spec fn client_of(&self) -> MagentoRestClient {
        self.magento_rest_client
    }

    /// The client the importer writes the search index with.
    pub closed spec fn es_of(&self) -> ESClient {
        self.es
    }

    /// The run of the adapter named `adapter_name` (see `ImportWorker::start`),
    /// with the importer's clients.
    pub fn run(&self, adapter_name: &str, ids: Option<Vec<String>>) -> (r: Option<ImportRun>)
        ensures
            match kind_of_name(adapter_name@) {
                Some(k) => r matches Some(run) && run.adapter.kind_of() == k && run.adapter.page_of() == 0
                    && run.adapter.client_of().same_as(&self.client_of()) && run.adapter.es_of().same_as(&self.es_of())
                    && run.state == RunState::Fetching && run.ids == ids,
                None => r is None,
            },
    {
        let worker = ImportWorker::new(self.magento_rest_client.duplicate(), self.es.duplicate());
        worker.start(adapter_name, ids)
    }
}

} // verus!
