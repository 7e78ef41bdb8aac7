use vstd::prelude::*;
use crate::config::ElasticsearchConfiguration;
use crate::json::{lemma_array_view, lemma_object_view, Json, JsonValue};
use crate::entities::values_view;

verus! {

/// The directive that upserts the next body part under `id`:
/// `{"index": {"_id": id}}`.
pub open spec fn action_line(id: Seq<char>) -> Json {
    Json::Object(seq![("index"@, Json::Object(seq![("_id"@, Json::Str(id))]))])
}

/// The body of a bulk request: for each document, its directive and then
/// its value.
pub open spec fn bulk_parts(docs: Seq<(Seq<char>, Json)>) -> Seq<Json>
    decreases docs.len(),
{
    if docs.len() == 0 {
        Seq::empty()
    } else {
        bulk_parts(docs.drop_last()) + seq![action_line(docs.last().0), docs.last().1]
    }
}

/// The documents of an index once the documents `docs` have been upserted
/// into it in order, each replacing whatever had its id.
pub open spec fn upserted(index: Map<Seq<char>, Json>, docs: Seq<(Seq<char>, Json)>) -> Map<Seq<char>, Json>
    decreases docs.len(),
{
    if docs.len() == 0 {
        index
    } else {
        upserted(index, docs.drop_last()).insert(docs.last().0, docs.last().1)
    }
}

proof fn lemma_upserted_union(index: Map<Seq<char>, Json>, docs: Seq<(Seq<char>, Json)>)
    ensures
        upserted(index, docs) == index.union_prefer_right(upserted(Map::empty(), docs)),
    decreases docs.len(),
{
    if docs.len() == 0 {
        assert(index.union_prefer_right(Map::empty()) =~= index);
    } else {
        lemma_upserted_union(index, docs.drop_last());
        assert(upserted(index, docs) =~= index.union_prefer_right(upserted(Map::empty(), docs)));
    }
}

/// Upserting by id is idempotent: submitting the same documents a second time
/// leaves the index as the first submission left it, one document per id.
pub proof fn lemma_upsert_idempotent(index: Map<Seq<char>, Json>, docs: Seq<(Seq<char>, Json)>)
    ensures
        upserted(upserted(index, docs), docs) == upserted(index, docs),
{
    lemma_upserted_union(index, docs);
    lemma_upserted_union(upserted(index, docs), docs);
    let d = upserted(Map::empty(), docs);
    assert(index.union_prefer_right(d).union_prefer_right(d) =~= index.union_prefer_right(d));
}

/// The views of documents given as id/value pairs.
pub open spec fn pairs_view(docs: Seq<(String, JsonValue)>) -> Seq<(Seq<char>, Json)> {
    Seq::new(docs.len(), |i: int| (docs[i].0@, docs[i].1@))
}

/// One bulk upsert: the index it targets and the parts of its body.
pub struct BulkRequest {
    pub index: String,
    pub body: Vec<JsonValue>,
}

/// Builds the bulk requests to the search index.
pub struct ESClient {
    config: ElasticsearchConfiguration,
}

impl ESClient {
    pub fn new(config: ElasticsearchConfiguration) -> (r: ESClient)
        ensures
            r.prefix() == config.index@,
            r.url() == config.url@,
    {
        ESClient { config }
    }

    /// Whether two clients target the same search engine and index prefix.
    pub open spec fn same_as(&self, o: &ESClient) -> bool {
        self.prefix() == o.prefix() && self.url() == o.url()
    }

    /// The prefix of the index names.
    pub closed spec fn prefix(&self) -> Seq<char> {
        self.config.index@
    }

    /// The address of the search engine.
    pub closed spec fn url(&self) -> Seq<char> {
        self.config.url@
    }

    /// A copy of this client.
    pub fn duplicate(&self) -> (r: ESClient)
        ensures
            r.same_as(self),
    {
        ESClient { config: self.config.duplicate() }
    }

    /// The address of the search engine.
    pub fn base_url(&self) -> (r: String)
        ensures
            r@ == self.url(),
    {
        self.config.url.clone()
    }

    /// The index that documents of the entity type `entity` go to:
    /// `{prefix}_{entity}`.
    pub fn index_name(&self, entity: &str) -> (r: String)
        ensures
            r@ == self.prefix() + "_"@ + entity@,
    {
        let mut s = self.config.index.clone();
        s.append("_");
        s.append(entity);
        s
    }

    /// The one bulk request that upserts `docs`, keyed by id, into the index
    /// of the entity type `entity`.
    pub fn bulk_request(&self, entity: &str, docs: Vec<(String, JsonValue)>) -> (r: BulkRequest)
        ensures
            r.index@ == self.prefix() + "_"@ + entity@,
            values_view(r.body@) == bulk_parts(pairs_view(docs@)),
    {
        let ghost all = pairs_view(docs@);
        let mut rest = docs;
        let mut body: Vec<JsonValue> = Vec::new();
        let ghost mut i: int = 0;
        proof {
            assert(all.subrange(0, 0) =~= Seq::<(Seq<char>, Json)>::empty());
            assert(values_view(body@) =~= Seq::<Json>::empty());
        }
        while rest.len() > 0
            invariant
                0 <= i <= all.len(),
                all.len() == i + rest.len(),
                forall|t: int| 0 <= t < rest.len() ==> ((#[trigger] rest[t]).0@, rest[t].1@) == all[i + t],
                values_view(body@) == bulk_parts(all.subrange(0, i)),
            decreases rest.len(),
        {
            let ghost rest_before = rest@;
            let ghost before = values_view(body@);
            let (id, value) = rest.remove(0);
            proof {
                assert((id@, value@) == all[i]);
                assert forall|t: int| 0 <= t < rest.len() implies ((#[trigger] rest[t]).0@, rest[t].1@) == all[i + 1 + t] by {
                    assert(rest[t] == rest_before[t + 1]);
                }
                assert(all.subrange(0, i + 1).drop_last() =~= all.subrange(0, i));
            }
            let mut inner: Vec<(String, JsonValue)> = Vec::new();
            inner.push((String::from_str("_id"), JsonValue::Str(id)));
            let mut outer: Vec<(String, JsonValue)> = Vec::new();
            let ghost inner_v = inner;
            proof {
                lemma_object_view(inner);
            }
            outer.push((String::from_str("index"), JsonValue::Object(inner)));
            proof {
                lemma_object_view(outer);
                assert(crate::json::entries_view(inner_v@) =~= seq![("_id"@, Json::Str(all[i].0))]);
                assert(crate::json::entries_view(outer@) =~= seq![("index"@, Json::Object(seq![("_id"@, Json::Str(all[i].0))]))]);
            }
            body.push(JsonValue::Object(outer));
            body.push(value);
            proof {
                assert(values_view(body@) =~= before + seq![action_line(all[i].0), all[i].1]);
                i = i + 1;
            }
        }
        proof {
            assert(all.subrange(0, i) =~= all);
        }
        BulkRequest { index: self.index_name(entity), body }
    }
}

} // verus!
