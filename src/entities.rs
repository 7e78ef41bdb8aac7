use vstd::prelude::*;
use crate::json::{
    entries_view, lemma_array_view, lemma_lookup_push, lemma_object_view, lookup, member,
    member_or_null, opt_view, put, put_entry, take_entry, text_is, Json, JsonValue,
};
use crate::text::{decimal, decimal_text};
use crate::client::{url_encoded, MagentoRestClient};

verus! {

/// Why one raw record could not be turned into a document.
#[derive(Debug, Clone, Copy, PartialEq, Eq, Structural)]
pub enum RecordError {
    /// The record is not a JSON object.
    NotAnObject,
    /// The record's id is absent or is not a number or a string.
    MissingId,
    /// `custom_attributes` is present but is not a list.
    MalformedCustomAttributes,
    /// An entry of `custom_attributes` has no string `attribute_code`.
    MissingAttributeCode,
    /// `media_gallery_entries` is present but is not a list.
    MalformedMediaGallery,
}

/// The key under which a record lists its dynamic attributes.
pub open spec fn custom_key() -> Seq<char> {
    "custom_attributes"@
}

/// The text of an id: the decimal form of an integer, the text of any other
/// number, or a string itself.
pub open spec fn id_text(o: Option<Json>) -> Option<Seq<char>> {
    match o {
        Some(Json::Int(n)) => Some(decimal(n)),
        Some(Json::Number(t)) => Some(t),
        Some(Json::Str(s)) => Some(s),
        _ => None,
    }
}

/// Every top-level entry but `custom_attributes`, set in order.
pub open spec fn copy_base(e: Seq<(Seq<char>, Json)>) -> Seq<(Seq<char>, Json)>
    decreases e.len(),
{
    if e.len() == 0 {
        Seq::empty()
    } else if e.last().0 == custom_key() {
        copy_base(e.drop_last())
    } else {
        put(copy_base(e.drop_last()), e.last().0, e.last().1)
    }
}

/// Whether a custom attribute entry carries a string code.
pub open spec fn has_code(item: Json) -> bool {
    member(item, "attribute_code"@) matches Some(Json::Str(_))
}

/// The code of a custom attribute entry.
pub open spec fn code_of(item: Json) -> Seq<char> {
    match member(item, "attribute_code"@) {
        Some(Json::Str(c)) => c,
        _ => Seq::empty(),
    }
}

/// `acc` with each custom attribute entry set, in order, code to value.
pub open spec fn merge_custom(acc: Seq<(Seq<char>, Json)>, items: Seq<Json>) -> Seq<(Seq<char>, Json)>
    decreases items.len(),
{
    if items.len() == 0 {
        acc
    } else {
        put(merge_custom(acc, items.drop_last()), code_of(items.last()), member_or_null(items.last(), "value"@))
    }
}

/// The field set of a record: its entries but `custom_attributes`, then each
/// custom attribute set under its code (so a code may shadow a base field).
pub open spec fn flatten(raw: Json) -> Result<Seq<(Seq<char>, Json)>, RecordError> {
    match raw {
        Json::Object(e) => match lookup(e, custom_key()) {
            None => Ok(copy_base(e)),
            Some(Json::Array(items)) => if forall|i: int| 0 <= i < items.len() ==> #[trigger] has_code(items[i]) {
                Ok(merge_custom(copy_base(e), items))
            } else {
                Err(RecordError::MissingAttributeCode)
            },
            Some(_) => Err(RecordError::MalformedCustomAttributes),
        },
        _ => Err(RecordError::NotAnObject),
    }
}

proof fn lemma_copy_base_step(s: Seq<(Seq<char>, Json)>, i: int)
    requires
        0 <= i < s.len(),
    ensures
        copy_base(s.subrange(0, i + 1)) == (if s[i].0 == custom_key() {
            copy_base(s.subrange(0, i))
        } else {
            put(copy_base(s.subrange(0, i)), s[i].0, s[i].1)
        }),
{
    assert(s.subrange(0, i + 1).drop_last() =~= s.subrange(0, i));
}

proof fn lemma_merge_step(acc: Seq<(Seq<char>, Json)>, s: Seq<Json>, i: int)
    requires
        0 <= i < s.len(),
    ensures
        merge_custom(acc, s.subrange(0, i + 1)) == put(merge_custom(acc, s.subrange(0, i)), code_of(s[i]), member_or_null(s[i], "value"@)),
{
    assert(s.subrange(0, i + 1).drop_last() =~= s.subrange(0, i));
}

/// Flattens the entries of a record object (see `flatten`).
pub fn flatten_fields(entries: Vec<(String, JsonValue)>) -> (r: Result<Vec<(String, JsonValue)>, RecordError>)
    ensures
        match r {
            Ok(out) => flatten(Json::Object(entries_view(entries@))) == Ok::<_, RecordError>(entries_view(out@)),
            Err(e) => flatten(Json::Object(entries_view(entries@))) == Err::<Seq<(Seq<char>, Json)>, _>(e),
        },
{
    let ghost orig = entries_view(entries@);
    let mut rest = entries;
    let mut out: Vec<(String, JsonValue)> = Vec::new();
    let mut custom: Option<JsonValue> = None;
    let ghost mut i: int = 0;
    proof {
        assert(entries_view(rest@) =~= orig.subrange(0, orig.len() as int));
        assert(orig.subrange(0, 0) =~= Seq::<(Seq<char>, Json)>::empty());
        assert(entries_view(out@) =~= Seq::<(Seq<char>, Json)>::empty());
    }
    while rest.len() > 0
        invariant
            0 <= i <= orig.len(),
            orig.len() == i + rest.len(),
            entries_view(rest@) == orig.subrange(i, orig.len() as int),
            entries_view(out@) == copy_base(orig.subrange(0, i)),
            opt_view(custom) == lookup(orig.subrange(0, i), custom_key()),
        decreases rest.len(),
    {
        let ghost rest_before = entries_view(rest@);
        let (k, v) = rest.remove(0);
        proof {
            assert(rest_before[0] == orig[i]);
            assert(orig[i] == (k@, v@));
            assert(entries_view(rest@) =~= orig.subrange(i + 1, orig.len() as int)) by {
                assert forall|t: int| 0 <= t < rest@.len() implies entries_view(rest@)[t] == orig.subrange(i + 1, orig.len() as int)[t] by {
                    assert(rest_before[t + 1] == orig[i + 1 + t]);
                }
            }
            lemma_copy_base_step(orig, i);
            assert(orig.subrange(0, i + 1) =~= orig.subrange(0, i).push(orig[i]));
            lemma_lookup_push(orig.subrange(0, i), orig[i], custom_key());
        }
        if text_is(&k, "custom_attributes") {
            if custom.is_none() {
                custom = Some(v);
            }
        } else {
            put_entry(&mut out, k, v);
        }
        proof {
            i = i + 1;
        }
    }
    proof {
        assert(orig.subrange(0, i) =~= orig);
    }
    let base = out;
    match custom {
        None => Ok(base),
        Some(JsonValue::Array(items)) => {
            proof {
                lemma_array_view(items);
            }
            let ghost its = Seq::new(items.len() as nat, |t: int| items[t]@);
            let ghost base_view = entries_view(base@);
            let mut out = base;
            let mut rest = items;
            let ghost mut j: int = 0;
            proof {
                assert(its.subrange(0, 0) =~= Seq::<Json>::empty());
                assert(lookup(orig, custom_key()) == Some(Json::Array(its)));
            }
            while rest.len() > 0
                invariant
                    0 <= j <= its.len(),
                    its.len() == j + rest.len(),
                    forall|t: int| 0 <= t < rest.len() ==> (#[trigger] rest[t])@ == its[j + t],
                    entries_view(out@) == merge_custom(base_view, its.subrange(0, j)),
                    forall|t: int| 0 <= t < j ==> #[trigger] has_code(its[t]),
                    lookup(orig, custom_key()) == Some(Json::Array(its)),
                    base_view == copy_base(orig),
                    orig == entries_view(entries@),
                decreases rest.len(),
            {
                let ghost rest_before = rest@;
                let item = rest.remove(0);
                proof {
                    assert(item@ == its[j]);
                    assert forall|t: int| 0 <= t < rest.len() implies (#[trigger] rest[t])@ == its[j + 1 + t] by {
                        assert(rest[t] == rest_before[t + 1]);
                    }
                    lemma_merge_step(base_view, its, j);
                }
                let code = item.get_str("attribute_code");
                match code {
                    None => {
                        assert(!has_code(its[j]));
                        assert(!(forall|t: int| 0 <= t < its.len() ==> #[trigger] has_code(its[t])));
                        assert(flatten(Json::Object(orig)) == Err::<Seq<(Seq<char>, Json)>, RecordError>(RecordError::MissingAttributeCode));
                        return Err(RecordError::MissingAttributeCode);
                    },
                    Some(c) => {
                        let value = match item {
                            JsonValue::Object(mut fields) => {
                                proof {
                                    lemma_object_view(fields);
                                }
                                match take_entry(&mut fields, "value") {
                                    Some(v) => v,
                                    None => JsonValue::Null,
                                }
                            },
                            _ => JsonValue::Null,
                        };
                        put_entry(&mut out, c, value);
                    },
                }
                proof {
                    j = j + 1;
                }
            }
            proof {
                assert(its.subrange(0, j) =~= its);
            }
            Ok(out)
        },
        Some(_) => Err(RecordError::MalformedCustomAttributes),
    }
}

/// An optional string, viewed.
pub open spec fn opt_text(o: Option<String>) -> Option<Seq<char>> {
    match o {
        Some(s) => Some(s@),
        None => None,
    }
}

/// The text of an id value.
pub fn id_of(v: &JsonValue) -> (r: Option<String>)
    ensures
        opt_text(r) == id_text(Some(v@)),
{
    match v {
        JsonValue::Int(n) => Some(decimal_text(*n)),
        JsonValue::Number(t) => Some(t.clone()),
        JsonValue::Str(s) => Some(s.clone()),
        _ => None,
    }
}

/// A normalized document: the id it is indexed under and its value.
pub ghost struct DocView {
    pub id: Seq<char>,
    pub value: Json,
}

/// The document for a raw category record.
pub open spec fn category_of(raw: Json) -> Result<DocView, RecordError> {
    match raw {
        Json::Object(_) => match id_text(member(raw, "id"@)) {
            None => Err(RecordError::MissingId),
            Some(id) => match flatten(raw) {
                Ok(f) => Ok(DocView { id, value: Json::Object(f) }),
                Err(e) => Err(e),
            },
        },
        _ => Err(RecordError::NotAnObject),
    }
}

/// The document for a raw attribute record: the record itself, under its
/// `attribute_id`.
pub open spec fn attribute_of(raw: Json) -> Result<DocView, RecordError> {
    match raw {
        Json::Object(_) => match id_text(member(raw, "attribute_id"@)) {
            None => Err(RecordError::MissingId),
            Some(id) => Ok(DocView { id, value: raw }),
        },
        _ => Err(RecordError::NotAnObject),
    }
}

/// The documents of the records that transform, in input order.
pub open spec fn kept(raws: Seq<Json>, f: spec_fn(Json) -> Result<DocView, RecordError>) -> Seq<DocView>
    decreases raws.len(),
{
    if raws.len() == 0 {
        Seq::empty()
    } else {
        match f(raws.last()) {
            Ok(d) => kept(raws.drop_last(), f).push(d),
            Err(_) => kept(raws.drop_last(), f),
        }
    }
}

proof fn lemma_kept_step(raws: Seq<Json>, f: spec_fn(Json) -> Result<DocView, RecordError>, i: int)
    requires
        0 <= i < raws.len(),
    ensures
        kept(raws.subrange(0, i + 1), f) == (match f(raws[i]) {
            Ok(d) => kept(raws.subrange(0, i), f).push(d),
            Err(_) => kept(raws.subrange(0, i), f),
        }),
{
    assert(raws.subrange(0, i + 1).drop_last() =~= raws.subrange(0, i));
}

/// The views of a list of raw values.
pub open spec fn values_view(v: Seq<JsonValue>) -> Seq<Json> {
    Seq::new(v.len(), |i: int| v[i]@)
}

/// The document that keeps a raw record as it is, under its `id`.
pub open spec fn raw_doc(raw: Json) -> Result<DocView, RecordError> {
    match id_text(member(raw, "id"@)) {
        None => Err(RecordError::MissingId),
        Some(id) => Ok(DocView { id, value: raw }),
    }
}

/// The id text of the member `key` of a value.
pub fn id_field(raw: &JsonValue, key: &str) -> (r: Option<String>)
    ensures
        opt_text(r) == id_text(member(raw@, key@)),
{
    match raw {
        JsonValue::Object(entries) => {
            proof {
                lemma_object_view(*entries);
            }
            match crate::json::find_key(entries, key) {
                Some(i) => {
                    proof {
                        crate::json::lemma_lookup_index(entries_view(entries@), key@, i as int);
                    }
                    id_of(&entries[i].1)
                },
                None => {
                    proof {
                        crate::json::lemma_lookup_none(entries_view(entries@), key@);
                    }
                    None
                },
            }
        },
        _ => None,
    }
}

/// A category document.
pub struct Category {
    id: String,
    value: JsonValue,
}

impl View for Category {
    type V = DocView;

    closed spec fn view(&self) -> DocView {
        DocView { id: self.id@, value: self.value@ }
    }
}

/// The views of a list of documents.
pub open spec fn categories_view(v: Seq<Category>) -> Seq<DocView> {
    Seq::new(v.len(), |i: int| v[i]@)
}

impl Category {
    /// Keeps a raw record as it is, under its `id`, without flattening it.
    pub fn new(value: JsonValue) -> (r: Result<Category, RecordError>)
        ensures
            match r {
                Ok(d) => raw_doc(value@) == Ok::<_, RecordError>(d@),
                Err(e) => raw_doc(value@) == Err::<DocView, _>(e),
            },
    {
        match id_field(&value, "id") {
            Some(id) => Ok(Category { id, value }),
            None => Err(RecordError::MissingId),
        }
    }
}

impl Category {
    /// The id the document is indexed under.
    pub fn id(&self) -> (r: String)
        ensures
            r@ == self@.id,
    {
        self.id.clone()
    }

    /// The document's value.
    pub fn value(&self) -> (r: &JsonValue)
        ensures
            r@ == self@.value,
    {
        &self.value
    }

    /// Gives the document's value up.
    pub fn into_value(self) -> (r: JsonValue)
        ensures
            r@ == self@.value,
    {
        self.value
    }

    /// Gives the document up as its id and value.
    pub fn into_pair(self) -> (r: (String, JsonValue))
        ensures
            r.0@ == self@.id,
            r.1@ == self@.value,
    {
        (self.id, self.value)
    }

    /// Turns a raw category record into its document.
    pub fn from_value(raw: JsonValue) -> (r: Result<Category, RecordError>)
        ensures
            match r {
                Ok(c) => category_of(raw@) == Ok::<_, RecordError>(c@),
                Err(e) => category_of(raw@) == Err::<DocView, _>(e),
            },
    {
        match raw {
            JsonValue::Object(entries) => {
                proof {
                    lemma_object_view(entries);
                }
                let id = match crate::json::find_key(&entries, "id") {
                    Some(i) => {
                        proof {
                            crate::json::lemma_lookup_index(entries_view(entries@), "id"@, i as int);
                        }
                        id_of(&entries[i].1)
                    },
                    None => {
                        proof {
                            crate::json::lemma_lookup_none(entries_view(entries@), "id"@);
                        }
                        None
                    },
                };
                match id {
                    None => Err(RecordError::MissingId),
                    Some(id) => match flatten_fields(entries) {
                        Ok(f) => {
                            proof {
                                lemma_object_view(f);
                            }
                            Ok(Category { id, value: JsonValue::Object(f) })
                        },
                        Err(e) => Err(e),
                    },
                }
            },
            _ => Err(RecordError::NotAnObject),
        }
    }
}

/// The text of a string value, empty for any other value.
pub open spec fn str_or_empty(v: Json) -> Seq<char> {
    match v {
        Json::Str(t) => t,
        _ => Seq::empty(),
    }
}

/// An integer value, zero for any other value.
pub open spec fn int_or_zero(v: Json) -> int {
    match v {
        Json::Int(n) => n,
        _ => 0,
    }
}

/// A media gallery entry `{file, position, media_type, label}` reshaped as
/// `{image, pos, typ, lab}`, each sub-field defaulting on its own.
pub open spec fn media_entry(m: Json) -> Json {
    Json::Object(
        seq![
            ("image"@, Json::Str(str_or_empty(member_or_null(m, "file"@)))),
            ("pos"@, Json::Int(int_or_zero(member_or_null(m, "position"@)))),
            ("typ"@, Json::Str(str_or_empty(member_or_null(m, "media_type"@)))),
            ("lab"@, Json::Str(str_or_empty(member_or_null(m, "label"@)))),
        ],
    )
}

/// The reshaped gallery for a `media_gallery_entries` field; `None` where
/// the field is present but not a list.
pub open spec fn gallery_of(o: Option<Json>) -> Option<Seq<Json>> {
    match o {
        None => Some(Seq::empty()),
        Some(Json::Array(ms)) => Some(Seq::new(ms.len(), |i: int| media_entry(ms[i]))),
        Some(_) => None,
    }
}

/// The fields of a product document after the media gallery reshape.
pub open spec fn with_gallery(f: Seq<(Seq<char>, Json)>, g: Seq<Json>) -> Seq<(Seq<char>, Json)> {
    put(crate::json::remove_key(f, "media_gallery_entries"@), "media_gallery"@, Json::Array(g))
}

/// The document for a raw product record, before its configurable children
/// are attached.
pub open spec fn product_of(raw: Json) -> Result<DocView, RecordError> {
    match raw {
        Json::Object(_) => match id_text(member(raw, "id"@)) {
            None => Err(RecordError::MissingId),
            Some(id) => match flatten(raw) {
                Err(e) => Err(e),
                Ok(f) => match gallery_of(lookup(f, "media_gallery_entries"@)) {
                    None => Err(RecordError::MalformedMediaGallery),
                    Some(g) => Ok(DocView { id, value: Json::Object(with_gallery(f, g)) }),
                },
            },
        },
        _ => Err(RecordError::NotAnObject),
    }
}

/// A child variant reduced to the fields a parent document carries.
pub open spec fn child_summary(c: Json) -> Json {
    Json::Object(
        seq![
            ("id"@, member_or_null(c, "id"@)),
            ("sku"@, member_or_null(c, "sku"@)),
            ("status"@, member_or_null(c, "status"@)),
            ("visibility"@, member_or_null(c, "visibility"@)),
            ("name"@, member_or_null(c, "name"@)),
            ("price"@, member_or_null(c, "price"@)),
            ("tier_prices"@, member_or_null(c, "tier_prices"@)),
            ("special_price"@, member_or_null(c, "special_price"@)),
            ("stock"@, member_or_null(c, "stock"@)),
        ],
    )
}

/// Whether a product document is a configurable (variant parent) product.
pub open spec fn is_configurable(d: DocView) -> bool {
    member(d.value, "type_id"@) == Some(Json::Str("configurable"@))
}

/// What the dependent fetch of a product's child variants gave.
#[derive(Debug)]
pub enum ChildrenOutcome {
    /// The children endpoint answered with these records.
    Fetched(Vec<JsonValue>),
    /// The fetch failed; the product carries an empty child list.
    Degraded,
}

/// The reduced child list that an outcome gives.
pub open spec fn summaries(o: ChildrenOutcome) -> Seq<Json> {
    match o {
        ChildrenOutcome::Fetched(v) => Seq::new(v@.len(), |i: int| child_summary(v[i]@)),
        ChildrenOutcome::Degraded => Seq::empty(),
    }
}

/// A product document with its child list attached under
/// `configurable_children` where it is configurable; any other is unchanged.
pub open spec fn enriched(d: DocView, children: Seq<Json>) -> DocView {
    if is_configurable(d) {
        DocView {
            id: d.id,
            value: Json::Object(put(d.value->Object_0, "configurable_children"@, Json::Array(children))),
        }
    } else {
        d
    }
}

proof fn lemma_fields_of(v: JsonValue, fields: Vec<(String, JsonValue)>)
    requires
        match v {
            JsonValue::Object(f) => fields == f,
            _ => fields@.len() == 0,
        },
    ensures
        forall|k: Seq<char>| #[trigger] lookup(entries_view(fields@), k) == member(v@, k),
{
    match v {
        JsonValue::Object(f) => {
            lemma_object_view(f);
        },
        _ => {
            assert forall|k: Seq<char>| #[trigger] lookup(entries_view(fields@), k) == member(v@, k) by {
                assert(entries_view(fields@).len() == 0);
            }
        },
    }
}

fn text_or_empty(v: JsonValue) -> (r: String)
    ensures
        r@ == str_or_empty(v@),
{
    match v {
        JsonValue::Str(t) => t,
        _ => String::new(),
    }
}

fn int_or_zero_of(v: JsonValue) -> (r: i64)
    ensures
        r as int == int_or_zero(v@),
{
    match v {
        JsonValue::Int(n) => n,
        _ => 0,
    }
}

fn keyed(k: &str, v: JsonValue) -> (r: (String, JsonValue))
    ensures
        r.0@ == k@,
        r.1 == v,
{
    (String::from_str(k), v)
}

/// Reshapes one media gallery entry (see `media_entry`).
pub fn media_entry_of(m: JsonValue) -> (r: JsonValue)
    ensures
        r@ == media_entry(m@),
{
    let ghost mv = m@;
    let mut fields = match m {
        JsonValue::Object(f) => f,
        _ => Vec::new(),
    };
    proof {
        lemma_fields_of(m, fields);
        reveal_strlit("file");
        reveal_strlit("position");
        reveal_strlit("media_type");
        reveal_strlit("label");
        assert("file"@.len() == 4 && "position"@.len() == 8 && "media_type"@.len() == 10 && "label"@.len() == 5);
    }
    let file = crate::json::take_or_null(&mut fields, "file");
    let position = crate::json::take_or_null(&mut fields, "position");
    let media_type = crate::json::take_or_null(&mut fields, "media_type");
    let label = crate::json::take_or_null(&mut fields, "label");
    let mut out: Vec<(String, JsonValue)> = Vec::new();
    out.push(keyed("image", JsonValue::Str(text_or_empty(file))));
    out.push(keyed("pos", JsonValue::Int(int_or_zero_of(position))));
    out.push(keyed("typ", JsonValue::Str(text_or_empty(media_type))));
    out.push(keyed("lab", JsonValue::Str(text_or_empty(label))));
    proof {
        lemma_object_view(out);
        assert(entries_view(out@) =~= media_entry(mv)->Object_0);
    }
    JsonValue::Object(out)
}

/// Reduces one child variant record (see `child_summary`).
pub fn child_summary_of(c: JsonValue) -> (r: JsonValue)
    ensures
        r@ == child_summary(c@),
{
    let ghost cv = c@;
    let mut fields = match c {
        JsonValue::Object(f) => f,
        _ => Vec::new(),
    };
    proof {
        lemma_fields_of(c, fields);
        reveal_strlit("id");
        reveal_strlit("sku");
        reveal_strlit("status");
        reveal_strlit("visibility");
        reveal_strlit("name");
        reveal_strlit("price");
        reveal_strlit("tier_prices");
        reveal_strlit("special_price");
        reveal_strlit("stock");
        assert("id"@.len() == 2 && "sku"@.len() == 3 && "status"@.len() == 6 && "visibility"@.len() == 10);
        assert("name"@.len() == 4 && "price"@.len() == 5 && "tier_prices"@.len() == 11);
        assert("special_price"@.len() == 13 && "stock"@.len() == 5);
        assert("price"@[0] != "stock"@[0]);
    }
    let id = crate::json::take_or_null(&mut fields, "id");
    let sku = crate::json::take_or_null(&mut fields, "sku");
    let status = crate::json::take_or_null(&mut fields, "status");
    let visibility = crate::json::take_or_null(&mut fields, "visibility");
    let name = crate::json::take_or_null(&mut fields, "name");
    let price = crate::json::take_or_null(&mut fields, "price");
    let tier_prices = crate::json::take_or_null(&mut fields, "tier_prices");
    let special_price = crate::json::take_or_null(&mut fields, "special_price");
    let stock = crate::json::take_or_null(&mut fields, "stock");
    let mut out: Vec<(String, JsonValue)> = Vec::new();
    out.push(keyed("id", id));
    out.push(keyed("sku", sku));
    out.push(keyed("status", status));
    out.push(keyed("visibility", visibility));
    out.push(keyed("name", name));
    out.push(keyed("price", price));
    out.push(keyed("tier_prices", tier_prices));
    out.push(keyed("special_price", special_price));
    out.push(keyed("stock", stock));
    proof {
        lemma_object_view(out);
        assert(entries_view(out@) =~= child_summary(cv)->Object_0);
    }
    JsonValue::Object(out)
}

/// A product document.
pub struct Product {
    id: String,
    value: JsonValue,
}

impl View for Product {
    type V = DocView;

    closed spec fn view(&self) -> DocView {
        DocView { id: self.id@, value: self.value@ }
    }
}

/// The views of a list of documents.
pub open spec fn products_view(v: Seq<Product>) -> Seq<DocView> {
    Seq::new(v.len(), |i: int| v[i]@)
}

impl Product {
    /// Keeps a raw record as it is, under its `id`, without flattening it.
    pub fn new(value: JsonValue) -> (r: Result<Product, RecordError>)
        ensures
            match r {
                Ok(d) => raw_doc(value@) == Ok::<_, RecordError>(d@),
                Err(e) => raw_doc(value@) == Err::<DocView, _>(e),
            },
    {
        match id_field(&value, "id") {
            Some(id) => Ok(Product { id, value }),
            None => Err(RecordError::MissingId),
        }
    }
}

impl Product {
    /// The id the document is indexed under.
    pub fn id(&self) -> (r: String)
        ensures
            r@ == self@.id,
    {
        self.id.clone()
    }

    /// The document's value.
    pub fn value(&self) -> (r: &JsonValue)
        ensures
            r@ == self@.value,
    {
        &self.value
    }

    /// Gives the document's value up.
    pub fn into_value(self) -> (r: JsonValue)
        ensures
            r@ == self@.value,
    {
        self.value
    }

    /// Gives the document up as its id and value.
    pub fn into_pair(self) -> (r: (String, JsonValue))
        ensures
            r.0@ == self@.id,
            r.1@ == self@.value,
    {
        (self.id, self.value)
    }
}

/// An attribute document.
pub struct Attribute {
    id: String,
    value: JsonValue,
}

impl View for Attribute {
    type V = DocView;

    closed spec fn view(&self) -> DocView {
        DocView { id: self.id@, value: self.value@ }
    }
}

/// The views of a list of documents.
pub open spec fn attributes_view(v: Seq<Attribute>) -> Seq<DocView> {
    Seq::new(v.len(), |i: int| v[i]@)
}

impl Attribute {
    /// The id the document is indexed under.
    pub fn id(&self) -> (r: String)
        ensures
            r@ == self@.id,
    {
        self.id.clone()
    }

    /// The document's value.
    pub fn value(&self) -> (r: &JsonValue)
        ensures
            r@ == self@.value,
    {
        &self.value
    }

    /// Gives the document's value up.
    pub fn into_value(self) -> (r: JsonValue)
        ensures
            r@ == self@.value,
    {
        self.value
    }

    /// Gives the document up as its id and value.
    pub fn into_pair(self) -> (r: (String, JsonValue))
        ensures
            r.0@ == self@.id,
            r.1@ == self@.value,
    {
        (self.id, self.value)
    }
}

/// Reshapes each media gallery entry, in order.
pub fn gallery_entries(ms: Vec<JsonValue>) -> (r: Vec<JsonValue>)
    ensures
        values_view(r@) == Seq::new(ms@.len(), |i: int| media_entry(ms@[i]@)),
{
    let ghost src = ms@;
    let mut rest = ms;
    let mut out: Vec<JsonValue> = Vec::new();
    let ghost mut i: int = 0;
    while rest.len() > 0
        invariant
            0 <= i <= src.len(),
            src.len() == i + rest.len(),
            forall|t: int| 0 <= t < rest.len() ==> #[trigger] rest[t] == src[i + t],
            out.len() == i,
            forall|t: int| 0 <= t < i ==> (#[trigger] out[t])@ == media_entry(src[t]@),
        decreases rest.len(),
    {
        let ghost rest_before = rest@;
        let m = rest.remove(0);
        proof {
            assert forall|t: int| 0 <= t < rest.len() implies #[trigger] rest[t] == src[i + 1 + t] by {
                assert(rest[t] == rest_before[t + 1]);
            }
        }
        out.push(media_entry_of(m));
        proof {
            i = i + 1;
        }
    }
    assert(values_view(out@) =~= Seq::new(src.len(), |i: int| media_entry(src[i]@)));
    out
}

/// Reduces each child variant record, in order.
pub fn child_summaries(ms: Vec<JsonValue>) -> (r: Vec<JsonValue>)
    ensures
        values_view(r@) == Seq::new(ms@.len(), |i: int| child_summary(ms@[i]@)),
{
    let ghost src = ms@;
    let mut rest = ms;
    let mut out: Vec<JsonValue> = Vec::new();
    let ghost mut i: int = 0;
    while rest.len() > 0
        invariant
            0 <= i <= src.len(),
            src.len() == i + rest.len(),
            forall|t: int| 0 <= t < rest.len() ==> #[trigger] rest[t] == src[i + t],
            out.len() == i,
            forall|t: int| 0 <= t < i ==> (#[trigger] out[t])@ == child_summary(src[t]@),
        decreases rest.len(),
    {
        let ghost rest_before = rest@;
        let m = rest.remove(0);
        proof {
            assert forall|t: int| 0 <= t < rest.len() implies #[trigger] rest[t] == src[i + 1 + t] by {
                assert(rest[t] == rest_before[t + 1]);
            }
        }
        out.push(child_summary_of(m));
        proof {
            i = i + 1;
        }
    }
    assert(values_view(out@) =~= Seq::new(src.len(), |i: int| child_summary(src[i]@)));
    out
}

impl Product {
    /// Turns a raw product record into its document: the flattened fields
    /// with the media gallery reshaped (see `product_of`).
    pub fn from_value(raw: JsonValue) -> (r: Result<Product, RecordError>)
        ensures
            match r {
                Ok(p) => product_of(raw@) == Ok::<_, RecordError>(p@),
                Err(e) => product_of(raw@) == Err::<DocView, _>(e),
            },
    {
        match raw {
            JsonValue::Object(entries) => {
                proof {
                    lemma_object_view(entries);
                }
                let id = match crate::json::find_key(&entries, "id") {
                    Some(i) => {
                        proof {
                            crate::json::lemma_lookup_index(entries_view(entries@), "id"@, i as int);
                        }
                        id_of(&entries[i].1)
                    },
                    None => {
                        proof {
                            crate::json::lemma_lookup_none(entries_view(entries@), "id"@);
                        }
                        None
                    },
                };
                let id = match id {
                    None => { return Err(RecordError::MissingId); },
                    Some(id) => id,
                };
                let mut f = match flatten_fields(entries) {
                    Err(e) => { return Err(e); },
                    Ok(f) => f,
                };
                let ghost fv = entries_view(f@);
                let media = take_entry(&mut f, "media_gallery_entries");
                let g: Vec<JsonValue> = match media {
                    None => Vec::new(),
                    Some(JsonValue::Array(ms)) => {
                        proof {
                            lemma_array_view(ms);
                        }
                        gallery_entries(ms)
                    },
                    Some(_) => { return Err(RecordError::MalformedMediaGallery); },
                };
                let ghost gv = values_view(g@);
                proof {
                    lemma_array_view(g);
                    assert(JsonValue::Array(g)@ == Json::Array(gv)) by {
                        assert(JsonValue::Array(g)@->Array_0 =~= gv);
                    }
                    assert(gallery_of(lookup(fv, "media_gallery_entries"@)) == Some(gv)) by {
                        if let Some(Json::Array(msv)) = lookup(fv, "media_gallery_entries"@) {
                            assert(gv =~= Seq::new(msv.len(), |i: int| media_entry(msv[i])));
                        } else {
                            assert(gv =~= Seq::<Json>::empty());
                        }
                    }
                }
                put_entry(&mut f, String::from_str("media_gallery"), JsonValue::Array(g));
                proof {
                    assert(entries_view(f@) == with_gallery(fv, gv));
                    lemma_object_view(f);
                }
                Ok(Product { id, value: JsonValue::Object(f) })
            },
            _ => Err(RecordError::NotAnObject),
        }
    }

    /// The sku whose child variants a configurable product needs; `None`
    /// for any other product.
    pub fn configurable_sku(&self) -> (r: Option<String>)
        ensures
            match r {
                Some(s) => is_configurable(self@) && member(self@.value, "sku"@) == Some(Json::Str(s@)),
                None => !is_configurable(self@) || !(member(self@.value, "sku"@) matches Some(Json::Str(_))),
            },
    {
        match self.value.get_str("type_id") {
            Some(t) => {
                if text_is(&t, "configurable") {
                    self.value.get_str("sku")
                } else {
                    None
                }
            },
            None => None,
        }
    }
}

/// Turns raw category records into documents.
pub struct CategoryMapper {}

impl CategoryMapper {
    pub fn new() -> (r: CategoryMapper) {
        CategoryMapper {}
    }

    /// The documents of the records that transform, in input order; a
    /// record that does not is dropped.
    pub fn map(&self, categories: Vec<JsonValue>) -> (r: Vec<Category>)
        ensures
            categories_view(r@) == kept(values_view(categories@), |raw: Json| category_of(raw)),
    {
        let ghost raws = values_view(categories@);
        let ghost f = |raw: Json| category_of(raw);
        let mut rest = categories;
        let mut out: Vec<Category> = Vec::new();
        let ghost mut i: int = 0;
        proof {
            assert(raws.subrange(0, 0) =~= Seq::<Json>::empty());
            assert(categories_view(out@) =~= Seq::<DocView>::empty());
        }
        while rest.len() > 0
            invariant
                0 <= i <= raws.len(),
                raws.len() == i + rest.len(),
                forall|t: int| 0 <= t < rest.len() ==> (#[trigger] rest[t])@ == raws[i + t],
                categories_view(out@) == kept(raws.subrange(0, i), f),
                f == (|raw: Json| category_of(raw)),
            decreases rest.len(),
        {
            let ghost rest_before = rest@;
            let raw = rest.remove(0);
            proof {
                assert(raw@ == raws[i]);
                assert forall|t: int| 0 <= t < rest.len() implies (#[trigger] rest[t])@ == raws[i + 1 + t] by {
                    assert(rest[t] == rest_before[t + 1]);
                }
                lemma_kept_step(raws, f, i);
            }
            let ghost before = categories_view(out@);
            match Category::from_value(raw) {
                Ok(c) => {
                    out.push(c);
                    assert(categories_view(out@) =~= before.push(c@));
                },
                Err(_) => {},
            }
            proof {
                i = i + 1;
            }
        }
        proof {
            assert(raws.subrange(0, i) =~= raws);
        }
        out
    }
}

impl Attribute {
    /// Turns a raw attribute record into its document: the record itself,
    /// under its `attribute_id`.
    pub fn new(raw: JsonValue) -> (r: Result<Attribute, RecordError>)
        ensures
            match r {
                Ok(a) => attribute_of(raw@) == Ok::<_, RecordError>(a@),
                Err(e) => attribute_of(raw@) == Err::<DocView, _>(e),
            },
    {
        let id = match &raw {
            JsonValue::Object(entries) => {
                proof {
                    lemma_object_view(*entries);
                }
                match crate::json::find_key(entries, "attribute_id") {
                    Some(i) => {
                        proof {
                            crate::json::lemma_lookup_index(entries_view(entries@), "attribute_id"@, i as int);
                        }
                        match id_of(&entries[i].1) {
                            Some(id) => Ok(id),
                            None => Err(RecordError::MissingId),
                        }
                    },
                    None => {
                        proof {
                            crate::json::lemma_lookup_none(entries_view(entries@), "attribute_id"@);
                        }
                        Err(RecordError::MissingId)
                    },
                }
            },
            _ => Err(RecordError::NotAnObject),
        };
        match id {
            Ok(id) => Ok(Attribute { id, value: raw }),
            Err(e) => Err(e),
        }
    }
}

/// Turns raw attribute records into documents.
pub struct AttributeMapper {}

impl AttributeMapper {
    pub fn new() -> (r: AttributeMapper) {
        AttributeMapper {}
    }

    /// The documents of the records that transform, in input order; a
    /// record that does not is dropped.
    pub fn map(&self, attributes: Vec<JsonValue>) -> (r: Vec<Attribute>)
        ensures
            attributes_view(r@) == kept(values_view(attributes@), |raw: Json| attribute_of(raw)),
    {
        let ghost raws = values_view(attributes@);
        let ghost f = |raw: Json| attribute_of(raw);
        let mut rest = attributes;
        let mut out: Vec<Attribute> = Vec::new();
        let ghost mut i: int = 0;
        proof {
            assert(raws.subrange(0, 0) =~= Seq::<Json>::empty());
            assert(attributes_view(out@) =~= Seq::<DocView>::empty());
        }
        while rest.len() > 0
            invariant
                0 <= i <= raws.len(),
                raws.len() == i + rest.len(),
                forall|t: int| 0 <= t < rest.len() ==> (#[trigger] rest[t])@ == raws[i + t],
                attributes_view(out@) == kept(raws.subrange(0, i), f),
                f == (|raw: Json| attribute_of(raw)),
            decreases rest.len(),
        {
            let ghost rest_before = rest@;
            let raw = rest.remove(0);
            proof {
                assert(raw@ == raws[i]);
                assert forall|t: int| 0 <= t < rest.len() implies (#[trigger] rest[t])@ == raws[i + 1 + t] by {
                    assert(rest[t] == rest_before[t + 1]);
                }
                lemma_kept_step(raws, f, i);
            }
            let ghost before = attributes_view(out@);
            match Attribute::new(raw) {
                Ok(c) => {
                    out.push(c);
                    assert(attributes_view(out@) =~= before.push(c@));
                },
                Err(_) => {},
            }
            proof {
                i = i + 1;
            }
        }
        proof {
            assert(raws.subrange(0, i) =~= raws);
        }
        out
    }
}

proof fn lemma_copy_base_no_custom(e: Seq<(Seq<char>, Json)>)
    ensures
        lookup(copy_base(e), custom_key()) is None,
    decreases e.len(),
{
    reveal_with_fuel(lookup, 2);
    if e.len() > 0 {
        lemma_copy_base_no_custom(e.drop_last());
        if e.last().0 != custom_key() {
            crate::json::lemma_put_other(copy_base(e.drop_last()), e.last().0, e.last().1, custom_key());
        }
    }
}

proof fn lemma_merge_keeps_absent(acc: Seq<(Seq<char>, Json)>, items: Seq<Json>, k: Seq<char>)
    requires
        lookup(acc, k) is None,
        forall|i: int| 0 <= i < items.len() ==> code_of(#[trigger] items[i]) != k,
    ensures
        lookup(merge_custom(acc, items), k) is None,
    decreases items.len(),
{
    if items.len() > 0 {
        let init = items.drop_last();
        assert forall|i: int| 0 <= i < init.len() implies code_of(#[trigger] init[i]) != k by {
            assert(init[i] == items[i]);
        }
        lemma_merge_keeps_absent(acc, init, k);
        crate::json::lemma_put_other(merge_custom(acc, init), code_of(items.last()), member_or_null(items.last(), "value"@), k);
    }
}

proof fn lemma_merge_last_wins(acc: Seq<(Seq<char>, Json)>, items: Seq<Json>, i: int)
    requires
        0 <= i < items.len(),
        forall|j: int| i < j < items.len() ==> code_of(#[trigger] items[j]) != code_of(items[i]),
    ensures
        lookup(merge_custom(acc, items), code_of(items[i])) == Some(member_or_null(items[i], "value"@)),
    decreases items.len(),
{
    let init = items.drop_last();
    if i == items.len() - 1 {
        crate::json::lemma_put_same(merge_custom(acc, init), code_of(items.last()), member_or_null(items.last(), "value"@));
    } else {
        assert forall|j: int| i < j < init.len() implies code_of(#[trigger] init[j]) != code_of(init[i]) by {
            assert(init[j] == items[j]);
        }
        lemma_merge_last_wins(acc, init, i);
        assert(code_of(items.last()) != code_of(items[i]));
        crate::json::lemma_put_other(merge_custom(acc, init), code_of(items.last()), member_or_null(items.last(), "value"@), code_of(items[i]));
    }
}

/// Custom attributes become top-level fields: in the fields of a record whose
/// `custom_attributes` list flattens, each entry's code holds the entry's
/// value (the last entry where a code repeats), and no `custom_attributes`
/// key remains unless an entry carries that very code.
pub proof fn lemma_custom_attributes_flattened(raw: Json, i: int)
    requires
        flatten(raw) is Ok,
        member(raw, custom_key()) matches Some(Json::Array(items)) && 0 <= i < items.len()
            && forall|j: int| i < j < items.len() ==> code_of(#[trigger] items[j]) != code_of(items[i]),
    ensures
        ({
            let items = member(raw, custom_key())->Some_0->Array_0;
            lookup(flatten(raw)->Ok_0, code_of(items[i])) == Some(member_or_null(items[i], "value"@))
        }),
{
    let items = member(raw, custom_key())->Some_0->Array_0;
    lemma_merge_last_wins(copy_base(raw->Object_0), items, i);
}

/// No document field set keeps the key `custom_attributes`, unless a custom
/// attribute entry carries that very code.
pub proof fn lemma_no_custom_key(raw: Json)
    requires
        flatten(raw) is Ok,
        member(raw, custom_key()) matches Some(Json::Array(items)) ==> forall|j: int|
            0 <= j < items.len() ==> code_of(#[trigger] items[j]) != custom_key(),
    ensures
        lookup(flatten(raw)->Ok_0, custom_key()) is None,
{
    let e = raw->Object_0;
    lemma_copy_base_no_custom(e);
    if let Some(Json::Array(items)) = member(raw, custom_key()) {
        lemma_merge_keeps_absent(copy_base(e), items, custom_key());
    }
}

/// A configurable product always carries `configurable_children` once
/// enriched: the reduced child list where the fetch answered, an empty list
/// where it degraded. A product of any other type is left as it was.
pub proof fn lemma_configurable_children(d: DocView, children: ChildrenOutcome)
    requires
        d.value is Object,
    ensures
        is_configurable(d) ==> member(enriched(d, summaries(children)).value, "configurable_children"@)
            == Some(Json::Array(summaries(children))),
        is_configurable(d) && children is Degraded ==> member(enriched(d, summaries(children)).value,
            "configurable_children"@) == Some(Json::Array(Seq::empty())),
        !is_configurable(d) ==> enriched(d, summaries(children)) == d,
{
    crate::json::lemma_put_same(d.value->Object_0, "configurable_children"@, Json::Array(summaries(children)));
}

/// The sku of a product document, empty where it has none.
pub open spec fn sku_of(d: DocView) -> Seq<char> {
    match member(d.value, "sku"@) {
        Some(Json::Str(s)) => s,
        _ => Seq::empty(),
    }
}

/// The children endpoint of the product `sku` under the API root `api`.
pub open spec fn children_url_of(api: Seq<char>, sku: Seq<char>) -> Seq<char> {
    api + "/configurable-products/"@ + url_encoded(sku) + "/children"@
}

/// Turns raw product records into documents, and attaches the child
/// variants of configurable products.
pub struct ProductMapper {
    client: MagentoRestClient,
}

impl ProductMapper {
    pub fn new(client: &MagentoRestClient) -> (r: ProductMapper)
        ensures
            r.api_url() == client.api_url(),
    {
        ProductMapper { client: client.duplicate() }
    }

    /// The root of the API that child variants are fetched from.
    pub closed spec fn api_url(&self) -> Seq<char> {
        self.client.api_url()
    }

    /// Where the child variants of a configurable product are fetched from;
    /// `None` for any other product.
    pub fn children_url(&self, product: &Product) -> (r: Option<String>)
        ensures
            match r {
                Some(u) => is_configurable(product@) && member(product@.value, "sku"@) == Some(Json::Str(sku_of(product@)))
                    && u@ == children_url_of(self.api_url(), sku_of(product@)),
                None => !is_configurable(product@) || !(member(product@.value, "sku"@) matches Some(Json::Str(_))),
            },
    {
        match product.configurable_sku() {
            Some(sku) => Some(self.client.configurable_children_url(sku.as_str())),
            None => None,
        }
    }

    /// Attaches the reduced child list under `configurable_children` to a
    /// configurable product, an empty one where the fetch degraded; any other
    /// product comes back unchanged.
    pub fn enrich(&self, product: Product, children: ChildrenOutcome) -> (r: Product)
        ensures
            r@ == enriched(product@, summaries(children)),
    {
        let conf = match product.value.get_str("type_id") {
            Some(t) => text_is(&t, "configurable"),
            None => false,
        };
        if !conf {
            return product;
        }
        let kids: Vec<JsonValue> = match children {
            ChildrenOutcome::Fetched(v) => child_summaries(v),
            ChildrenOutcome::Degraded => Vec::new(),
        };
        let ghost kv = values_view(kids@);
        proof {
            lemma_array_view(kids);
            assert(JsonValue::Array(kids)@->Array_0 =~= kv);
            assert(kv =~= summaries(children));
        }
        let Product { id, value } = product;
        match value {
            JsonValue::Object(mut f) => {
                proof {
                    lemma_object_view(f);
                }
                put_entry(&mut f, String::from_str("configurable_children"), JsonValue::Array(kids));
                proof {
                    lemma_object_view(f);
                }
                Product { id, value: JsonValue::Object(f) }
            },
            other => Product { id, value: other },
        }
    }

    /// The documents of the records that transform, in input order; a
    /// record that does not is dropped.
    pub fn map(&self, products: Vec<JsonValue>) -> (r: Vec<Product>)
        ensures
            products_view(r@) == kept(values_view(products@), |raw: Json| product_of(raw)),
    {
        let ghost raws = values_view(products@);
        let ghost f = |raw: Json| product_of(raw);
        let mut rest = products;
        let mut out: Vec<Product> = Vec::new();
        let ghost mut i: int = 0;
        proof {
            assert(raws.subrange(0, 0) =~= Seq::<Json>::empty());
            assert(products_view(out@) =~= Seq::<DocView>::empty());
        }
        while rest.len() > 0
            invariant
                0 <= i <= raws.len(),
                raws.len() == i + rest.len(),
                forall|t: int| 0 <= t < rest.len() ==> (#[trigger] rest[t])@ == raws[i + t],
                products_view(out@) == kept(raws.subrange(0, i), f),
                f == (|raw: Json| product_of(raw)),
            decreases rest.len(),
        {
            let ghost rest_before = rest@;
            let raw = rest.remove(0);
            proof {
                assert(raw@ == raws[i]);
                assert forall|t: int| 0 <= t < rest.len() implies (#[trigger] rest[t])@ == raws[i + 1 + t] by {
                    assert(rest[t] == rest_before[t + 1]);
                }
                lemma_kept_step(raws, f, i);
            }
            let ghost before = products_view(out@);
            match Product::from_value(raw) {
                Ok(c) => {
                    out.push(c);
                    assert(products_view(out@) =~= before.push(c@));
                },
                Err(_) => {},
            }
            proof {
                i = i + 1;
            }
        }
        proof {
            assert(raws.subrange(0, i) =~= raws);
        }
        out
    }
}

} // verus!
