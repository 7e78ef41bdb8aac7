use vstd::prelude::*;

verus! {

/// Where the search index lives, and the prefix of its index names.
pub struct ElasticsearchConfiguration {
    pub url: String,
    pub index: String,
}

/// Where the catalog API lives, and the credentials for it.
pub struct MagentoConfiguration {
    pub url: String,
    pub consumer_key: String,
    pub consumer_secret: String,
    pub access_token: String,
    pub access_token_secret: String,
}

/// The whole configuration of an import.
pub struct AppConfiguration {
    pub version: String,
    /// Cache connection parameters, as key/value pairs; not read by the import.
    pub redis: Vec<(String, String)>,
    pub elasticsearch: ElasticsearchConfiguration,
    pub magento: MagentoConfiguration,
}

impl ElasticsearchConfiguration {
    /// A copy of this configuration.
    pub fn duplicate(&self) -> (r: ElasticsearchConfiguration)
        ensures
            r.url@ == self.url@,
            r.index@ == self.index@,
    {
        ElasticsearchConfiguration { url: self.url.clone(), index: self.index.clone() }
    }
}

impl MagentoConfiguration {
    /// A copy of this configuration.
    pub fn duplicate(&self) -> (r: MagentoConfiguration)
        ensures
            r.url@ == self.url@,
            r.consumer_key@ == self.consumer_key@,
            r.consumer_secret@ == self.consumer_secret@,
            r.access_token@ == self.access_token@,
            r.access_token_secret@ == self.access_token_secret@,
    {
        MagentoConfiguration {
            url: self.url.clone(),
            consumer_key: self.consumer_key.clone(),
            consumer_secret: self.consumer_secret.clone(),
            access_token: self.access_token.clone(),
            access_token_secret: self.access_token_secret.clone(),
        }
    }
}

} // verus!
