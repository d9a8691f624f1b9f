//! Where the daily series and the symbol search are requested from.
use vstd::prelude::*;

verus! {

/// The provider's query endpoint.
pub open spec fn provider_url() -> Seq<char> {
    "https://www.alphavantage.co/query?"@
}

/// The query for a symbol's full daily history.
pub open spec fn daily_series_query(base: Seq<char>, symbol: Seq<char>, key: Seq<char>) -> Seq<char> {
    base + "function=TIME_SERIES_DAILY&symbol="@ + symbol + "&outputsize=full&apikey="@ + key
}

/// The query for symbols that match some keywords.
pub open spec fn symbol_search_query(base: Seq<char>, keywords: Seq<char>, key: Seq<char>) -> Seq<char> {
    base + "function=SYMBOL_SEARCH&keywords="@ + keywords + "&apikey="@ + key
}

/// The provider's address and the key that requests carry.
pub struct DataFetcher {
    pub base_url: String,
    pub api_key: String,
}

/// A fetcher for the provider's public endpoint, with the given key.
pub fn new(api_key: String) -> (r: DataFetcher)
    ensures
        r.base_url@ == provider_url(),
        r.api_key@ == api_key@,
{
    DataFetcher { base_url: String::from_str("https://www.alphavantage.co/query?"), api_key }
}

impl DataFetcher {
    /// The request for `symbol`'s full daily history.
    pub fn daily_series_url(&self, symbol: &str) -> (r: String)
        ensures
            r@ == daily_series_query(self.base_url@, symbol@, self.api_key@),
    {
        let mut url = self.base_url.clone();
        url.append("function=TIME_SERIES_DAILY&symbol=");
        url.append(symbol);
        url.append("&outputsize=full&apikey=");
        url.append(self.api_key.as_str());
        url
    }

    /// The request for the symbols that match `keywords`.
    pub fn symbol_search_url(&self, keywords: &str) -> (r: String)
        ensures
            r@ == symbol_search_query(self.base_url@, keywords@, self.api_key@),
    {
        let mut url = self.base_url.clone();
        url.append("function=SYMBOL_SEARCH&keywords=");
        url.append(keywords);
        url.append("&apikey=");
        url.append(self.api_key.as_str());
        url
    }
}

} // verus!
