//! The crawl configuration: the upstream base URL, the concurrency
//! level, and the storage location. The loader outside the library reads
//! the file; normalization of the base URL is logic and lives here.

use vstd::prelude::*;
use crate::strutil::{chars_of_str, string_of_chars};

verus! {

/// The configuration a crawl runs under.
#[derive(Clone, Debug)]
pub struct Config {
    pub base_url: String,
    pub concurrency: usize,
    pub db: String,
}

/// The base URL with one trailing slash removed, if it carries one.
pub open spec fn spec_normalize_base_url(s: Seq<char>) -> Seq<char> {
    if s.len() > 0 && s.last() == '/' {
        s.drop_last()
    } else {
        s
    }
}

/// Strip one trailing slash from the base URL, so that paths can be
/// appended uniformly.
pub fn normalize_base_url(url: &str) -> (r: String)
    ensures
        r@ == spec_normalize_base_url(url@),
{
    let mut v = chars_of_str(url);
    if v.len() > 0 && v[v.len() - 1] == '/' {
        v.pop();
        assert(v@ =~= url@.drop_last());
    }
    string_of_chars(&v)
}

impl Config {
    /// This configuration with its base URL normalized.
    pub fn normalized(&self) -> (r: Config)
        ensures
            r.base_url@ == spec_normalize_base_url(self.base_url@),
            r.concurrency == self.concurrency,
            r.db@ == self.db@,
    {
        Config {
            base_url: normalize_base_url(self.base_url.as_str()),
            concurrency: self.concurrency,
            db: self.db.clone(),
        }
    }
}

} // verus!
