//! The addresses that the tool asks the API for, the cookies it sends, and
//! the collection of paginated answers.
use vstd::prelude::*;
use crate::models::Paginated;
use std::collections::BTreeMap;

verus! {

/// The address of the EPUB API for a book.
pub open spec fn epub_api_url_of(bookid: Seq<char>) -> Seq<char> {
    "https://learning.oreilly.com/api/v2/epubs/urn:orm:book:"@ + bookid + "/"@
}

/// The address from which the EPUB structural data of a book is fetched.
pub fn epub_api_url(bookid: &str) -> (r: String)
    ensures
        r@ == epub_api_url_of(bookid@),
{
    let mut url = String::from_str("https://learning.oreilly.com/api/v2/epubs/urn:orm:book:");
    url.append(bookid);
    url.append("/");
    url
}

/// The cookies that a cookies file holds: the key-value pairs of the flat JSON
/// object, as `serde_json::from_slice` reads them into a `BTreeMap` (so by
/// key, in order, the last value of a repeated key winning), or `None` where
/// the bytes are not such an object.
pub uninterp spec fn cookies_of(bytes: Seq<u8>) -> Option<Seq<(Seq<char>, Seq<char>)>>;

/// Parses a cookies file with `serde_json::from_slice` into a map from
/// strings to strings. Claimed: the pairs are a function of the bytes alone
/// (`cookies_of`), and `None` stands for a parse error.
#[verifier::external_body]
pub(crate) fn parse_cookies(bytes: &[u8]) -> (r: Option<Vec<(String, String)>>)
    ensures
        match r {
            Some(v) => cookies_of(bytes@) == Some(v@.map_values(|p: (String, String)| (p.0@, p.1@))),
            None => cookies_of(bytes@) is None,
        },
{
    match serde_json::from_slice::<BTreeMap<String, String>>(bytes) {
        Ok(map) => Some(map.into_iter().collect()),
        Err(_) => None,
    }
}

/// The cookies of a cookies file in the `key=value` form that the cookie jar
/// takes, one for each key-value pair of the file, or `None` where the file
/// is not a flat key-value JSON object.
pub fn cookie_strings(bytes: &[u8]) -> (r: Option<Vec<String>>)
    ensures
        match cookies_of(bytes@) {
            Some(kv) => r matches Some(v) && v@.len() == kv.len() && forall|i: int|
                0 <= i < kv.len() ==> #[trigger] v@[i]@ == kv[i].0 + "="@ + kv[i].1,
            None => r is None,
        },
{
    let pairs = match parse_cookies(bytes) {
        Some(p) => p,
        None => return None,
    };
    let ghost kv = pairs@.map_values(|p: (String, String)| (p.0@, p.1@));
    let mut cookies: Vec<String> = Vec::new();
    let n = pairs.len();
    let mut i: usize = 0;
    while i < n
        invariant
            n == pairs@.len(),
            kv == pairs@.map_values(|p: (String, String)| (p.0@, p.1@)),
            i <= n,
            cookies@.len() == i,
            forall|j: int| 0 <= j < i ==> #[trigger] cookies@[j]@ == kv[j].0 + "="@ + kv[j].1,
        decreases n - i,
    {
        let (key, value) = &pairs[i];
        cookies.push(cookie_pair(key.as_str(), value.as_str()));
        i += 1;
    }
    Some(cookies)
}

/// A cookie in the standard `key=value` form that `reqwest` expects.
pub fn cookie_pair(key: &str, value: &str) -> (r: String)
    ensures
        r@ == key@ + "="@ + value@,
{
    let mut cookie = String::from_str(key);
    cookie.append("=");
    cookie.append(value);
    cookie
}

/// The name of the EPUB file made for a book.
pub fn epub_file_name(bookid: &str) -> (r: String)
    ensures
        r@ == bookid@ + ".epub"@,
{
    let mut name = String::from_str(bookid);
    name.append(".epub");
    name
}

/// The first of the places where the cookies file is looked for, taken in
/// order, where a file exists.
pub fn first_existing(exists: &Vec<bool>) -> (r: Option<usize>)
    ensures
        match r {
            Some(i) => i < exists@.len() && exists@[i as int] && forall|j: int|
                0 <= j < i ==> !exists@[j],
            None => forall|j: int| 0 <= j < exists@.len() ==> !exists@[j],
        },
{
    let n = exists.len();
    let mut i: usize = 0;
    while i < n
        invariant
            n == exists@.len(),
            i <= n,
            forall|j: int| 0 <= j < i ==> !exists@[j],
        decreases n - i,
    {
        if exists[i] {
            return Some(i);
        }
        i += 1;
    }
    None
}

/// The items of a paginated API, collected page after page.
pub struct PageCollector<T> {
    pub items: Vec<T>,
}

impl<T> PageCollector<T> {
    /// Nothing collected yet.
    pub fn new() -> (r: Self)
        ensures
            r.items@ == Seq::<T>::empty(),
    {
        PageCollector { items: Vec::new() }
    }

    /// Takes in one page: its results are added after the items collected so
    /// far, and the address of the next page, if the page names one, is
    /// where to go on; without one, the collection is complete.
    pub fn absorb(&mut self, page: Paginated<T>) -> (r: Option<String>)
        ensures
            final(self).items@ == old(self).items@ + page.results@,
            r == page.next,
    {
        let Paginated { next, results } = page;
        let mut results = results;
        self.items.append(&mut results);
        next
    }
}

} // verus!
