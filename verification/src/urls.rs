//! Absolute URLs, taken apart.

use vstd::prelude::*;

use crate::text::{has_suffix, lower, lower_ascii, same};

verus! {

/// The parts of an absolute URL that the server's rules look at.
pub struct ParsedUrl {
    /// The whole URL in its normal form.
    pub text: String,
    pub scheme: String,
    pub host: Option<String>,
    /// The port, or the one that the scheme stands for.
    pub port: Option<u16>,
    pub path: String,
    pub username: String,
    pub has_password: bool,
    pub has_fragment: bool,
    /// The decoded pairs of the query, in order.
    pub query: Vec<(String, String)>,
}

#[verifier::ext_equal]
pub struct UrlModel {
    pub text: Seq<char>,
    pub scheme: Seq<char>,
    pub host: Option<Seq<char>>,
    pub port: Option<u16>,
    pub path: Seq<char>,
    pub username: Seq<char>,
    pub has_password: bool,
    pub has_fragment: bool,
    pub query: Seq<(Seq<char>, Seq<char>)>,
}

pub open spec fn pair_views(pairs: Seq<(String, String)>) -> Seq<(Seq<char>, Seq<char>)> {
    pairs.map_values(|p: (String, String)| (p.0@, p.1@))
}

impl View for ParsedUrl {
    type V = UrlModel;

    open spec fn view(&self) -> UrlModel {
        UrlModel {
            text: self.text@,
            scheme: self.scheme@,
            host: crate::models::text_of(self.host),
            port: self.port,
            path: self.path@,
            username: self.username@,
            has_password: self.has_password,
            has_fragment: self.has_fragment,
            query: pair_views(self.query@),
        }
    }
}

/// What `reqwest::Url::parse` makes of a text: nothing where it is not an absolute URL.
pub uninterp spec fn url_of(text: Seq<char>) -> Option<UrlModel>;

pub open spec fn url_view(url: Option<ParsedUrl>) -> Option<UrlModel> {
    match url {
        Some(u) => Some(u@),
        None => None,
    }
}

/// Calls `reqwest::Url::parse` and reads the parts of its result. The contract claims only that
/// they depend on nothing but the text.
#[verifier::external_body]
pub(crate) fn parse_url(text: &str) -> (r: Option<ParsedUrl>)
    ensures
        url_view(r) == url_of(text@),
{
    match reqwest::Url::parse(text) {
        Ok(url) => Some(ParsedUrl {
            text: url.as_str().to_string(),
            scheme: url.scheme().to_string(),
            host: url.host_str().map(str::to_string),
            port: url.port_or_known_default(),
            path: url.path().to_string(),
            username: url.username().to_string(),
            has_password: url.password().is_some(),
            has_fragment: url.fragment().is_some(),
            query: url.query_pairs().into_owned().collect(),
        }),
        Err(_) => None,
    }
}

/// The value of the first pair with this key.
pub open spec fn first_value(query: Seq<(Seq<char>, Seq<char>)>, key: Seq<char>) -> Option<
    Seq<char>,
>
    decreases query.len(),
{
    if query.len() == 0 {
        None
    } else if query[0].0 == key {
        Some(query[0].1)
    } else {
        first_value(query.drop_first(), key)
    }
}

/// The value of the last pair with this key.
pub open spec fn last_value(query: Seq<(Seq<char>, Seq<char>)>, key: Seq<char>) -> Option<
    Seq<char>,
>
    decreases query.len(),
{
    if query.len() == 0 {
        None
    } else if query.last().0 == key {
        Some(query.last().1)
    } else {
        last_value(query.drop_last(), key)
    }
}

pub fn find_first<'a>(query: &'a Vec<(String, String)>, key: &str) -> (r: Option<&'a String>)
    ensures
        match r {
            Some(v) => first_value(pair_views(query@), key@) == Some(v@),
            None => first_value(pair_views(query@), key@) is None,
        },
{
    let ghost all = pair_views(query@);
    let mut i: usize = 0;
    assert(all.skip(0) =~= all);
    while i < query.len()
        invariant
            i <= query.len(),
            all == pair_views(query@),
            first_value(all, key@) == first_value(all.skip(i as int), key@),
        decreases query.len() - i,
    {
        assert(all.skip(i as int)[0] == all[i as int]);
        assert(all.skip(i as int).drop_first() =~= all.skip(i + 1));
        if same(query[i].0.as_str(), key) {
            return Some(&query[i].1);
        }
        i += 1;
    }
    None
}

pub fn find_last<'a>(query: &'a Vec<(String, String)>, key: &str) -> (r: Option<&'a String>)
    ensures
        match r {
            Some(v) => last_value(pair_views(query@), key@) == Some(v@),
            None => last_value(pair_views(query@), key@) is None,
        },
{
    let ghost all = pair_views(query@);
    let mut i: usize = query.len();
    assert(all.take(i as int) =~= all);
    while i > 0
        invariant
            i <= query.len(),
            all == pair_views(query@),
            last_value(all, key@) == last_value(all.take(i as int), key@),
        decreases i,
    {
        assert(all.take(i as int).last() == all[i - 1]);
        assert(all.take(i as int).drop_last() =~= all.take(i - 1));
        if same(query[i - 1].0.as_str(), key) {
            return Some(&query[i - 1].1);
        }
        i -= 1;
    }
    None
}

/// The host of a URL in lower case; empty where it has none.
pub open spec fn host_of(url: UrlModel) -> Seq<char> {
    match url.host {
        Some(host) => lower(host),
        None => Seq::empty(),
    }
}

pub fn lower_host(url: &ParsedUrl) -> (r: String)
    ensures
        r@ == host_of(url@),
{
    match &url.host {
        Some(host) => lower_ascii(host.as_str()),
        None => {
            let none = String::new();
            assert(none@ =~= Seq::<char>::empty());
            none
        },
    }
}

/// A host is `domain` itself or lies below it.
pub open spec fn within(host: Seq<char>, domain: Seq<char>, dotted: Seq<char>) -> bool {
    host == domain || dotted.is_suffix_of(host)
}

pub open spec fn is_googlevideo_host(host: Seq<char>) -> bool {
    within(host, "googlevideo.com"@, ".googlevideo.com"@)
}

pub fn googlevideo_host(host: &str) -> (r: bool)
    ensures
        r == is_googlevideo_host(host@),
{
    same(host, "googlevideo.com") || has_suffix(host, ".googlevideo.com")
}

/// Whether a parsed URL lies on the video host.
pub open spec fn on_googlevideo(url: Option<UrlModel>) -> bool {
    url matches Some(u) && u.host is Some && is_googlevideo_host(host_of(u))
}

pub fn is_on_googlevideo(url: &Option<ParsedUrl>) -> (r: bool)
    ensures
        r == on_googlevideo(url_view(*url)),
{
    match url {
        Some(u) => u.host.is_some() && googlevideo_host(lower_host(u).as_str()),
        None => false,
    }
}

/// Whether a text is a URL on the video host.
pub fn is_googlevideo_url(value: &str) -> (r: bool)
    ensures
        r == on_googlevideo(url_of(value@)),
{
    is_on_googlevideo(&parse_url(value))
}

} // verus!
