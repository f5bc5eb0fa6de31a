//! From a GeoIP lookup to a routing decision: the country a client is routed for, and
//! the static redirect table with the greeting built from it.

use crate::registry::DEFAULT_COUNTRY;
use vstd::prelude::*;
use vstd::string::StringExecFns;

verus! {

/// What a lookup of a client's address in the GeoIP database came to.
#[derive(Clone, Debug)]
pub enum GeoLookup {
    /// The database could not be read for this address.
    Failed,
    /// The database has no record for the address.
    NotFound,
    /// The record names no country.
    NoCountry,
    /// The record names a country, with its ISO code if it has one.
    Country { iso_code: Option<String> },
}

impl GeoLookup {
    /// The ISO code that the lookup found, if it found one.
    pub open spec fn iso_code(self) -> Option<Seq<char>> {
        match self {
            GeoLookup::Country { iso_code: Some(code) } => Some(code@),
            _ => None,
        }
    }
}

/// The country a client is routed for: the ISO code where the lookup found one that is
/// not empty, the default country in every other case.
pub open spec fn country_of(lookup: GeoLookup) -> Seq<char> {
    match lookup.iso_code() {
        Some(code) => if code.len() > 0 {
            code
        } else {
            DEFAULT_COUNTRY@
        },
        None => DEFAULT_COUNTRY@,
    }
}

/// The country a client is routed for. A lookup that failed, found nothing or found a
/// record without a usable code routes the client for the default country.
pub fn country_for(lookup: GeoLookup) -> (country: String)
    ensures
        country@ == country_of(lookup),
{
    match lookup {
        GeoLookup::Country { iso_code: Some(code) } => {
            if code.as_str().is_empty() {
                DEFAULT_COUNTRY.to_owned()
            } else {
                code
            }
        },
        _ => DEFAULT_COUNTRY.to_owned(),
    }
}

/// The country whose clients are redirected.
pub const REDIRECTED_COUNTRY: &'static str = "IR";

/// The server that clients of the redirected country are sent to.
pub const REDIRECT_SERVER: &'static str = "8.8.8.8";

/// The routes that a list of (country, server) pairs stands for: each country goes to
/// the server of the last pair that names it.
pub open spec fn routes_of(pairs: Seq<(String, String)>) -> Map<Seq<char>, Seq<char>>
    decreases pairs.len(),
{
    if pairs.len() == 0 {
        Map::empty()
    } else {
        routes_of(pairs.drop_last()).insert(pairs.last().0@, pairs.last().1@)
    }
}

/// A country with a pair at `at` and no pair after it is routed to that pair's server.
proof fn lemma_route_found(pairs: Seq<(String, String)>, country: Seq<char>, at: int)
    requires
        0 <= at < pairs.len(),
        pairs[at].0@ == country,
        forall|k: int| at < k < pairs.len() ==> pairs[k].0@ != country,
    ensures
        routes_of(pairs).contains_key(country),
        routes_of(pairs)[country] == pairs[at].1@,
    decreases pairs.len(),
{
    if at < pairs.len() - 1 {
        lemma_route_found(pairs.drop_last(), country, at);
    }
}

/// A country that no pair names has no route.
proof fn lemma_route_missing(pairs: Seq<(String, String)>, country: Seq<char>)
    requires
        forall|k: int| 0 <= k < pairs.len() ==> pairs[k].0@ != country,
    ensures
        !routes_of(pairs).contains_key(country),
    decreases pairs.len(),
{
    if pairs.len() > 0 {
        lemma_route_missing(pairs.drop_last(), country);
    }
}

/// The static table from country code to the server its clients are redirected to.
#[derive(Clone, Debug)]
pub struct GeoRouting {
    geo_data: Vec<(String, String)>,
}

impl GeoRouting {
    /// The routes of the table.
    pub closed spec fn routes(&self) -> Map<Seq<char>, Seq<char>> {
        routes_of(self.geo_data@)
    }

    /// The table with its one built-in route.
    pub fn new() -> (routing: GeoRouting)
        ensures
            routing.routes() == Map::<Seq<char>, Seq<char>>::empty().insert(
                REDIRECTED_COUNTRY@,
                REDIRECT_SERVER@,
            ),
    {
        let mut geo_data: Vec<(String, String)> = Vec::new();
        geo_data.push((REDIRECTED_COUNTRY.to_owned(), REDIRECT_SERVER.to_owned()));
        proof {
            assert(geo_data@.drop_last() =~= Seq::<(String, String)>::empty());
            reveal_with_fuel(routes_of, 2);
        }
        GeoRouting { geo_data }
    }

    /// The server that clients of `country` are redirected to, if the table has one.
    pub fn route_request(&self, country: &str) -> (server: Option<String>)
        ensures
            server matches Some(name) ==> self.routes().contains_key(country@)
                && self.routes()[country@] == name@,
            server is None <==> !self.routes().contains_key(country@),
    {
        let wanted: String = country.to_owned();
        let mut i: usize = self.geo_data.len();
        while i > 0
            invariant
                i <= self.geo_data@.len(),
                wanted@ == country@,
                forall|k: int| i <= k < self.geo_data@.len() ==> self.geo_data@[k].0@ != country@,
            decreases i,
        {
            i = i - 1;
            if self.geo_data[i].0 == wanted {
                proof {
                    lemma_route_found(self.geo_data@, country@, i as int);
                }
                return Some(self.geo_data[i].1.clone());
            }
        }
        proof {
            lemma_route_missing(self.geo_data@, country@);
        }
        None
    }
}

/// What a client that connects is told.
#[derive(Debug)]
pub enum Greeting {
    /// The client's address could not be had.
    NoAddress,
    /// The client's country could not be determined.
    NoCountry,
    /// The client is sent on to another server.
    Redirect { server: String },
    /// The client stays with the default server.
    Welcome,
}

impl Greeting {
    /// The line sent to the client.
    pub open spec fn line(self) -> Seq<char> {
        match self {
            Greeting::NoAddress => "Failed to get IP"@,
            Greeting::NoCountry => "Could not determine country"@,
            Greeting::Redirect { server } => "Redirecting to: "@ + server@,
            Greeting::Welcome => "Welcome! You're connected to the default server."@,
        }
    }

    /// The line sent to the client.
    pub fn text(&self) -> (line: String)
        ensures
            line@ == self.line(),
    {
        match self {
            Greeting::NoAddress => "Failed to get IP".to_owned(),
            Greeting::NoCountry => "Could not determine country".to_owned(),
            Greeting::Redirect { server } => "Redirecting to: ".to_owned().concat(server.as_str()),
            Greeting::Welcome => "Welcome! You're connected to the default server.".to_owned(),
        }
    }
}

/// Decides what to tell a client. `lookup` is what looking its address up came to, or
/// nothing where the address itself could not be had.
pub fn greet(routing: &GeoRouting, lookup: Option<GeoLookup>) -> (greeting: Greeting)
    ensures
        lookup is None ==> greeting is NoAddress,
        lookup matches Some(found) ==> match found.iso_code() {
            Some(code) => if code == REDIRECTED_COUNTRY@ && routing.routes().contains_key(code) {
                greeting matches Greeting::Redirect { server } && server@ == routing.routes()[code]
            } else {
                greeting is Welcome
            },
            None => greeting is NoCountry,
        },
{
    match lookup {
        None => Greeting::NoAddress,
        Some(GeoLookup::Country { iso_code: Some(code) }) => {
            if code == REDIRECTED_COUNTRY.to_owned() {
                match routing.route_request(code.as_str()) {
                    Some(server) => Greeting::Redirect { server },
                    None => Greeting::Welcome,
                }
            } else {
                Greeting::Welcome
            }
        },
        Some(_) => Greeting::NoCountry,
    }
}

} // verus!
