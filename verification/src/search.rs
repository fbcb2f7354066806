use crate::numbers::{decimal_chars, spec_decimal_digits};
use crate::text::{chars_of, string_from_chars, trim, trim_chars};
use crate::urls::{url_with_query_of, with_query};
use vstd::prelude::*;

verus! {

/// The kinds of result a search can ask for.
#[derive(Debug, Clone, Copy, PartialEq, Eq, Structural)]
pub enum SearchType {
    Album,
    Artist,
    Playlist,
    Track,
    Show,
    Episode,
    Audiobook,
}

impl SearchType {
    pub open spec fn spec_as_str(self) -> Seq<char> {
        match self {
            SearchType::Album => "album"@,
            SearchType::Artist => "artist"@,
            SearchType::Playlist => "playlist"@,
            SearchType::Track => "track"@,
            SearchType::Show => "show"@,
            SearchType::Episode => "episode"@,
            SearchType::Audiobook => "audiobook"@,
        }
    }

    /// The name the Web API gives the kind.
    pub fn as_str(self) -> (r: &'static str)
        ensures
            r@ == self.spec_as_str(),
    {
        match self {
            SearchType::Album => "album",
            SearchType::Artist => "artist",
            SearchType::Playlist => "playlist",
            SearchType::Track => "track",
            SearchType::Show => "show",
            SearchType::Episode => "episode",
            SearchType::Audiobook => "audiobook",
        }
    }
}

#[derive(Debug, Clone)]
pub struct SearchOptions {
    pub types: Vec<SearchType>,
    pub limit: u32,
    pub offset: u32,
    pub market: Option<String>,
    pub include_external_audio: bool,
}

/// Why a search is refused before it is sent.
#[derive(Debug, Clone, Copy, PartialEq, Eq, Structural)]
pub enum SearchError {
    /// The query is blank.
    EmptyQuery,
    /// No kind of result is asked for.
    NoTypes,
    /// More than 10 results per kind are asked for.
    LimitTooLarge,
    /// The offset lies past 1000.
    OffsetTooLarge,
    /// The endpoint does not parse as a URL.
    InvalidEndpoint,
}

impl SearchError {
    /// What the error says.
    pub open spec fn spec_message(&self) -> Seq<char> {
        match self {
            SearchError::EmptyQuery => "search query cannot be empty"@,
            SearchError::NoTypes => "search must request at least one result type"@,
            SearchError::LimitTooLarge => "search limit cannot exceed 10"@,
            SearchError::OffsetTooLarge => "search offset cannot exceed 1000"@,
            SearchError::InvalidEndpoint => "invalid search endpoint"@,
        }
    }

    /// The error as text.
    pub fn message(&self) -> (r: String)
        ensures
            r@ == self.spec_message(),
    {
        match self {
            SearchError::EmptyQuery => String::from_str("search query cannot be empty"),
            SearchError::NoTypes => String::from_str("search must request at least one result type"),
            SearchError::LimitTooLarge => String::from_str("search limit cannot exceed 10"),
            SearchError::OffsetTooLarge => String::from_str("search offset cannot exceed 1000"),
            SearchError::InvalidEndpoint => String::from_str("invalid search endpoint"),
        }
    }
}

/// The kinds, by name, separated by commas.
pub open spec fn joined_types(types: Seq<SearchType>) -> Seq<char>
    decreases types.len(),
{
    if types.len() == 0 {
        seq![]
    } else if types.len() == 1 {
        types[0].spec_as_str()
    } else {
        joined_types(types.drop_last()) + seq![','] + types.last().spec_as_str()
    }
}

pub open spec fn search_refusal(query: Seq<char>, options: SearchOptions) -> Option<SearchError> {
    if trim(query).len() == 0 {
        Some(SearchError::EmptyQuery)
    } else if options.types@.len() == 0 {
        Some(SearchError::NoTypes)
    } else if options.limit > 10 {
        Some(SearchError::LimitTooLarge)
    } else if options.offset > 1000 {
        Some(SearchError::OffsetTooLarge)
    } else {
        None
    }
}

/// The query parameters of a search as names and values.
pub open spec fn search_params(query: Seq<char>, options: SearchOptions) -> Seq<(Seq<char>, Seq<char>)> {
    let base = seq![
        ("q"@, trim(query)),
        ("type"@, joined_types(options.types@)),
        ("limit"@, spec_decimal_digits(options.limit as nat)),
        ("offset"@, spec_decimal_digits(options.offset as nat)),
    ];
    let with_market = match options.market {
        Some(m) => base.push(("market"@, m@)),
        None => base,
    };
    if options.include_external_audio {
        with_market.push(("include_external"@, "audio"@))
    } else {
        with_market
    }
}

pub open spec fn pairs_view(v: Seq<(String, String)>) -> Seq<(Seq<char>, Seq<char>)> {
    v.map_values(|p: (String, String)| (p.0@, p.1@))
}

fn join_types(types: &Vec<SearchType>) -> (r: String)
    ensures
        r@ == joined_types(types@),
{
    let mut out = String::new();
    let n = types.len();
    for i in 0..n
        invariant
            n == types@.len(),
            out@ == joined_types(types@.take(i as int)),
    {
        proof {
            assert(types@.take(i + 1).drop_last() =~= types@.take(i as int));
        }
        if i > 0 {
            out.append(",");
            proof {
                reveal_strlit(",");
            }
        }
        out.append(types[i].as_str());
        proof {
            if i == 0 {
                assert(out@ =~= joined_types(types@.take(1)));
            } else {
                assert(out@ =~= joined_types(types@.take(i + 1)));
            }
        }
    }
    assert(types@.take(n as int) =~= types@);
    out
}

fn decimal_string(n: u32) -> (r: String)
    ensures
        r@ == spec_decimal_digits(n as nat),
{
    let chars = decimal_chars(n as u64);
    string_from_chars(chars.as_slice())
}

/// The parameters of a search for `query` (blank ends trimmed), or why the Web API
/// would refuse it: a blank query, no kind of result, a limit over 10 or an offset
/// over 1000, checked in that order.
pub fn search_request(query: &str, options: &SearchOptions) -> (r: Result<Vec<(String, String)>, SearchError>)
    ensures
        match search_refusal(query@, *options) {
            Some(e) => r == Err::<Vec<(String, String)>, SearchError>(e),
            None => r is Ok && pairs_view(r->Ok_0@) == search_params(query@, *options),
        },
{
    let all = chars_of(query);
    let trimmed = trim_chars(all.as_slice());
    if trimmed.len() == 0 {
        return Err(SearchError::EmptyQuery);
    }
    if options.types.len() == 0 {
        return Err(SearchError::NoTypes);
    }
    if options.limit > 10 {
        return Err(SearchError::LimitTooLarge);
    }
    if options.offset > 1000 {
        return Err(SearchError::OffsetTooLarge);
    }
    let mut params: Vec<(String, String)> = Vec::new();
    params.push((String::from_str("q"), string_from_chars(trimmed.as_slice())));
    params.push((String::from_str("type"), join_types(&options.types)));
    params.push((String::from_str("limit"), decimal_string(options.limit)));
    params.push((String::from_str("offset"), decimal_string(options.offset)));
    match &options.market {
        Some(m) => params.push((String::from_str("market"), m.clone())),
        None => {},
    }
    if options.include_external_audio {
        params.push((String::from_str("include_external"), String::from_str("audio")));
    }
    assert(pairs_view(params@) =~= search_params(query@, *options));
    Ok(params)
}

/// An image of a search result.
#[derive(Debug, Clone)]
pub struct SearchImage {
    pub url: String,
    pub width: Option<u32>,
    pub height: Option<u32>,
}

pub open spec fn area(image: SearchImage) -> nat {
    (image.width.unwrap_or(0) as nat) * (image.height.unwrap_or(0) as nat)
}

/// Index `k` holds the image with the largest area; the last of equal ones.
pub open spec fn largest_area(images: Seq<SearchImage>, k: int) -> bool {
    0 <= k < images.len() && (forall|j: int|
        0 <= j < images.len() ==> area(#[trigger] images[j]) <= area(images[k])) && (forall|j: int|
        k < j < images.len() ==> area(#[trigger] images[j]) < area(images[k]))
}

pub open spec fn spec_largest_image(images: Seq<SearchImage>, r: Option<String>) -> bool {
    &&& images.len() == 0 <==> r is None
    &&& r is Some ==> exists|k: int| largest_area(images, k) && r->0 == images[k].url
}

fn area_of(image: &SearchImage) -> (r: u64)
    ensures
        r == area(*image),
{
    let w: u64 = match image.width {
        Some(w) => w as u64,
        None => 0,
    };
    let h: u64 = match image.height {
        Some(h) => h as u64,
        None => 0,
    };
    assert(w * h <= 0xffff_ffff * 0xffff_ffff) by (nonlinear_arith)
        requires
            w <= 0xffff_ffff,
            h <= 0xffff_ffff,
    ;
    w * h
}

/// The url of the image with the largest area (unknown sides counting as 0), the
/// last of equal ones; `None` without images.
pub fn largest_image(images: Vec<SearchImage>) -> (r: Option<String>)
    ensures
        spec_largest_image(images@, r),
{
    let n = images.len();
    if n == 0 {
        return None;
    }
    let mut best: usize = 0;
    let mut best_area = area_of(&images[0]);
    for i in 1..n
        invariant
            n == images@.len(),
            best < i,
            best_area == area(images@[best as int]),
            forall|j: int| 0 <= j < i ==> area(#[trigger] images@[j]) <= area(images@[best as int]),
            forall|j: int| best < j < i ==> area(#[trigger] images@[j]) < area(images@[best as int]),
    {
        let a = area_of(&images[i]);
        if a >= best_area {
            best = i;
            best_area = a;
        }
    }
    assert(largest_area(images@, best as int));
    Some(images[best].url.clone())
}


/// The Web API's search endpoint.
pub const SEARCH_ENDPOINT: &'static str = "https://api.spotify.com/v1/search";

/// The URL of a search: the endpoint with the search's query; the refusals of
/// `search_request` come first.
pub fn search_url(query: &str, options: &SearchOptions) -> (r: Result<String, SearchError>)
    ensures
        match search_refusal(query@, *options) {
            Some(e) => r == Err::<String, SearchError>(e),
            None => match url_with_query_of(SEARCH_ENDPOINT@, search_params(query@, *options)) {
                Some(u) => r is Ok && r->Ok_0@ == u,
                None => r == Err::<String, SearchError>(SearchError::InvalidEndpoint),
            },
        },
{
    let params = match search_request(query, options) {
        Ok(p) => p,
        Err(e) => return Err(e),
    };
    match with_query(SEARCH_ENDPOINT, &params) {
        Ok(u) => Ok(u),
        Err(_) => Err(SearchError::InvalidEndpoint),
    }
}

} // verus!
