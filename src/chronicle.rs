//! Endpoint selection and request framing for the unstructured-log ingestion API.
use vstd::prelude::*;
use vstd::string::*;
use crate::batcher::BatchConfig;
use crate::outside::{uri_parses, parse_uri_ok};
use crate::template::Template;

verus! {

/// Regions with a dedicated ingestion endpoint.
#[derive(Debug, Clone, Copy, PartialEq, Eq, Structural)]
pub enum Region {
    Eu,
    Us,
    Asia,
}

pub open spec fn region_endpoint(r: Region) -> Seq<char> {
    match r {
        Region::Eu => "https://europe-malachiteingestion-pa.googleapis.com"@,
        Region::Us => "https://malachiteingestion-pa.googleapis.com"@,
        Region::Asia => "https://asia-southeast1-malachiteingestion-pa.googleapis.com"@,
    }
}

impl Region {
    /// Each region has its own endpoint.
    pub fn endpoint(self) -> (r: &'static str)
        ensures
            r@ == region_endpoint(self),
    {
        match self {
            Region::Eu => "https://europe-malachiteingestion-pa.googleapis.com",
            Region::Us => "https://malachiteingestion-pa.googleapis.com",
            Region::Asia => "https://asia-southeast1-malachiteingestion-pa.googleapis.com",
        }
    }
}

/// Configuration errors in endpoint selection.
#[derive(Debug, Clone, Copy, PartialEq, Eq, Structural)]
pub enum ChronicleError {
    RegionOrEndpoint,
    BothRegionAndEndpoint,
}

pub open spec fn chronicle_error_message(e: ChronicleError) -> Seq<char> {
    match e {
        ChronicleError::RegionOrEndpoint => "Region or endpoint not defined"@,
        ChronicleError::BothRegionAndEndpoint => "You can only specify one of region or endpoint"@,
    }
}

impl ChronicleError {
    /// The human-readable description of the error.
    pub fn message(&self) -> (r: String)
        ensures
            r@ == chronicle_error_message(*self),
    {
        match self {
            ChronicleError::RegionOrEndpoint => String::from_str("Region or endpoint not defined"),
            ChronicleError::BothRegionAndEndpoint => String::from_str(
                "You can only specify one of region or endpoint",
            ),
        }
    }
}

/// `s` with every trailing `'/'` removed.
pub open spec fn trim_trailing_slashes(s: Seq<char>) -> Seq<char>
    decreases s.len(),
{
    if s.len() > 0 && s.last() == '/' {
        trim_trailing_slashes(s.drop_last())
    } else {
        s
    }
}

/// The base URL chosen by an endpoint / region pair, if exactly one is given.
pub open spec fn base_url(endpoint: Option<Seq<char>>, region: Option<Region>) -> Result<Seq<char>, ChronicleError> {
    match (endpoint, region) {
        (Some(e), None) => Ok(trim_trailing_slashes(e)),
        (None, Some(r)) => Ok(region_endpoint(r)),
        (Some(_), Some(_)) => Err(ChronicleError::BothRegionAndEndpoint),
        (None, None) => Err(ChronicleError::RegionOrEndpoint),
    }
}

pub open spec fn endpoint_url(endpoint: Option<Seq<char>>, region: Option<Region>, path: Seq<char>) -> Result<Seq<char>, ChronicleError> {
    match base_url(endpoint, region) {
        Ok(b) => Ok(b + "/"@ + path),
        Err(e) => Err(e),
    }
}

pub open spec fn opt_view(s: Option<String>) -> Option<Seq<char>> {
    match s {
        Some(x) => Some(x@),
        None => None,
    }
}

/// Removes the trailing `'/'` characters of `s`.
pub fn trim_end_slashes(s: &str) -> (r: String)
    ensures
        r@ == trim_trailing_slashes(s@),
{
    let n = s.unicode_len();
    let mut end: usize = n;
    assert(s@.subrange(0, n as int) =~= s@);
    while end > 0 && s.get_char(end - 1) == '/'
        invariant
            end <= n,
            n == s@.len(),
            trim_trailing_slashes(s@.subrange(0, end as int)) == trim_trailing_slashes(s@),
        decreases end,
    {
        assert(s@.subrange(0, end as int).drop_last() =~= s@.subrange(0, end - 1));
        end = end - 1;
    }
    proof {
        if end > 0 {
            assert(s@.subrange(0, end as int).last() == s@[end - 1]);
        }
    }
    String::from_str(s.substring_char(0, end))
}

/// Joins the selected base URL and `path` with one `'/'`.
fn select_endpoint(endpoint: &Option<String>, region: Option<Region>, path: &str) -> (r: Result<String, ChronicleError>)
    ensures
        match (r, endpoint_url(opt_view(*endpoint), region, path@)) {
            (Ok(u), Ok(v)) => u@ == v,
            (Err(e), Err(f)) => e == f,
            _ => false,
        },
{
    let base = match (endpoint, region) {
        (Some(e), None) => trim_end_slashes(e.as_str()),
        (None, Some(r)) => String::from_str(r.endpoint()),
        (Some(_), Some(_)) => return Err(ChronicleError::BothRegionAndEndpoint),
        (None, None) => return Err(ChronicleError::RegionOrEndpoint),
    };
    let url = base.concat("/").concat(path);
    Ok(url)
}

/// Path of the batch ingestion call, below the base URL.
pub const INGEST_PATH: &'static str = "v2/unstructuredlogentries:batchCreate";

/// Path of the log-type listing, used as the health check.
pub const HEALTHCHECK_PATH: &'static str = "v2/logtypes";

/// Requests per second when the configuration names no rate limit.
pub const DEFAULT_RATE_LIMIT_NUM: u64 = 1000;

/// Settings of the unstructured-log sink.
#[derive(Debug)]
pub struct ChronicleUnstructuredConfig {
    pub endpoint: Option<String>,
    pub region: Option<Region>,
    pub customer_id: String,
    pub log_type: Template,
    pub batch: BatchConfig,
    pub rate_limit_num: Option<u64>,
}

impl ChronicleUnstructuredConfig {
    /// The URL of `path` below the configured endpoint or region; exactly one
    /// of the two must be set.
    pub fn create_endpoint(&self, path: &str) -> (r: Result<String, ChronicleError>)
        ensures
            match (r, endpoint_url(opt_view(self.endpoint), self.region, path@)) {
                (Ok(u), Ok(v)) => u@ == v,
                (Err(e), Err(f)) => e == f,
                _ => false,
            },
    {
        select_endpoint(&self.endpoint, self.region, path)
    }

    /// The ingestion URL and the health-check URL, or the configuration error
    /// that stops the sink from being built.
    pub fn build_endpoints(&self) -> (r: Result<(String, String), ChronicleError>)
        ensures
            match (r, base_url(opt_view(self.endpoint), self.region)) {
                (Ok((u, h)), Ok(b)) => u@ == b + "/"@ + INGEST_PATH@ && h@ == b + "/"@ + HEALTHCHECK_PATH@,
                (Err(e), Err(f)) => e == f,
                _ => false,
            },
    {
        let ingest = self.create_endpoint(INGEST_PATH)?;
        let health = self.create_endpoint(HEALTHCHECK_PATH)?;
        Ok((ingest, health))
    }

    /// The request rate limit: the configured one, else the default.
    pub fn rate_limit(&self) -> (r: u64)
        ensures
            r == match self.rate_limit_num {
                Some(n) => n,
                None => DEFAULT_RATE_LIMIT_NUM,
            },
    {
        match self.rate_limit_num {
            Some(n) => n,
            None => DEFAULT_RATE_LIMIT_NUM,
        }
    }
}

pub open spec fn digit_char(d: nat) -> char {
    if d == 0 { '0' } else if d == 1 { '1' } else if d == 2 { '2' } else if d == 3 { '3' } else if d == 4 { '4' }
    else if d == 5 { '5' } else if d == 6 { '6' } else if d == 7 { '7' } else if d == 8 { '8' } else { '9' }
}

/// The decimal digits of `n`, most significant first.
pub open spec fn decimal(n: nat) -> Seq<char>
    decreases n,
{
    if n < 10 {
        seq![digit_char(n)]
    } else {
        decimal(n / 10).push(digit_char(n % 10))
    }
}

fn digit_str(d: u64) -> (r: &'static str)
    requires
        d < 10,
    ensures
        r@ == seq![digit_char(d as nat)],
{
    proof {
        reveal_strlit("0");
        reveal_strlit("1");
        reveal_strlit("2");
        reveal_strlit("3");
        reveal_strlit("4");
        reveal_strlit("5");
        reveal_strlit("6");
        reveal_strlit("7");
        reveal_strlit("8");
        reveal_strlit("9");
    }
    let r = if d == 0 { "0" } else if d == 1 { "1" } else if d == 2 { "2" } else if d == 3 { "3" } else if d == 4 { "4" }
    else if d == 5 { "5" } else if d == 6 { "6" } else if d == 7 { "7" } else if d == 8 { "8" } else { "9" };
    assert(r@ =~= seq![digit_char(d as nat)]);
    r
}

/// The decimal text of `n`.
pub fn decimal_string(n: u64) -> (r: String)
    ensures
        r@ == decimal(n as nat),
    decreases n,
{
    if n < 10 {
        String::from_str(digit_str(n))
    } else {
        let mut s = decimal_string(n / 10);
        s.append(digit_str(n % 10));
        s
    }
}

/// The ingestion client's fixed part: where requests go.
#[derive(Debug)]
pub struct ChronicleService {
    pub base_url: String,
}

impl ChronicleService {
    pub fn new(base_url: String) -> (r: ChronicleService)
        ensures
            r.base_url@ == base_url@,
    {
        ChronicleService { base_url }
    }

    /// The headers of a POST of `body`: JSON content type and its byte length.
    pub fn request_headers(&self, body: &String) -> (r: Vec<(String, String)>)
        ensures
            r@.len() == 2,
            r@[0].0@ == "content-type"@,
            r@[0].1@ == "application/json"@,
            r@[1].0@ == "content-length"@,
            r@[1].1@ == decimal(vstd::utf8::encode_utf8(body@).len() as usize as nat),
    {
        let len = body.as_str().len();
        let mut r: Vec<(String, String)> = Vec::new();
        r.push((String::from_str("content-type"), String::from_str("application/json")));
        r.push((String::from_str("content-length"), decimal_string(len as u64)));
        r
    }
}

/// Errors of the sink's health check and of its key template.
#[derive(Debug, Clone, Copy, PartialEq, Eq, Structural)]
pub enum GcsHealthcheckError {
    LogTypeTemplate,
    NotFound,
    InvalidUri,
    InvalidCredentials,
    UnexpectedStatus { status: u16 },
}

/// A health check ready to run: a GET of `uri`.
#[derive(Debug)]
pub struct Healthcheck {
    pub uri: String,
}

/// Prepares the health check of `base_url`, which must parse as a URI.
pub fn build_healthcheck(base_url: &str) -> (r: Result<Healthcheck, GcsHealthcheckError>)
    ensures
        uri_parses(base_url@) ==> (r matches Ok(h) && h.uri@ == base_url@),
        !uri_parses(base_url@) ==> r == Err::<Healthcheck, GcsHealthcheckError>(GcsHealthcheckError::InvalidUri),
{
    if parse_uri_ok(base_url) {
        Ok(Healthcheck { uri: String::from_str(base_url) })
    } else {
        Err(GcsHealthcheckError::InvalidUri)
    }
}

pub open spec fn healthcheck_spec(status: u16) -> Result<(), GcsHealthcheckError> {
    if 200 <= status <= 299 {
        Ok(())
    } else if status == 401 || status == 403 {
        Err(GcsHealthcheckError::InvalidCredentials)
    } else if status == 404 {
        Err(GcsHealthcheckError::NotFound)
    } else {
        Err(GcsHealthcheckError::UnexpectedStatus { status })
    }
}

/// Judges the health check's response status.
pub fn healthcheck_response(status: u16) -> (r: Result<(), GcsHealthcheckError>)
    ensures
        r == healthcheck_spec(status),
{
    if 200 <= status && status <= 299 {
        Ok(())
    } else if status == 401 || status == 403 {
        Err(GcsHealthcheckError::InvalidCredentials)
    } else if status == 404 {
        Err(GcsHealthcheckError::NotFound)
    } else {
        Err(GcsHealthcheckError::UnexpectedStatus { status })
    }
}

/// A configuration that names both a literal endpoint and a region is
/// refused before anything is built, whatever the path; so is one that names
/// neither.
pub proof fn lemma_endpoint_choice_exclusive(e: Seq<char>, r: Region, path: Seq<char>)
    ensures
        base_url(Some(e), Some(r)) == Err::<Seq<char>, ChronicleError>(ChronicleError::BothRegionAndEndpoint),
        endpoint_url(Some(e), Some(r), path) == Err::<Seq<char>, ChronicleError>(ChronicleError::BothRegionAndEndpoint),
        endpoint_url(None, None, path) == Err::<Seq<char>, ChronicleError>(ChronicleError::RegionOrEndpoint),
{
}

} // verus!
