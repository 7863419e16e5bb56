//! The rules of the simulation service: request defaults, the chains it
//! serves, its error replies and which components start.
use vstd::prelude::*;
use vstd::string::*;

verus! {

/// The pool a V2 simulation request names when it names none.
pub fn default_pool_id() -> (r: String)
    ensures
        r@ == "sample"@,
{
    String::from_str("sample")
}

/// The amount of a V2 simulation request that gives none: one token of 18
/// decimals.
pub fn default_v2_amount() -> (r: u128)
    ensures
        r == 1_000_000_000_000_000_000u128,
{
    1_000_000_000_000_000_000u128
}

/// The amount of a V3 simulation request that gives none.
pub fn default_v3_amount() -> (r: u128)
    ensures
        r == 1_000_000_000_000_000u128,
{
    1_000_000_000_000_000u128
}

/// A character with ASCII upper case letters taken to lower case.
pub open spec fn ascii_lower(c: char) -> char {
    if 'A' <= c <= 'Z' {
        ((c as u32) + 32) as char
    } else {
        c
    }
}

/// Whether a text names the chain `bsc`, in any ASCII case.
pub open spec fn names_bsc(chain: Seq<char>) -> bool {
    chain.len() == 3 && ascii_lower(chain[0]) == 'b' && ascii_lower(chain[1]) == 's'
        && ascii_lower(chain[2]) == 'c'
}

fn lower_char(c: char) -> (r: char)
    ensures
        r == ascii_lower(c),
{
    if 'A' <= c && c <= 'Z' {
        let b = c as u8;
        (b + 32) as char
    } else {
        c
    }
}

/// An error reply of the service: its HTTP status and message.
#[derive(Debug)]
pub struct HttpError {
    pub status: u16,
    pub message: String,
}

impl HttpError {
    /// A refused request (400).
    pub fn bad_request(message: String) -> (r: HttpError)
        ensures
            r.status == 400,
            r.message@ == message@,
    {
        HttpError { status: 400, message }
    }

    /// A failure while serving the request (500).
    pub fn internal(message: String) -> (r: HttpError)
        ensures
            r.status == 500,
            r.message@ == message@,
    {
        HttpError { status: 500, message }
    }
}

/// Only BSC is served; other chains are refused with a bad request.
pub fn ensure_chain_supported(chain: &str) -> (r: Result<(), HttpError>)
    ensures
        names_bsc(chain@) ==> r is Ok,
        !names_bsc(chain@) ==> (r matches Err(e) && e.status == 400 && e.message@ == "暂不支持链: "@
            + chain@),
{
    let n = chain.unicode_len();
    let ok = n == 3 && lower_char(chain.get_char(0)) == 'b' && lower_char(chain.get_char(1)) == 's'
        && lower_char(chain.get_char(2)) == 'c';
    if ok {
        Ok(())
    } else {
        Err(HttpError::bad_request(String::from_str("暂不支持链: ").concat(chain)))
    }
}

/// What the service does on start.
#[derive(Clone, Copy, Debug, PartialEq, Eq, Structural)]
pub enum ServicePlan {
    /// A dry run starts nothing.
    DryRun,
    /// No component is enabled: nothing starts.
    NothingEnabled,
    /// The enabled components start; metrics are not served yet and only
    /// warned about; the listener and the HTTP server share the stores.
    Start { listener: bool, http: bool, warn_metrics: bool, shared_state: bool },
}

/// The plan for the enabled components.
pub open spec fn plan_of(dry_run: bool, listener: bool, http: bool, metrics: bool) -> ServicePlan {
    if dry_run {
        ServicePlan::DryRun
    } else if !listener && !http && !metrics {
        ServicePlan::NothingEnabled
    } else {
        ServicePlan::Start {
            listener,
            http,
            warn_metrics: metrics,
            shared_state: listener || http,
        }
    }
}

pub fn service_plan(dry_run: bool, listener: bool, http: bool, metrics: bool) -> (r: ServicePlan)
    ensures
        r == plan_of(dry_run, listener, http, metrics),
{
    if dry_run {
        ServicePlan::DryRun
    } else if !listener && !http && !metrics {
        ServicePlan::NothingEnabled
    } else {
        ServicePlan::Start {
            listener,
            http,
            warn_metrics: metrics,
            shared_state: listener || http,
        }
    }
}

} // verus!
