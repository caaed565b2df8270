//! The coordinator client's requests and its endpoint.

use vstd::prelude::*;
use crate::messages::{SubmitJobRequest, SubmitJobRequestView};
use crate::text::push_str;

verus! {

/// An owned copy of a literal.
fn text(s: &str) -> (r: String)
    ensures
        r@ == s@,
{
    s.to_owned()
}

/// A job for the coordinator with the given values, not tied to an
/// evaluator or a stored job.
pub fn build_submit_job_request(
    files: Vec<String>,
    output_dir: String,
    app: String,
    n_reduce: u32,
    key: String,
    entity: String,
) -> (r: SubmitJobRequest)
    ensures
        r@ == (SubmitJobRequestView {
            files: files.deep_view(),
            output_dir: output_dir@,
            app: app@,
            n_reduce,
            key: key@,
            entity: entity@,
            evaluator_id: 0,
            ingestion_job_id: 0,
        }),
{
    build_submit_job_request_with_ids(files, output_dir, app, n_reduce, key, entity, 0, 0)
}

/// A job for the coordinator with the given values.
pub fn build_submit_job_request_with_ids(
    files: Vec<String>,
    output_dir: String,
    app: String,
    n_reduce: u32,
    key: String,
    entity: String,
    evaluator_id: u64,
    ingestion_job_id: u64,
) -> (r: SubmitJobRequest)
    ensures
        r@ == (SubmitJobRequestView {
            files: files.deep_view(),
            output_dir: output_dir@,
            app: app@,
            n_reduce,
            key: key@,
            entity: entity@,
            evaluator_id,
            ingestion_job_id,
        }),
{
    SubmitJobRequest { files, output_dir, app, n_reduce, key, entity, evaluator_id, ingestion_job_id }
}

/// The example job: one day of transactions, output to `data/output`, the
/// `benefit-evaluator` application with two reduce tasks.
pub fn default_submit_job_request() -> (r: SubmitJobRequest)
    ensures
        r@ == (SubmitJobRequestView {
            files: seq!["data/transaction/transaction20260618.txt"@],
            output_dir: "data/output"@,
            app: "benefit-evaluator"@,
            n_reduce: 2,
            key: "transaction_today"@,
            entity: "transaction"@,
            evaluator_id: 0,
            ingestion_job_id: 0,
        }),
{
    let mut files: Vec<String> = Vec::new();
    files.push(text("data/transaction/transaction20260618.txt"));
    assert(files.deep_view() =~= seq!["data/transaction/transaction20260618.txt"@]);
    build_submit_job_request(
        files,
        text("data/output"),
        text("benefit-evaluator"),
        2,
        text("transaction_today"),
        text("transaction"),
    )
}

/// The coordinator's URL for its address (`host:port`).
pub fn coordinator_endpoint(addr: &str) -> (r: String)
    ensures
        r@ == "http://"@ + addr@,
{
    let mut r = text("http://");
    push_str(&mut r, addr);
    r
}

/// A client of the coordinator at an endpoint.
#[derive(Debug, Clone)]
pub struct Client {
    endpoint: String,
}

impl Client {
    /// The endpoint as a text.
    pub closed spec fn spec_endpoint(&self) -> Seq<char> {
        self.endpoint@
    }

    /// A client of the given endpoint.
    pub fn new(endpoint: String) -> (c: Self)
        ensures
            c.spec_endpoint() == endpoint@,
    {
        Client { endpoint }
    }

    /// A client of the coordinator at the configured address.
    pub fn from_env(coordinator_addr: &str) -> (c: Self)
        ensures
            c.spec_endpoint() == "http://"@ + coordinator_addr@,
    {
        Self::new(coordinator_endpoint(coordinator_addr))
    }

    /// The endpoint.
    pub fn endpoint(&self) -> (r: &str)
        ensures
            r@ == self.spec_endpoint(),
    {
        self.endpoint.as_str()
    }
}

/// The worker's command line: it takes no arguments.
#[derive(Debug)]
pub struct Args {}

impl Args {
    /// The worker's arguments.
    pub fn parse() -> (r: Self) {
        Args {}
    }
}

} // verus!
