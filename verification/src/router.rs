//! Request router: one endpoint, dispatched by HTTP method.
//!
//! A POST to the endpoint executes the query it carries; a GET serves the
//! static interactive-explorer page and never touches the pool or executes
//! anything. Other method/path combinations are left to the transport.

use vstd::prelude::*;

use crate::exec::execute;
use crate::exec::response_matches;
use crate::exec::Request;
use crate::exec::Response;
use crate::pool::Pool;
use crate::schema::Schema;

verus! {

/// The HTTP method of an inbound request, as far as routing cares.
#[derive(PartialEq, Eq, Structural, Clone, Copy, Debug)]
pub enum Method {
    Get,
    Post,
    Other,
}

/// What the router decides to do with a request.
#[derive(PartialEq, Eq, Structural, Clone, Copy, Debug)]
pub enum RouteDecision {
    ExecuteQuery,
    ServeExplorer,
    NotHandled,
}

/// The path the gateway is mounted on.
pub open spec fn endpoint_path() -> Seq<char> {
    "/graphql"@
}

/// The routing table: POST to the endpoint executes, GET serves the
/// explorer, everything else falls through to the transport.
pub open spec fn spec_route(m: Method, path: Seq<char>) -> RouteDecision {
    if path == endpoint_path() {
        match m {
            Method::Post => RouteDecision::ExecuteQuery,
            Method::Get => RouteDecision::ServeExplorer,
            Method::Other => RouteDecision::NotHandled,
        }
    } else {
        RouteDecision::NotHandled
    }
}

/// Chooses the handler for one method/path pair.
pub fn route(method: &Method, path: &String) -> (r: RouteDecision)
    ensures
        r == spec_route(*method, path@),
{
    let endpoint = "/graphql".to_owned();
    if *path == endpoint {
        match method {
            Method::Post => RouteDecision::ExecuteQuery,
            Method::Get => RouteDecision::ServeExplorer,
            Method::Other => RouteDecision::NotHandled,
        }
    } else {
        RouteDecision::NotHandled
    }
}

/// The explorer page served for a GET, as a function of the endpoint URL it
/// is built to target.
pub uninterp spec fn explorer_page_of(endpoint: Seq<char>) -> Seq<char>;

/// Relies on async_graphql::http::GraphiQLSource: `build().endpoint(e).finish()`
/// renders the interactive-explorer HTML page targeting `e`; the result is a
/// pure function of the endpoint string.
#[verifier::external_body]
fn graphiql_page(endpoint: &str) -> (r: String)
    ensures
        r@ == explorer_page_of(endpoint@),
{
    async_graphql::http::GraphiQLSource::build().endpoint(endpoint).finish()
}

/// The gateway's reply to one HTTP request on its endpoint.
pub enum Reply {
    /// The executed query's structured response (POST).
    Query(Response),
    /// The interactive explorer page (GET).
    Explorer(String),
    /// Left to the transport's default handling.
    NotHandled,
}

/// Receives one HTTP request: routes it by method, and either executes the
/// carried query against the schema and pool, or serves the explorer page.
///
/// A GET never executes a query and leaves the pool exactly as it was; its
/// reply depends on nothing but the endpoint. A POST's reply is the
/// executor's response, and the pool comes back exactly as it was.
pub fn handle(
    schema: &Schema,
    pool: &mut Pool,
    method: &Method,
    path: &String,
    req: &Request,
) -> (r: Reply)
    requires
        schema.wf(),
        old(pool).wf(),
    ensures
        *final(pool) == *old(pool),
        match spec_route(*method, path@) {
            RouteDecision::ExecuteQuery => r is Query && response_matches(
                schema.spec_fields(),
                req.fields@,
                old(pool).has_free_slot(),
                r->Query_0,
            ),
            RouteDecision::ServeExplorer => r is Explorer && r->Explorer_0@ == explorer_page_of(
                endpoint_path(),
            ),
            RouteDecision::NotHandled => r is NotHandled,
        },
{
    match route(method, path) {
        RouteDecision::ExecuteQuery => Reply::Query(execute(schema, req, pool)),
        RouteDecision::ServeExplorer => Reply::Explorer(graphiql_page("/graphql")),
        RouteDecision::NotHandled => Reply::NotHandled,
    }
}

} // verus!
