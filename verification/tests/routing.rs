use gql_gateway::exec::Request;
use gql_gateway::pool::Pool;
use gql_gateway::router::handle;
use gql_gateway::router::route;
use gql_gateway::router::Method;
use gql_gateway::router::Reply;
use gql_gateway::router::RouteDecision;
use gql_gateway::schema::compose;
use gql_gateway::schema::FieldDef;
use gql_gateway::schema::Resolver;
use gql_gateway::schema::RootDef;
use gql_gateway::schema::Schema;

fn health_schema() -> Schema {
    let health = RootDef {
        name: "health".to_owned(),
        fields: vec![FieldDef { name: "healthz".to_owned(), resolver: Resolver::ConstBool(true) }],
    };
    compose(vec![health]).unwrap()
}

#[test]
fn post_to_endpoint_executes() {
    assert_eq!(route(&Method::Post, &"/graphql".to_owned()), RouteDecision::ExecuteQuery);
}

#[test]
fn get_to_endpoint_serves_explorer() {
    assert_eq!(route(&Method::Get, &"/graphql".to_owned()), RouteDecision::ServeExplorer);
}

#[test]
fn other_methods_and_paths_fall_through() {
    assert_eq!(route(&Method::Other, &"/graphql".to_owned()), RouteDecision::NotHandled);
    assert_eq!(route(&Method::Post, &"/".to_owned()), RouteDecision::NotHandled);
    assert_eq!(route(&Method::Get, &"/graphql/".to_owned()), RouteDecision::NotHandled);
}

#[test]
fn get_never_touches_the_pool() {
    let schema = health_schema();
    let mut pool = Pool::new(2);
    let req = Request { fields: vec!["healthz".to_owned()] };
    for _ in 0..5 {
        let reply = handle(&schema, &mut pool, &Method::Get, &"/graphql".to_owned(), &req);
        assert!(matches!(reply, Reply::Explorer(_)));
        assert_eq!(pool.in_use(), 0);
    }
}

#[test]
fn post_runs_the_query() {
    let schema = health_schema();
    let mut pool = Pool::new(2);
    let req = Request { fields: vec!["healthz".to_owned()] };
    let reply = handle(&schema, &mut pool, &Method::Post, &"/graphql".to_owned(), &req);
    match reply {
        Reply::Query(resp) => {
            let data = resp.data.unwrap();
            assert_eq!(data.len(), 1);
            assert_eq!(data[0].name, "healthz".to_owned());
            assert!(resp.errors.is_empty());
        },
        _ => panic!("a POST to the endpoint must execute the query"),
    }
    assert_eq!(pool.in_use(), 0);
}

#[test]
fn explorer_page_targets_the_endpoint() {
    let schema = health_schema();
    let mut pool = Pool::new(2);
    let req = Request { fields: vec![] };
    let reply = handle(&schema, &mut pool, &Method::Get, &"/graphql".to_owned(), &req);
    let page = match reply {
        Reply::Explorer(page) => page,
        _ => panic!("a GET to the endpoint must serve the explorer"),
    };
    assert_ne!(page, "/graphql".to_owned());
    assert!(page.contains("/graphql"));
    let engine_page = async_graphql::http::GraphiQLSource::build().endpoint("/graphql").finish();
    assert_eq!(page, engine_page);
}

#[test]
fn unhandled_requests_get_no_reply() {
    let schema = health_schema();
    let mut pool = Pool::new(2);
    let req = Request { fields: vec![] };
    let reply = handle(&schema, &mut pool, &Method::Other, &"/graphql".to_owned(), &req);
    assert!(matches!(reply, Reply::NotHandled));
    assert_eq!(pool.in_use(), 0);
}
