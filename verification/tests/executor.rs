use gql_gateway::exec::execute;
use gql_gateway::exec::DataEntry;
use gql_gateway::exec::Request;
use gql_gateway::pool::Pool;
use gql_gateway::schema::compose;
use gql_gateway::schema::FieldDef;
use gql_gateway::schema::Resolver;
use gql_gateway::schema::RootDef;
use gql_gateway::schema::Scalar;
use gql_gateway::schema::Schema;
use gql_gateway::schema::Value;

fn user_record() -> Value {
    Value::Record(vec![
        ("id".to_owned(), Scalar::Int(1)),
        ("name".to_owned(), Scalar::Str("ada".to_owned())),
        ("age".to_owned(), Scalar::Int(36)),
    ])
}

/// A health-check root merged with a storage-backed root that also declares
/// a placeholder field with no implementation.
fn demo_schema() -> Schema {
    let health = RootDef {
        name: "health".to_owned(),
        fields: vec![FieldDef { name: "healthz".to_owned(), resolver: Resolver::ConstBool(true) }],
    };
    let users = RootDef {
        name: "users".to_owned(),
        fields: vec![
            FieldDef { name: "user".to_owned(), resolver: Resolver::Storage(user_record()) },
            FieldDef { name: "unimplementedField".to_owned(), resolver: Resolver::Unimplemented },
        ],
    };
    compose(vec![health, users]).unwrap()
}

fn request(names: &[&str]) -> Request {
    Request { fields: names.iter().map(|n| (*n).to_owned()).collect() }
}

#[test]
fn healthz_query_returns_true() {
    let schema = demo_schema();
    let mut pool = Pool::new(5);
    let resp = execute(&schema, &request(&["healthz"]), &mut pool);
    let data = resp.data.unwrap();
    assert_eq!(data.len(), 1);
    assert_eq!(
        data[0],
        DataEntry { name: "healthz".to_owned(), value: Value::Scalar(Scalar::Bool(true)) }
    );
    assert!(resp.errors.is_empty());
}

#[test]
fn failing_sibling_does_not_empty_data() {
    let schema = demo_schema();
    let mut pool = Pool::new(5);
    let resp = execute(&schema, &request(&["user", "unimplementedField"]), &mut pool);
    let data = resp.data.expect("partial success must keep the data payload");
    assert_eq!(data.len(), 1);
    assert_eq!(data[0], DataEntry { name: "user".to_owned(), value: user_record() });
    assert_eq!(resp.errors.len(), 1);
    assert_eq!(resp.errors[0].path, vec!["unimplementedField".to_owned()]);
    assert_eq!(resp.errors[0].message, "field is not implemented".to_owned());
}

#[test]
fn health_check_survives_pool_exhaustion() {
    let schema = demo_schema();
    let mut pool = Pool::new(0);
    let resp = execute(&schema, &request(&["healthz", "user"]), &mut pool);
    let data = resp.data.unwrap();
    assert_eq!(data.len(), 1);
    assert_eq!(
        data[0],
        DataEntry { name: "healthz".to_owned(), value: Value::Scalar(Scalar::Bool(true)) }
    );
    assert_eq!(resp.errors.len(), 1);
    assert_eq!(resp.errors[0].path, vec!["user".to_owned()]);
    assert_eq!(resp.errors[0].message, "connection pool exhausted".to_owned());
    assert_eq!(pool.in_use(), 0);
}

#[test]
fn pool_returns_to_idle_after_every_request() {
    let schema = demo_schema();
    let mut pool = Pool::new(3);
    for _ in 0..4 {
        let resp = execute(
            &schema,
            &request(&["user", "unimplementedField", "healthz", "user"]),
            &mut pool,
        );
        assert!(resp.data.is_some());
        assert_eq!(pool.in_use(), 0);
    }
    assert_eq!(pool.capacity(), 3);
}

#[test]
fn unknown_field_fails_validation_with_empty_data() {
    let schema = demo_schema();
    let mut pool = Pool::new(5);
    let resp = execute(&schema, &request(&["healthz", "nope"]), &mut pool);
    assert!(resp.data.is_none());
    assert_eq!(resp.errors.len(), 1);
    assert_eq!(resp.errors[0].path, vec!["nope".to_owned()]);
    assert_eq!(resp.errors[0].message, "unknown field".to_owned());
}

#[test]
fn fields_resolve_in_document_order() {
    let schema = demo_schema();
    let mut pool = Pool::new(5);
    let resp = execute(&schema, &request(&["user", "healthz"]), &mut pool);
    let data = resp.data.unwrap();
    assert_eq!(data.len(), 2);
    assert_eq!(data[0].name, "user".to_owned());
    assert_eq!(data[1].name, "healthz".to_owned());
}

#[test]
fn empty_request_yields_empty_response() {
    let schema = demo_schema();
    let mut pool = Pool::new(5);
    let resp = execute(&schema, &request(&[]), &mut pool);
    assert_eq!(resp.data.unwrap().len(), 0);
    assert!(resp.errors.is_empty());
}
