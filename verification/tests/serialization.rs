use gql_gateway::exec::execute;
use gql_gateway::exec::FieldError;
use gql_gateway::exec::Request;
use gql_gateway::exec::Response;
use gql_gateway::pool::Pool;
use gql_gateway::render::render_response;
use gql_gateway::schema::compose;
use gql_gateway::schema::FieldDef;
use gql_gateway::schema::Resolver;
use gql_gateway::schema::RootDef;
use gql_gateway::schema::Scalar;
use gql_gateway::schema::Schema;
use gql_gateway::schema::Value;

fn demo_schema() -> Schema {
    let health = RootDef {
        name: "health".to_owned(),
        fields: vec![FieldDef { name: "healthz".to_owned(), resolver: Resolver::ConstBool(true) }],
    };
    let user_record = Value::Record(vec![
        ("id".to_owned(), Scalar::Int(1)),
        ("name".to_owned(), Scalar::Str("ada".to_owned())),
        ("age".to_owned(), Scalar::Int(36)),
    ]);
    let users = RootDef {
        name: "users".to_owned(),
        fields: vec![
            FieldDef { name: "user".to_owned(), resolver: Resolver::Storage(user_record) },
            FieldDef { name: "unimplementedField".to_owned(), resolver: Resolver::Unimplemented },
        ],
    };
    compose(vec![health, users]).unwrap()
}

#[test]
fn healthz_renders_as_the_standard_payload() {
    let schema = demo_schema();
    let mut pool = Pool::new(5);
    let resp = execute(&schema, &Request { fields: vec!["healthz".to_owned()] }, &mut pool);
    assert_eq!(render_response(&resp), "{\"data\":{\"healthz\":true}}".to_owned());
}

#[test]
fn partial_failure_renders_data_and_errors() {
    let schema = demo_schema();
    let mut pool = Pool::new(5);
    let resp = execute(
        &schema,
        &Request { fields: vec!["user".to_owned(), "unimplementedField".to_owned()] },
        &mut pool,
    );
    let mut expected = String::from("{\"data\":{\"user\":{\"id\":1,\"name\":\"ada\",\"age\":36}},");
    expected.push_str("\"errors\":[{\"message\":\"field is not implemented\",");
    expected.push_str("\"path\":[\"unimplementedField\"]}]}");
    assert_eq!(render_response(&resp), expected);
}

#[test]
fn validation_failure_renders_null_data() {
    let schema = demo_schema();
    let mut pool = Pool::new(5);
    let resp = execute(&schema, &Request { fields: vec!["nope".to_owned()] }, &mut pool);
    assert_eq!(
        render_response(&resp),
        "{\"data\":null,\"errors\":[{\"message\":\"unknown field\",\"path\":[\"nope\"]}]}"
            .to_owned()
    );
}

fn one_string_response(text: &str) -> Response {
    Response {
        data: Some(vec![gql_gateway::exec::DataEntry {
            name: "x".to_owned(),
            value: Value::Scalar(Scalar::Str(text.to_owned())),
        }]),
        errors: vec![],
    }
}

#[test]
fn strings_are_escaped_in_the_output() {
    let quote = render_response(&one_string_response("a\"b"));
    assert_eq!(quote, "{\"data\":{\"x\":\"a\\\"b\"}}".to_owned());
    let backslash = render_response(&one_string_response("a\\b"));
    assert_eq!(backslash, "{\"data\":{\"x\":\"a\\\\b\"}}".to_owned());
    let newline = render_response(&one_string_response("a\nb"));
    assert_eq!(newline, "{\"data\":{\"x\":\"a\\nb\"}}".to_owned());
    let tab = render_response(&one_string_response("a\tb"));
    assert_eq!(tab, "{\"data\":{\"x\":\"a\\tb\"}}".to_owned());
    let plain = render_response(&one_string_response("plain"));
    assert_eq!(plain, "{\"data\":{\"x\":\"plain\"}}".to_owned());
}

#[test]
fn numbers_render_in_decimal() {
    let resp = Response {
        data: Some(vec![
            gql_gateway::exec::DataEntry {
                name: "zero".to_owned(),
                value: Value::Scalar(Scalar::Int(0)),
            },
            gql_gateway::exec::DataEntry {
                name: "big".to_owned(),
                value: Value::Scalar(Scalar::Int(18446744073709551615)),
            },
        ]),
        errors: vec![],
    };
    assert_eq!(
        render_response(&resp),
        "{\"data\":{\"zero\":0,\"big\":18446744073709551615}}".to_owned()
    );
}

#[test]
fn null_scalar_and_multi_segment_path_render() {
    let resp = Response {
        data: Some(vec![gql_gateway::exec::DataEntry {
            name: "nothing".to_owned(),
            value: Value::Scalar(Scalar::Null),
        }]),
        errors: vec![FieldError {
            path: vec!["user".to_owned(), "name".to_owned()],
            message: "lost".to_owned(),
        }],
    };
    assert_eq!(
        render_response(&resp),
        "{\"data\":{\"nothing\":null},\"errors\":[{\"message\":\"lost\",\"path\":[\"user\",\"name\"]}]}"
            .to_owned()
    );
}
