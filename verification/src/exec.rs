//! Query executor: walks the requested fields of one operation in document
//! order, invokes the matching resolver from the composed schema, and
//! assembles a structured response.
//!
//! Failures are isolated per field: a failing resolver is recorded in the
//! response's error list under its field path and does not abort sibling
//! fields. A resolver that needs storage leases a pool connection for its
//! own execution only and releases it on every exit path, so executing a
//! request never changes the pool's in-use count.

use vstd::prelude::*;

use crate::pool::lemma_acquire_release_balanced;
use crate::pool::Pool;
use crate::schema::has_field;
use crate::schema::spec_find;
use crate::schema::FieldDef;
use crate::schema::Resolver;
use crate::schema::Scalar;
use crate::schema::ScalarModel;
use crate::schema::Schema;
use crate::schema::Value;
use crate::schema::ValueModel;

verus! {

/// One inbound operation: the requested top-level field names, in document
/// order. Built per HTTP call and consumed by one execution.
pub struct Request {
    pub fields: Vec<String>,
}

/// One successfully resolved field of a response.
#[derive(Debug, PartialEq, Eq)]
pub struct DataEntry {
    pub name: String,
    pub value: Value,
}

/// One failed field, tagged with the path of the field that failed.
#[derive(Debug, PartialEq, Eq)]
pub struct FieldError {
    pub path: Vec<String>,
    pub message: String,
}

/// The structured result of one request: an optional data payload and an
/// ordered list of errors. The two are independent, so a partially failing
/// request carries both.
#[derive(Debug, PartialEq, Eq)]
pub struct Response {
    pub data: Option<Vec<DataEntry>>,
    pub errors: Vec<FieldError>,
}

pub open spec fn msg_unknown_field() -> Seq<char> {
    "unknown field"@
}

pub open spec fn msg_unimplemented() -> Seq<char> {
    "field is not implemented"@
}

pub open spec fn msg_pool_exhausted() -> Seq<char> {
    "connection pool exhausted"@
}

/// Every requested field name exists in the schema.
pub open spec fn valid_request(fields: Seq<FieldDef>, names: Seq<String>) -> bool {
    forall|k: int| 0 <= k < names.len() ==> has_field(fields, names[k]@)
}

/// The definition of the (first) field named `name`.
pub open spec fn resolver_of(fields: Seq<FieldDef>, name: Seq<char>) -> FieldDef {
    fields[spec_find(fields, name)->Some_0]
}

/// Whether a field's resolver succeeds, given whether the pool has a free
/// slot. A constant field always succeeds; a storage-backed field succeeds
/// exactly when a connection can be leased; an unimplemented field never
/// succeeds.
pub open spec fn field_succeeds(fd: FieldDef, free: bool) -> bool {
    match fd.resolver {
        Resolver::ConstBool(_) => true,
        Resolver::Storage(_) => free,
        Resolver::Unimplemented => false,
    }
}

/// The value a succeeding field contributes to the data payload.
pub open spec fn field_value(fd: FieldDef) -> ValueModel {
    match fd.resolver {
        Resolver::ConstBool(b) => ValueModel::Scalar(ScalarModel::Bool(b)),
        Resolver::Storage(v) => v@,
        Resolver::Unimplemented => ValueModel::Scalar(ScalarModel::Null),
    }
}

/// The message a failing field contributes to the error list.
pub open spec fn field_error_message(fd: FieldDef) -> Seq<char> {
    match fd.resolver {
        Resolver::Storage(_) => msg_pool_exhausted(),
        _ => msg_unimplemented(),
    }
}

/// The data payload of executing `names` against `fields`: one entry per
/// succeeding field, in document order.
pub open spec fn spec_data(fields: Seq<FieldDef>, names: Seq<String>, free: bool) -> Seq<
    (Seq<char>, ValueModel),
>
    decreases names.len(),
{
    if names.len() == 0 {
        Seq::empty()
    } else {
        let prefix = spec_data(fields, names.drop_last(), free);
        let fd = resolver_of(fields, names.last()@);
        if field_succeeds(fd, free) {
            prefix + seq![(names.last()@, field_value(fd))]
        } else {
            prefix
        }
    }
}

/// The error list of executing `names` against `fields`: one entry per
/// failing field, in document order, as (path, message).
pub open spec fn spec_errors(fields: Seq<FieldDef>, names: Seq<String>, free: bool) -> Seq<
    (Seq<Seq<char>>, Seq<char>),
>
    decreases names.len(),
{
    if names.len() == 0 {
        Seq::empty()
    } else {
        let prefix = spec_errors(fields, names.drop_last(), free);
        let fd = resolver_of(fields, names.last()@);
        if field_succeeds(fd, free) {
            prefix
        } else {
            prefix + seq![(seq![names.last()@], field_error_message(fd))]
        }
    }
}

/// The validation errors of a request: one entry per requested name that the
/// schema does not declare, in document order.
pub open spec fn spec_unknown_errors(fields: Seq<FieldDef>, names: Seq<String>) -> Seq<
    (Seq<Seq<char>>, Seq<char>),
>
    decreases names.len(),
{
    if names.len() == 0 {
        Seq::empty()
    } else {
        let prefix = spec_unknown_errors(fields, names.drop_last());
        if has_field(fields, names.last()@) {
            prefix
        } else {
            prefix + seq![(seq![names.last()@], msg_unknown_field())]
        }
    }
}

/// A data payload as (name, value) models.
pub open spec fn data_view(entries: Seq<DataEntry>) -> Seq<(Seq<char>, ValueModel)> {
    entries.map(|i: int, e: DataEntry| (e.name@, e.value@))
}

/// An error list as (path, message) models.
pub open spec fn errors_view(errs: Seq<FieldError>) -> Seq<(Seq<Seq<char>>, Seq<char>)> {
    errs.map(|i: int, e: FieldError| (e.path@.map(|j: int, p: String| p@), e.message@))
}

/// What the executor promises of a response, judged against the pool state
/// at the start of the request: for a valid request, the data payload holds
/// exactly the succeeding fields and the error list exactly the failing
/// ones, both in document order; for a request naming an undeclared field,
/// the data payload is empty and the errors are the unknown names.
pub open spec fn response_matches(
    fields: Seq<FieldDef>,
    names: Seq<String>,
    free: bool,
    r: Response,
) -> bool {
    if valid_request(fields, names) {
        r.data is Some && data_view(r.data->Some_0@) == spec_data(fields, names, free)
            && errors_view(r.errors@) == spec_errors(fields, names, free)
    } else {
        r.data is None && errors_view(r.errors@) == spec_unknown_errors(fields, names)
    }
}

/// A one-element field path.
fn singleton_path(name: String) -> (r: Vec<String>)
    ensures
        r@ == seq![name],
{
    let mut r: Vec<String> = Vec::new();
    r.push(name);
    proof {
        assert(r@ =~= seq![name]);
    }
    r
}

/// An error entry whose path is the single failing field.
fn field_error(name: &String, message: String) -> (r: FieldError)
    ensures
        r.path@.map(|j: int, p: String| p@) == seq![name@],
        r.message@ == message@,
{
    let path = singleton_path(name.clone());
    proof {
        assert(path@.map(|j: int, p: String| p@) =~~= seq![name@]);
    }
    FieldError { path, message }
}

/// Executes one request against the composed schema.
///
/// If every requested name exists in the schema, the response's data payload
/// holds exactly the succeeding fields with their values and the error list
/// exactly the failing fields with their paths and messages, both in
/// document order, judged against the pool state at entry. Otherwise the
/// data payload is empty and the errors are the unknown names.
///
/// Whatever happens, the pool is returned exactly as it was: every leased
/// connection is released before the response is assembled.
#[verifier::loop_isolation(false)]
pub fn execute(schema: &Schema, req: &Request, pool: &mut Pool) -> (r: Response)
    requires
        schema.wf(),
        old(pool).wf(),
    ensures
        *final(pool) == *old(pool),
        response_matches(
            schema.spec_fields(),
            req.fields@,
            old(pool).has_free_slot(),
            r,
        ),
{
    let ghost fields = schema.spec_fields();
    let ghost names = req.fields@;
    let n = req.fields.len();

    // Validation: every requested field must be declared by the schema.
    let mut unknown: Vec<FieldError> = Vec::new();
    let mut i: usize = 0;
    while i < n
        invariant
            i <= n,
            *pool == *old(pool),
            errors_view(unknown@) == spec_unknown_errors(fields, names.take(i as int)),
            unknown@.len() == 0 <==> valid_request(fields, names.take(i as int)),
        decreases n - i,
    {
        let ghost prefix = names.take(i as int);
        let name = &req.fields[i];
        proof {
            assert(names.take(i as int + 1) =~= prefix.push(names[i as int]));
            assert(names.take(i as int + 1).drop_last() =~= prefix);
        }
        match schema.find(name) {
            Some(_) => {
                proof {
                    assert(has_field(fields, names[i as int]@));
                    assert(errors_view(unknown@) =~~= spec_unknown_errors(
                        fields,
                        names.take(i as int + 1),
                    ));
                }
            },
            None => {
                let e = field_error(name, "unknown field".to_owned());
                unknown.push(e);
                proof {
                    assert(!has_field(fields, names[i as int]@));
                    assert(errors_view(unknown@) =~~= spec_unknown_errors(
                        fields,
                        names.take(i as int + 1),
                    ));
                    assert(!valid_request(fields, names.take(i as int + 1)));
                }
            },
        }
        i = i + 1;
    }
    proof {
        assert(names.take(n as int) =~= names);
    }
    if unknown.len() > 0 {
        return Response { data: None, errors: unknown };
    }
    proof {
        assert(valid_request(fields, names));
    }

    // Execution: resolve each field, isolating failures per field.
    let mut data: Vec<DataEntry> = Vec::new();
    let mut errors: Vec<FieldError> = Vec::new();
    let ghost free = old(pool).has_free_slot();
    let mut i: usize = 0;
    while i < n
        invariant
            i <= n,
            *pool == *old(pool),
            data_view(data@) == spec_data(fields, names.take(i as int), free),
            errors_view(errors@) == spec_errors(fields, names.take(i as int), free),
        decreases n - i,
    {
        let ghost prefix = names.take(i as int);
        let name = &req.fields[i];
        proof {
            assert(has_field(fields, names[i as int]@));
            assert(names.take(i as int + 1) =~= prefix.push(names[i as int]));
            assert(names.take(i as int + 1).drop_last() =~= prefix);
        }
        // Validation established that every requested name resolves, so the
        // lookup cannot miss here.
        let idx = match schema.find(name) {
            Some(idx) => idx,
            None => {
                proof {
                    assert(false);
                }
                0
            },
        };
        let fd = schema.field(idx);
        proof {
            assert(resolver_of(fields, names[i as int]@) == fields[idx as int]);
            assert(*fd == resolver_of(fields, names[i as int]@));
        }
        match &fd.resolver {
            Resolver::ConstBool(b) => {
                data.push(DataEntry { name: name.clone(), value: Value::Scalar(Scalar::Bool(*b)) });
                proof {
                    assert(data_view(data@) =~~= spec_data(fields, names.take(i as int + 1), free));
                    assert(errors_view(errors@) =~~= spec_errors(
                        fields,
                        names.take(i as int + 1),
                        free,
                    ));
                }
            },
            Resolver::Unimplemented => {
                errors.push(field_error(name, "field is not implemented".to_owned()));
                proof {
                    assert(data_view(data@) =~~= spec_data(fields, names.take(i as int + 1), free));
                    assert(errors_view(errors@) =~~= spec_errors(
                        fields,
                        names.take(i as int + 1),
                        free,
                    ));
                }
            },
            Resolver::Storage(v) => {
                match pool.acquire() {
                    Ok(conn) => {
                        let ghost mid = *pool;
                        let value = v.duplicate();
                        pool.release(conn);
                        proof {
                            lemma_acquire_release_balanced(*old(pool), mid, *pool);
                        }
                        data.push(DataEntry { name: name.clone(), value });
                        proof {
                            assert(field_succeeds(*fd, free));
                            assert(data_view(data@) =~~= spec_data(
                                fields,
                                names.take(i as int + 1),
                                free,
                            ));
                            assert(errors_view(errors@) =~~= spec_errors(
                                fields,
                                names.take(i as int + 1),
                                free,
                            ));
                        }
                    },
                    Err(_) => {
                        errors.push(field_error(name, "connection pool exhausted".to_owned()));
                        proof {
                            assert(!field_succeeds(*fd, free));
                            assert(data_view(data@) =~~= spec_data(
                                fields,
                                names.take(i as int + 1),
                                free,
                            ));
                            assert(errors_view(errors@) =~~= spec_errors(
                                fields,
                                names.take(i as int + 1),
                                free,
                            ));
                        }
                    },
                }
            },
        }
        i = i + 1;
    }
    Response { data: Some(data), errors }
}

/// Error isolation, the succeeding side: a field whose resolver succeeds
/// under the given pool state contributes its value to the data payload, no
/// matter how its sibling fields fare.
pub proof fn lemma_success_in_data(fields: Seq<FieldDef>, names: Seq<String>, free: bool, k: int)
    requires
        0 <= k < names.len(),
        spec_find(fields, names[k]@) is Some,
        field_succeeds(resolver_of(fields, names[k]@), free),
    ensures
        spec_data(fields, names, free).contains(
            (names[k]@, field_value(resolver_of(fields, names[k]@))),
        ),
    decreases names.len(),
{
    let entry = (names[k]@, field_value(resolver_of(fields, names[k]@)));
    if k == names.len() - 1 {
        let prefix = spec_data(fields, names.drop_last(), free);
        assert(names.last() == names[k]);
        assert(spec_data(fields, names, free) == prefix + seq![entry]);
        assert((prefix + seq![entry])[prefix.len() as int] == entry);
    } else {
        let head = names.drop_last();
        assert(head[k] == names[k]);
        lemma_success_in_data(fields, head, free, k);
        let sub = spec_data(fields, head, free);
        let i = choose|i: int| 0 <= i < sub.len() && sub[i] == entry;
        let full = spec_data(fields, names, free);
        assert(full[i] == entry);
        assert(full.contains(entry));
    }
}

/// Error isolation, the failing side: a field whose resolver fails under
/// the given pool state contributes its path and message to the error list,
/// and nothing else of the request is lost to it.
pub proof fn lemma_failure_in_errors(fields: Seq<FieldDef>, names: Seq<String>, free: bool, k: int)
    requires
        0 <= k < names.len(),
        spec_find(fields, names[k]@) is Some,
        !field_succeeds(resolver_of(fields, names[k]@), free),
    ensures
        spec_errors(fields, names, free).contains(
            (seq![names[k]@], field_error_message(resolver_of(fields, names[k]@))),
        ),
    decreases names.len(),
{
    let entry = (seq![names[k]@], field_error_message(resolver_of(fields, names[k]@)));
    if k == names.len() - 1 {
        let prefix = spec_errors(fields, names.drop_last(), free);
        assert(names.last() == names[k]);
        assert(spec_errors(fields, names, free) == prefix + seq![entry]);
        assert((prefix + seq![entry])[prefix.len() as int] == entry);
    } else {
        let head = names.drop_last();
        assert(head[k] == names[k]);
        lemma_failure_in_errors(fields, head, free, k);
        let sub = spec_errors(fields, head, free);
        let i = choose|i: int| 0 <= i < sub.len() && sub[i] == entry;
        let full = spec_errors(fields, names, free);
        assert(full[i] == entry);
        assert(full.contains(entry));
    }
}

/// The health-check field always answers: a constant field requested in any
/// position contributes its value to the data payload whatever the pool
/// state, an exhausted pool included.
pub proof fn lemma_health_check_always_answers(
    fields: Seq<FieldDef>,
    names: Seq<String>,
    free: bool,
    k: int,
)
    requires
        0 <= k < names.len(),
        spec_find(fields, names[k]@) is Some,
        resolver_of(fields, names[k]@).resolver is ConstBool,
    ensures
        spec_data(fields, names, free).contains(
            (
                names[k]@,
                ValueModel::Scalar(
                    ScalarModel::Bool(resolver_of(fields, names[k]@).resolver->ConstBool_0),
                ),
            ),
        ),
{
    lemma_success_in_data(fields, names, free, k);
}

} // verus!
