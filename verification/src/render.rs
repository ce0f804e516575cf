//! Response serialization: writes the structured result of a request in the
//! standard GraphQL-over-HTTP shape, a JSON object with a `data` member and,
//! when any field failed, an `errors` array of message/path objects.

use vstd::prelude::*;
use vstd::string::StrSliceExecFns;
use vstd::string::StringExecFns;

use crate::exec::data_view;
use crate::exec::DataEntry;
use crate::exec::FieldError;
use crate::exec::errors_view;
use crate::exec::Response;
use crate::schema::Scalar;
use crate::schema::ScalarModel;
use crate::schema::Value;
use crate::schema::ValueModel;

verus! {

/// Relies on String::push: appends the given character to the string.
pub assume_specification[ String::push ](s: &mut String, ch: char)
    ensures
        final(s)@ == old(s)@.push(ch),
;

/// How one character is written inside a JSON string: quotes, backslashes
/// and the common control characters are escaped, everything else stands as
/// it is.
pub open spec fn escaped_char(c: char) -> Seq<char> {
    if c == '"' {
        seq!['\\', '"']
    } else if c == '\\' {
        seq!['\\', '\\']
    } else if c == '\n' {
        seq!['\\', 'n']
    } else if c == '\r' {
        seq!['\\', 'r']
    } else if c == '\t' {
        seq!['\\', 't']
    } else {
        seq![c]
    }
}

/// A character sequence with every character escaped for JSON.
pub open spec fn escaped(s: Seq<char>) -> Seq<char>
    decreases s.len(),
{
    if s.len() == 0 {
        Seq::empty()
    } else {
        escaped(s.drop_last()) + escaped_char(s.last())
    }
}

/// A JSON string literal: the escaped characters between quotes.
pub open spec fn json_string_of(s: Seq<char>) -> Seq<char> {
    seq!['"'] + escaped(s) + seq!['"']
}

pub open spec fn digit_char(d: int) -> char {
    ((48 + d) as u8) as char
}

/// A number written in decimal, most significant digit first.
pub open spec fn dec_str_of(n: int) -> Seq<char>
    decreases n,
{
    if n < 10 {
        seq![digit_char(n)]
    } else {
        dec_str_of(n / 10) + seq![digit_char(n % 10)]
    }
}

/// Appends `s`, JSON-escaped, to `out`.
#[verifier::loop_isolation(false)]
fn push_escaped(out: &mut String, s: &str)
    ensures
        final(out)@ == old(out)@ + escaped(s@),
{
    let n = s.unicode_len();
    let mut i: usize = 0;
    while i < n
        invariant
            i <= n,
            n == s@.len(),
            out@ == old(out)@ + escaped(s@.take(i as int)),
        decreases n - i,
    {
        let c = s.get_char(i);
        if c == '"' {
            out.push('\\');
            out.push('"');
        } else if c == '\\' {
            out.push('\\');
            out.push('\\');
        } else if c == '\n' {
            out.push('\\');
            out.push('n');
        } else if c == '\r' {
            out.push('\\');
            out.push('r');
        } else if c == '\t' {
            out.push('\\');
            out.push('t');
        } else {
            out.push(c);
        }
        proof {
            assert(s@.take(i as int + 1).drop_last() =~= s@.take(i as int));
            assert(s@.take(i as int + 1).last() == s@[i as int]);
            assert(out@ =~= old(out)@ + escaped(s@.take(i as int + 1)));
        }
        i = i + 1;
    }
    proof {
        assert(s@.take(n as int) =~= s@);
    }
}

/// Appends `s` as a JSON string literal to `out`.
fn push_json_string(out: &mut String, s: &str)
    ensures
        final(out)@ == old(out)@ + json_string_of(s@),
{
    out.push('"');
    push_escaped(out, s);
    out.push('"');
    proof {
        assert(out@ =~= old(out)@ + json_string_of(s@));
    }
}

/// Appends `n` in decimal to `out`.
fn push_dec(out: &mut String, n: u64)
    ensures
        final(out)@ == old(out)@ + dec_str_of(n as int),
    decreases n,
{
    if n < 10 {
        out.push((48 + n as u8) as char);
        proof {
            assert(out@ =~= old(out)@ + dec_str_of(n as int));
        }
    } else {
        push_dec(out, n / 10);
        out.push((48 + (n % 10) as u8) as char);
        proof {
            assert(out@ =~= old(out)@ + dec_str_of(n as int));
        }
    }
}

/// A scalar in JSON: `null`, a boolean, a decimal number, or a string
/// literal.
pub open spec fn scalar_json_of(m: ScalarModel) -> Seq<char> {
    match m {
        ScalarModel::Null => "null"@,
        ScalarModel::Bool(b) => if b {
            "true"@
        } else {
            "false"@
        },
        ScalarModel::Int(n) => dec_str_of(n as int),
        ScalarModel::Str(s) => json_string_of(s),
    }
}

/// One `"name":body` object member.
pub open spec fn member_json_of(name: Seq<char>, body: Seq<char>) -> Seq<char> {
    json_string_of(name) + seq![':'] + body
}

/// The comma-separated members of a record.
pub open spec fn record_json_of(fields: Seq<(Seq<char>, ScalarModel)>) -> Seq<char>
    decreases fields.len(),
{
    if fields.len() == 0 {
        Seq::empty()
    } else if fields.len() == 1 {
        member_json_of(fields[0].0, scalar_json_of(fields[0].1))
    } else {
        record_json_of(fields.drop_last()) + seq![','] + member_json_of(
            fields.last().0,
            scalar_json_of(fields.last().1),
        )
    }
}

/// A value in JSON: a scalar, or a record as an object.
pub open spec fn value_json_of(v: ValueModel) -> Seq<char> {
    match v {
        ValueModel::Scalar(m) => scalar_json_of(m),
        ValueModel::Record(fs) => seq!['{'] + record_json_of(fs) + seq!['}'],
    }
}

/// The comma-separated members of the data object.
pub open spec fn entries_json_of(entries: Seq<(Seq<char>, ValueModel)>) -> Seq<char>
    decreases entries.len(),
{
    if entries.len() == 0 {
        Seq::empty()
    } else if entries.len() == 1 {
        member_json_of(entries[0].0, value_json_of(entries[0].1))
    } else {
        entries_json_of(entries.drop_last()) + seq![','] + member_json_of(
            entries.last().0,
            value_json_of(entries.last().1),
        )
    }
}

/// A field path as a comma-separated list of JSON strings.
pub open spec fn path_json_of(path: Seq<Seq<char>>) -> Seq<char>
    decreases path.len(),
{
    if path.len() == 0 {
        Seq::empty()
    } else if path.len() == 1 {
        json_string_of(path[0])
    } else {
        path_json_of(path.drop_last()) + seq![','] + json_string_of(path.last())
    }
}

/// One error as a JSON object with its message and field path.
pub open spec fn error_json_of(e: (Seq<Seq<char>>, Seq<char>)) -> Seq<char> {
    "{\"message\":"@ + json_string_of(e.1) + ",\"path\":["@ + path_json_of(e.0) + "]}"@
}

/// The comma-separated elements of the errors array.
pub open spec fn errors_json_of(errs: Seq<(Seq<Seq<char>>, Seq<char>)>) -> Seq<char>
    decreases errs.len(),
{
    if errs.len() == 0 {
        Seq::empty()
    } else if errs.len() == 1 {
        error_json_of(errs[0])
    } else {
        errors_json_of(errs.drop_last()) + seq![','] + error_json_of(errs.last())
    }
}

/// The data payload in JSON: `null` when there is none, else an object of
/// the resolved fields.
pub open spec fn data_json_of(data: Option<Vec<DataEntry>>) -> Seq<char> {
    match data {
        None => "null"@,
        Some(entries) => seq!['{'] + entries_json_of(data_view(entries@)) + seq!['}'],
    }
}

/// A whole response in JSON: the data member, and the errors array exactly
/// when any field failed.
pub open spec fn response_json_of(r: Response) -> Seq<char> {
    if r.errors@.len() == 0 {
        "{\"data\":"@ + data_json_of(r.data) + seq!['}']
    } else {
        "{\"data\":"@ + data_json_of(r.data) + ",\"errors\":["@ + errors_json_of(
            errors_view(r.errors@),
        ) + "]}"@
    }
}

/// Appends one scalar to `out`.
fn push_scalar(out: &mut String, s: &Scalar)
    ensures
        final(out)@ == old(out)@ + scalar_json_of(s@),
{
    match s {
        Scalar::Null => out.append("null"),
        Scalar::Bool(b) => if *b {
            out.append("true")
        } else {
            out.append("false")
        },
        Scalar::Int(n) => push_dec(out, *n),
        Scalar::Str(text) => push_json_string(out, text.as_str()),
    }
}

/// Appends one value to `out`.
#[verifier::loop_isolation(false)]
fn push_value(out: &mut String, v: &Value)
    ensures
        final(out)@ == old(out)@ + value_json_of(v@),
{
    match v {
        Value::Scalar(s) => push_scalar(out, s),
        Value::Record(fs) => {
            out.push('{');
            let ghost fsv = fs@.map(|i: int, p: (String, Scalar)| (p.0@, p.1@));
            let n = fs.len();
            let mut i: usize = 0;
            while i < n
                invariant
                    i <= n,
                    n == fs@.len(),
                    out@ == old(out)@ + seq!['{'] + record_json_of(fsv.take(i as int)),
                decreases n - i,
            {
                if i > 0 {
                    out.push(',');
                }
                push_json_string(out, fs[i].0.as_str());
                out.push(':');
                push_scalar(out, &fs[i].1);
                proof {
                    assert(fsv.take(i as int + 1).drop_last() =~= fsv.take(i as int));
                    assert(fsv.take(i as int + 1).last() == fsv[i as int]);
                    assert(out@ =~= old(out)@ + seq!['{'] + record_json_of(
                        fsv.take(i as int + 1),
                    ));
                }
                i = i + 1;
            }
            out.push('}');
            proof {
                assert(fsv.take(n as int) =~= fsv);
                assert(out@ =~= old(out)@ + value_json_of(v@));
            }
        },
    }
}

/// Appends one error object to `out`.
#[verifier::loop_isolation(false)]
fn push_error(out: &mut String, e: &FieldError)
    ensures
        final(out)@ == old(out)@ + error_json_of(
            (e.path@.map(|j: int, p: String| p@), e.message@),
        ),
{
    out.append("{\"message\":");
    push_json_string(out, e.message.as_str());
    out.append(",\"path\":[");
    let ghost inner = out@;
    let ghost pv = e.path@.map(|j: int, p: String| p@);
    let m = e.path.len();
    let mut j: usize = 0;
    while j < m
        invariant
            j <= m,
            m == e.path@.len(),
            out@ == inner + path_json_of(pv.take(j as int)),
        decreases m - j,
    {
        if j > 0 {
            out.push(',');
        }
        push_json_string(out, e.path[j].as_str());
        proof {
            assert(pv.take(j as int + 1).drop_last() =~= pv.take(j as int));
            assert(pv.take(j as int + 1).last() == pv[j as int]);
            assert(out@ =~= inner + path_json_of(pv.take(j as int + 1)));
        }
        j = j + 1;
    }
    out.append("]}");
    proof {
        assert(pv.take(m as int) =~= pv);
        assert(out@ =~= old(out)@ + error_json_of((pv, e.message@)));
    }
}

/// Writes a whole response in the GraphQL-over-HTTP shape.
#[verifier::loop_isolation(false)]
pub fn render_response(r: &Response) -> (out: String)
    ensures
        out@ == response_json_of(*r),
{
    let mut out = "{\"data\":".to_owned();
    match &r.data {
        None => out.append("null"),
        Some(entries) => {
            out.push('{');
            let ghost ev = data_view(entries@);
            let n = entries.len();
            let mut i: usize = 0;
            while i < n
                invariant
                    i <= n,
                    n == entries@.len(),
                    out@ == "{\"data\":"@ + seq!['{'] + entries_json_of(ev.take(i as int)),
                decreases n - i,
            {
                if i > 0 {
                    out.push(',');
                }
                push_json_string(&mut out, entries[i].name.as_str());
                out.push(':');
                push_value(&mut out, &entries[i].value);
                proof {
                    assert(ev.take(i as int + 1).drop_last() =~= ev.take(i as int));
                    assert(ev.take(i as int + 1).last() == ev[i as int]);
                    assert(out@ =~= "{\"data\":"@ + seq!['{'] + entries_json_of(
                        ev.take(i as int + 1),
                    ));
                }
                i = i + 1;
            }
            out.push('}');
            proof {
                assert(ev.take(n as int) =~= ev);
            }
        },
    }
    proof {
        assert(out@ =~= "{\"data\":"@ + data_json_of(r.data));
    }
    if r.errors.len() == 0 {
        out.push('}');
        proof {
            assert(out@ =~= response_json_of(*r));
        }
        return out;
    }
    out.append(",\"errors\":[");
    let ghost head = out@;
    let ghost errv = errors_view(r.errors@);
    let n = r.errors.len();
    let mut i: usize = 0;
    while i < n
        invariant
            i <= n,
            n == r.errors@.len(),
            out@ == head + errors_json_of(errv.take(i as int)),
        decreases n - i,
    {
        if i > 0 {
            out.push(',');
        }
        push_error(&mut out, &r.errors[i]);
        proof {
            assert(errv[i as int] == (
                r.errors@[i as int].path@.map(|j: int, p: String| p@),
                r.errors@[i as int].message@,
            ));
            assert(errv.take(i as int + 1).drop_last() =~= errv.take(i as int));
            assert(errv.take(i as int + 1).last() == errv[i as int]);
            assert(out@ =~= head + errors_json_of(errv.take(i as int + 1)));
        }
        i = i + 1;
    }
    out.append("]}");
    proof {
        assert(errv.take(n as int) =~= errv);
        assert(out@ =~= response_json_of(*r));
    }
    out
}

} // verus!
