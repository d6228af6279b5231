//! JSON-lines loading: the library's own JSON value tree and the flattening
//! of nested objects into underscore-joined column names.

use vstd::prelude::*;

use crate::errors::AppError;
use crate::loader::{contains_name, dedup_insert, Config};
use crate::plan::{Ingestion, Insert};
use crate::sql::{create_table_chars, create_table_sql, drop_table_sql, insert_named_chars,
    insert_named_sql};
use crate::text::str_chars;
use crate::types::Type;

verus! {

#[verifier::external_type_specification]
#[verifier::external_body]
pub struct ExJsonValue(serde_json::Value);

/// A parsed JSON value, owned by the library. Numbers are kept as their
/// decimal rendering, since they are only ever re-emitted as text.
pub enum JsonValue {
    Null,
    Bool(bool),
    Number(String),
    Str(String),
    Array(Vec<JsonValue>),
    Object(Vec<(String, JsonValue)>),
}

/// The mathematical shape of a JSON value: what `JsonValue` views as.
pub enum JsonVal {
    Null,
    Bool(bool),
    Number(Seq<char>),
    Str(Seq<char>),
    Array(Seq<JsonVal>),
    Object(Seq<(Seq<char>, JsonVal)>),
}

impl DeepView for JsonValue {
    type V = JsonVal;

    open spec fn deep_view(&self) -> JsonVal
        decreases self,
    {
        match self {
            JsonValue::Null => JsonVal::Null,
            JsonValue::Bool(b) => JsonVal::Bool(*b),
            JsonValue::Number(n) => JsonVal::Number(n@),
            JsonValue::Str(s) => JsonVal::Str(s@),
            JsonValue::Array(vs) => JsonVal::Array(deep_view_list(vs@)),
            JsonValue::Object(fields) => JsonVal::Object(deep_view_fields(fields@)),
        }
    }
}

/// The shapes of the values of an array, elementwise.
pub open spec fn deep_view_list(vs: Seq<JsonValue>) -> Seq<JsonVal>
    decreases vs,
{
    if vs.len() == 0 {
        Seq::empty()
    } else {
        seq![vs[0].deep_view()] + deep_view_list(vs.drop_first())
    }
}

/// The shapes of the fields of an object, elementwise.
pub open spec fn deep_view_fields(fs: Seq<(String, JsonValue)>) -> Seq<(Seq<char>, JsonVal)>
    decreases fs,
{
    if fs.len() == 0 {
        Seq::empty()
    } else {
        seq![(fs[0].0@, fs[0].1.deep_view())] + deep_view_fields(fs.drop_first())
    }
}

/// `deep_view_fields` is the elementwise shape of the fields.
pub proof fn lemma_deep_view_fields(fs: Seq<(String, JsonValue)>)
    ensures
        deep_view_fields(fs).len() == fs.len(),
        forall|i: int|
            0 <= i < fs.len() ==> #[trigger] deep_view_fields(fs)[i] == (
                fs[i].0@,
                fs[i].1.deep_view(),
            ),
    decreases fs.len(),
{
    reveal_with_fuel(deep_view_fields, 2);
    if fs.len() > 0 {
        lemma_deep_view_fields(fs.drop_first());
        assert forall|i: int| 0 <= i < fs.len() implies #[trigger] deep_view_fields(fs)[i] == (
            fs[i].0@,
            fs[i].1.deep_view(),
        ) by {
            if i > 0 {
                assert(deep_view_fields(fs)[i] == deep_view_fields(fs.drop_first())[i - 1]);
                assert(fs.drop_first()[i - 1] == fs[i]);
            }
        }
    }
}

/// The shape of one of the JSON parser's values: a function of the value
/// alone (its object fields come in the parser's key order).
pub uninterp spec fn json_view_of(v: serde_json::Value) -> JsonVal;

/// What the JSON stream parser yields on a text: the shapes of its
/// whitespace-separated top-level values, in order. A function of the text
/// alone.
pub uninterp spec fn json_values_of(text: Seq<char>) -> Seq<JsonVal>;

/// Whether the JSON stream parser accepts the whole text: a function of the
/// text alone.
pub uninterp spec fn json_parse_ok(text: Seq<char>) -> bool;

/// Relies on serde_json's streaming deserializer: the text is read as a
/// sequence of whitespace-separated top-level values, and the first
/// malformed one fails the whole read.
#[verifier::external_body]
fn parse_json_values(text: &str) -> (r: Result<Vec<serde_json::Value>, serde_json::Error>)
    ensures
        r is Ok <==> json_parse_ok(text@),
        r matches Ok(vs) ==> vs@.map(|i: int, v: serde_json::Value| json_view_of(v))
            == json_values_of(text@),
{
    let mut out: Vec<serde_json::Value> = Vec::new();
    for item in serde_json::Deserializer::from_str(text).into_iter::<serde_json::Value>() {
        out.push(item?);
    }
    Ok(out)
}

/// Relies on serde_json::Value's variants: each one moves to the library's
/// matching variant, numbers through their decimal rendering, object fields
/// in the map's own (key-sorted) order.
#[verifier::external_body]
fn convert_json(v: &serde_json::Value) -> (r: JsonValue)
    ensures
        r.deep_view() == json_view_of(*v),
{
    match v {
        serde_json::Value::Null => JsonValue::Null,
        serde_json::Value::Bool(b) => JsonValue::Bool(*b),
        serde_json::Value::Number(n) => JsonValue::Number(n.to_string()),
        serde_json::Value::String(s) => JsonValue::Str(s.clone()),
        serde_json::Value::Array(a) => JsonValue::Array(a.iter().map(convert_json).collect()),
        serde_json::Value::Object(m) => JsonValue::Object(
            m.iter().map(|(k, v)| (k.clone(), convert_json(v))).collect(),
        ),
    }
}

/// A nested key joined to the name of its enclosing objects: the parts are
/// separated by `_`, and the outermost object contributes no part.
pub open spec fn joined_name(prefix: Seq<char>, key: Seq<char>) -> Seq<char> {
    if prefix.len() == 0 {
        key
    } else {
        prefix + seq!['_'] + key
    }
}

/// The flattened column names contributed by an object's fields, in field
/// order: a nested object is replaced by its own flattened names, and every
/// other value (scalar, array or null) contributes its joined name.
pub open spec fn flat_names_fields(prefix: Seq<char>, fields: Seq<(Seq<char>, JsonVal)>) -> Seq<
    Seq<char>,
>
    decreases fields,
{
    if fields.len() == 0 {
        Seq::empty()
    } else {
        let name = joined_name(prefix, fields[0].0);
        (match fields[0].1 {
            JsonVal::Object(sub) => flat_names_fields(name, sub),
            _ => seq![name],
        }) + flat_names_fields(prefix, fields.drop_first())
    }
}

/// The column names contributed by one top-level value: only objects
/// contribute any.
pub open spec fn flat_names(v: JsonVal) -> Seq<Seq<char>> {
    match v {
        JsonVal::Object(fields) => flat_names_fields(Seq::empty(), fields),
        _ => Seq::empty(),
    }
}

/// The scalar rendered as bound SQL text: strings and numbers verbatim,
/// booleans as `1` or `0`.
pub open spec fn scalar_text(v: JsonVal) -> Seq<char> {
    match v {
        JsonVal::Str(s) => s,
        JsonVal::Number(n) => n,
        JsonVal::Bool(b) => if b {
            seq!['1']
        } else {
            seq!['0']
        },
        _ => Seq::empty(),
    }
}

/// The flattened (column name, bound text) pairs of an object's fields, in
/// field order: nested objects recurse, scalars bind, arrays and nulls are
/// dropped (no pair, so the column stays NULL).
pub open spec fn flat_pairs_fields(prefix: Seq<char>, fields: Seq<(Seq<char>, JsonVal)>) -> Seq<
    (Seq<char>, Seq<char>),
>
    decreases fields,
{
    if fields.len() == 0 {
        Seq::empty()
    } else {
        let name = joined_name(prefix, fields[0].0);
        (match fields[0].1 {
            JsonVal::Object(sub) => flat_pairs_fields(name, sub),
            JsonVal::Str(_) | JsonVal::Number(_) | JsonVal::Bool(_) => seq![
                (name, scalar_text(fields[0].1)),
            ],
            JsonVal::Null | JsonVal::Array(_) => Seq::empty(),
        }) + flat_pairs_fields(prefix, fields.drop_first())
    }
}

/// The (column name, bound text) pairs of one top-level value.
pub open spec fn flat_pairs(v: JsonVal) -> Seq<(Seq<char>, Seq<char>)> {
    match v {
        JsonVal::Object(fields) => flat_pairs_fields(Seq::empty(), fields),
        _ => Seq::empty(),
    }
}

/// Joins a key to its enclosing objects' name, as `joined_name` describes.
fn join_name(prefix: &String, key: &String) -> (r: String)
    ensures
        r@ == joined_name(prefix@, key@),
{
    if prefix.as_str().is_empty() {
        key.clone()
    } else {
        let mut r = prefix.clone();
        r.append("_");
        r.append(key.as_str());
        proof {
            reveal_strlit("_");
            assert("_"@ =~= seq!['_']);
        }
        r
    }
}

/// Appends the flattened column names of an object's fields to `out`, as
/// `flat_names_fields` describes.
fn collect_names(prefix: &String, fields: &Vec<(String, JsonValue)>, out: &mut Vec<String>)
    ensures
        final(out).deep_view() == old(out).deep_view() + flat_names_fields(
            prefix@,
            fields.deep_view(),
        ),
    decreases fields@,
{
    let ghost fs = fields.deep_view();
    let n = fields.len();
    let mut i: usize = 0;
    proof {
        assert(fs.skip(0) =~= fs);
        assert(out.deep_view() + flat_names_fields(prefix@, fs) =~~= old(out).deep_view()
            + flat_names_fields(prefix@, fs));
    }
    while i < n
        invariant
            i <= n,
            n == fields@.len(),
            fs == fields.deep_view(),
            fs.len() == fields@.len(),
            out.deep_view() + flat_names_fields(prefix@, fs.skip(i as int)) =~~= old(
                out,
            ).deep_view() + flat_names_fields(prefix@, fs),
        decreases n - i,
    {
        let pair = &fields[i];
        let name = join_name(prefix, &pair.0);
        let ghost pre = out.deep_view();
        proof {
            assert(fs[i as int] == fields@[i as int].deep_view());
            assert(fs.skip(i as int)[0] == fs[i as int]);
            assert(fs.skip(i as int).drop_first() =~= fs.skip(i + 1));
            assert(flat_names_fields(prefix@, fs.skip(i as int)) == (match fs[i as int].1 {
                JsonVal::Object(sub) => flat_names_fields(joined_name(prefix@, fs[i as int].0), sub),
                _ => seq![joined_name(prefix@, fs[i as int].0)],
            }) + flat_names_fields(prefix@, fs.skip(i + 1)));
        }
        match &pair.1 {
            JsonValue::Object(sub) => {
                proof {
                    assert(fs[i as int].1 == pair.1.deep_view());
                    let dv = pair.1.deep_view();
                    assert(dv is Object);
                    assert(pair.1->Object_0 == *sub);
                    let sv = dv->Object_0;
                    lemma_deep_view_fields(sub@);
                    assert(sv == deep_view_fields(sub@));
                    assert forall|k: int| 0 <= k < sub@.len() implies sv[k] == sub.deep_view()[k] by {
                        assert(sv[k] == (sub@[k].0@, sub@[k].1.deep_view()));
                        assert(sub.deep_view()[k] == sub@[k].deep_view());
                    }
                    assert(sv =~= sub.deep_view());
                }
                collect_names(&name, sub, out);
            },
            _ => {
                out.push(name);
                proof {
                    assert(out.deep_view() =~~= pre + seq![joined_name(prefix@, fs[i as int].0)]);
                }
            },
        }
        i = i + 1;
    }
    proof {
        assert(fs.skip(n as int) =~= Seq::<(Seq<char>, JsonVal)>::empty());
    }
}

/// Appends the flattened (name, bound text) pairs of an object's fields to
/// `out`, as `flat_pairs_fields` describes.
fn collect_pairs(prefix: &String, fields: &Vec<(String, JsonValue)>, out: &mut Vec<(String, String)>)
    ensures
        final(out).deep_view() == old(out).deep_view() + flat_pairs_fields(
            prefix@,
            fields.deep_view(),
        ),
    decreases fields@,
{
    let ghost fs = fields.deep_view();
    let n = fields.len();
    let mut i: usize = 0;
    proof {
        assert(fs.skip(0) =~= fs);
        assert(out.deep_view() + flat_pairs_fields(prefix@, fs) =~~= old(out).deep_view()
            + flat_pairs_fields(prefix@, fs));
    }
    while i < n
        invariant
            i <= n,
            n == fields@.len(),
            fs == fields.deep_view(),
            fs.len() == fields@.len(),
            out.deep_view() + flat_pairs_fields(prefix@, fs.skip(i as int)) =~~= old(
                out,
            ).deep_view() + flat_pairs_fields(prefix@, fs),
        decreases n - i,
    {
        let pair = &fields[i];
        let name = join_name(prefix, &pair.0);
        let ghost pre = out.deep_view();
        proof {
            assert(fs[i as int] == fields@[i as int].deep_view());
            assert(fs.skip(i as int)[0] == fs[i as int]);
            assert(fs.skip(i as int).drop_first() =~= fs.skip(i + 1));
            assert(flat_pairs_fields(prefix@, fs.skip(i as int)) == (match fs[i as int].1 {
                JsonVal::Object(sub) => flat_pairs_fields(joined_name(prefix@, fs[i as int].0), sub),
                JsonVal::Str(_) | JsonVal::Number(_) | JsonVal::Bool(_) => seq![
                    (joined_name(prefix@, fs[i as int].0), scalar_text(fs[i as int].1)),
                ],
                JsonVal::Null | JsonVal::Array(_) => Seq::empty(),
            }) + flat_pairs_fields(prefix@, fs.skip(i + 1)));
            assert(fs[i as int].1 == pair.1.deep_view());
        }
        match &pair.1 {
            JsonValue::Object(sub) => {
                proof {
                    let dv = pair.1.deep_view();
                    assert(dv is Object);
                    assert(pair.1->Object_0 == *sub);
                    let sv = dv->Object_0;
                    lemma_deep_view_fields(sub@);
                    assert(sv == deep_view_fields(sub@));
                    assert forall|k: int| 0 <= k < sub@.len() implies sv[k] == sub.deep_view()[k] by {
                        assert(sv[k] == (sub@[k].0@, sub@[k].1.deep_view()));
                        assert(sub.deep_view()[k] == sub@[k].deep_view());
                    }
                    assert(sv =~= sub.deep_view());
                }
                collect_pairs(&name, sub, out);
            },
            JsonValue::Str(s) => {
                out.push((name, s.clone()));
                proof {
                    assert(out.deep_view() =~~= pre + seq![
                        (joined_name(prefix@, fs[i as int].0), scalar_text(fs[i as int].1)),
                    ]);
                }
            },
            JsonValue::Number(v) => {
                out.push((name, v.clone()));
                proof {
                    assert(out.deep_view() =~~= pre + seq![
                        (joined_name(prefix@, fs[i as int].0), scalar_text(fs[i as int].1)),
                    ]);
                }
            },
            JsonValue::Bool(b) => {
                let text = if *b {
                    String::from_str("1")
                } else {
                    String::from_str("0")
                };
                proof {
                    reveal_strlit("1");
                    reveal_strlit("0");
                    assert("1"@ =~= seq!['1']);
                    assert("0"@ =~= seq!['0']);
                }
                out.push((name, text));
                proof {
                    assert(out.deep_view() =~~= pre + seq![
                        (joined_name(prefix@, fs[i as int].0), scalar_text(fs[i as int].1)),
                    ]);
                }
            },
            JsonValue::Null => {
                proof {
                    assert(out.deep_view() =~~= pre + Seq::<(Seq<char>, Seq<char>)>::empty());
                }
            },
            JsonValue::Array(_) => {
                proof {
                    assert(out.deep_view() =~~= pre + Seq::<(Seq<char>, Seq<char>)>::empty());
                }
            },
        }
        i = i + 1;
    }
    proof {
        assert(fs.skip(n as int) =~= Seq::<(Seq<char>, JsonVal)>::empty());
    }
}


/// The header accumulated over a stream of values, in order.
pub open spec fn header_fold(acc: Seq<Seq<char>>, vals: Seq<JsonVal>) -> Seq<Seq<char>>
    decreases vals.len(),
{
    if vals.len() == 0 {
        acc
    } else {
        header_fold(dedup_insert(acc, flat_names(vals[0])), vals.drop_first())
    }
}

/// How many leading top-level values the header pass samples: one more than
/// the configured count, capped at the stream's length.
pub open spec fn sample_count(n: int, guess: int) -> int {
    if guess >= n {
        n
    } else {
        guess + 1
    }
}

/// The discovered JSON header: the union of the flattened key sets of the
/// sampled leading values, first appearance first. Keys that first appear
/// after the sampling window are lost to the schema.
pub open spec fn json_header(vals: Seq<JsonVal>, guess: int) -> Seq<Seq<char>> {
    header_fold(Seq::empty(), vals.take(sample_count(vals.len() as int, guess)))
}

/// Discovers the JSON header, as `json_header` describes.
pub fn header(values: &Vec<JsonValue>, guess_lines: usize) -> (r: Vec<String>)
    ensures
        r.deep_view() == json_header(values.deep_view(), guess_lines as int),
{
    let ghost vals = values.deep_view();
    let n = values.len();
    let limit = if guess_lines >= n {
        n
    } else {
        guess_lines + 1
    };
    let ghost sample = vals.take(sample_count(vals.len() as int, guess_lines as int));
    proof {
        assert(vals.len() == values@.len());
        assert(sample.len() == limit as int);
        assert(sample.skip(0) =~= sample);
    }
    let mut acc: Vec<String> = Vec::new();
    let mut vi: usize = 0;
    proof {
        assert(acc.deep_view() =~= Seq::<Seq<char>>::empty());
    }
    while vi < limit
        invariant
            vi <= limit,
            limit <= n,
            n == values@.len(),
            vals == values.deep_view(),
            vals.len() == values@.len(),
            sample == vals.take(sample_count(vals.len() as int, guess_lines as int)),
            sample.len() == limit as int,
            header_fold(acc.deep_view(), sample.skip(vi as int)) == header_fold(
                Seq::empty(),
                sample,
            ),
        decreases limit - vi,
    {
        let mut names: Vec<String> = Vec::new();
        let empty_prefix = String::new();
        match &values[vi] {
            JsonValue::Object(fields) => {
                proof {
                    assert(values@[vi as int].deep_view() == vals[vi as int]);
                    assert(values@[vi as int]->Object_0 == *fields);
                    lemma_deep_view_fields(fields@);
                    assert forall|k: int| 0 <= k < fields@.len() implies deep_view_fields(
                        fields@,
                    )[k] == fields.deep_view()[k] by {
                        assert(fields.deep_view()[k] == fields@[k].deep_view());
                    }
                    assert(deep_view_fields(fields@) =~= fields.deep_view());
                    assert(flat_names(vals[vi as int]) == flat_names_fields(
                        Seq::empty(),
                        fields.deep_view(),
                    ));
                }
                collect_names(&empty_prefix, fields, &mut names);
                proof {
                    assert(names.deep_view() =~= flat_names(vals[vi as int]));
                }
            },
            _ => {
                proof {
                    assert(values@[vi as int].deep_view() == vals[vi as int]);
                    assert(flat_names(vals[vi as int]) =~= Seq::<Seq<char>>::empty());
                    assert(names.deep_view() =~= flat_names(vals[vi as int]));
                }
            },
        }
        let ghost nm = names.deep_view();
        let ghost mid = acc.deep_view();
        let m = names.len();
        let mut k: usize = 0;
        proof {
            assert(nm.skip(0) =~= nm);
        }
        while k < m
            invariant
                k <= m,
                m == names@.len(),
                nm == names.deep_view(),
                nm.len() == names@.len(),
                dedup_insert(acc.deep_view(), nm.skip(k as int)) == dedup_insert(mid, nm),
            decreases m - k,
        {
            let ghost pre = acc.deep_view();
            let present = contains_name(&acc, &names[k]);
            proof {
                assert(nm.skip(k as int)[0] == nm[k as int]);
                assert(nm[k as int] == names@[k as int]@);
                assert(nm.skip(k as int).drop_first() =~= nm.skip(k + 1));
            }
            if !present {
                acc.push(names[k].clone());
                proof {
                    assert(acc.deep_view() =~= pre.push(nm[k as int]));
                }
            }
            k = k + 1;
        }
        proof {
            assert(nm.skip(m as int) =~= Seq::<Seq<char>>::empty());
            assert(dedup_insert(acc.deep_view(), nm.skip(m as int)) == acc.deep_view());
            assert(sample.skip(vi as int)[0] == vals[vi as int]);
            assert(sample.skip(vi as int).drop_first() =~= sample.skip(vi + 1));
        }
        vi = vi + 1;
    }
    proof {
        assert(sample.skip(limit as int) =~= Seq::<JsonVal>::empty());
    }
    acc
}


/// The row inserts of the first `k` top-level values: one row of flattened
/// (name, bound text) pairs per object value; every other value contributes
/// no row.
pub open spec fn json_rows_upto(vals: Seq<JsonVal>, k: int) -> Seq<Seq<(Seq<char>, Seq<char>)>>
    decreases k,
{
    if k <= 0 {
        Seq::empty()
    } else {
        json_rows_upto(vals, k - 1) + (if vals[k - 1] is Object {
            seq![flat_pairs(vals[k - 1])]
        } else {
            Seq::empty()
        })
    }
}

/// The row inserts of a stream of top-level values.
pub open spec fn json_rows(vals: Seq<JsonVal>) -> Seq<Seq<(Seq<char>, Seq<char>)>> {
    json_rows_upto(vals, vals.len() as int)
}

/// The sampling window of the header pass: the configured line count, or its
/// default.
pub open spec fn sample_limit(c: Config) -> int {
    match c.guess_lines {
        Option::Some(l) => l as int,
        Option::None => 100,
    }
}

/// A row's pairs restricted to the discovered header: keys that first appear
/// after the sampling window have no column, so their pairs are dropped and
/// the row binds only the recognized subset.
pub open spec fn header_pairs(row: Seq<(Seq<char>, Seq<char>)>, header: Seq<Seq<char>>) -> Seq<
    (Seq<char>, Seq<char>),
> {
    row.filter(|p: (Seq<char>, Seq<char>)| header.contains(p.0))
}

/// What a JSON ingestion plan holds for the top-level values `vals`: the
/// dropped and recreated table over the sampled header, every column typed
/// `Text`, and one keyed insert per object value, binding exactly the row's
/// pairs whose keys the header recognizes; a row with none left inserts all
/// NULLs.
pub open spec fn json_plan_ok(g: Ingestion, vals: Seq<JsonVal>, guess: int) -> bool {
    let header = json_header(vals, guess);
    let rows = json_rows(vals);
    &&& g.clear@ == "DROP TABLE IF EXISTS n"@
    &&& g.create@ == create_table_chars(header, Seq::new(header.len(), |i: int| Type::Text))
    &&& g.inserts@.len() == rows.len()
    &&& forall|i: int|
        0 <= i < rows.len() ==> (#[trigger] g.inserts@[i]).sql@ == (if header_pairs(
            rows[i],
            header,
        ).len() == 0 {
            "INSERT INTO n DEFAULT VALUES"@
        } else {
            insert_named_chars(
                header_pairs(rows[i], header).map(|j: int, p: (Seq<char>, Seq<char>)| p.0),
            )
        })
    &&& forall|i: int|
        0 <= i < rows.len() ==> (#[trigger] g.inserts@[i]).params.deep_view() == header_pairs(
            rows[i],
            header,
        ).map(|j: int, p: (Seq<char>, Seq<char>)| p.1)
}

/// Builds the JSON ingestion plan from a stream of parsed values, as
/// `json_plan_ok` describes.
pub fn json_plan(values: &Vec<JsonValue>, config: &Config) -> (r: Ingestion)
    ensures
        json_plan_ok(r, values.deep_view(), sample_limit(*config)),
{
    let ghost vals = values.deep_view();
    let guess = match config.guess_lines {
        Option::Some(l) => l,
        Option::None => 100,
    };
    let names = header(values, guess);
    let mut name_chars: Vec<Vec<char>> = Vec::new();
    let hn = names.len();
    let mut i: usize = 0;
    while i < hn
        invariant
            i <= hn,
            hn == names@.len(),
            name_chars@.len() == i,
            forall|k: int| 0 <= k < i ==> #[trigger] name_chars@[k]@ == names@[k]@,
        decreases hn - i,
    {
        name_chars.push(str_chars(names[i].as_str()));
        i = i + 1;
    }
    let mut types: Vec<Type> = Vec::new();
    let mut i: usize = 0;
    while i < hn
        invariant
            i <= hn,
            types@ == Seq::new(i as nat, |k: int| Type::Text),
        decreases hn - i,
    {
        types.push(Type::Text);
        i = i + 1;
        proof {
            assert(types@ =~= Seq::new(i as nat, |k: int| Type::Text));
        }
    }
    let ghost hdr = json_header(vals, sample_limit(*config));
    proof {
        assert forall|k: int| 0 <= k < hn implies name_chars.deep_view()[k] == hdr[k] by {
            assert(name_chars@[k]@ == names@[k]@);
            assert(names.deep_view()[k] == names@[k]@);
        }
        assert(names.deep_view().len() == hdr.len());
        assert(name_chars.deep_view() =~~= hdr);
        assert(types@ =~= Seq::new(hdr.len(), |k: int| Type::Text));
    }
    let create = create_table_sql(&name_chars, &types);
    let n = values.len();
    let mut inserts: Vec<Insert> = Vec::new();
    let mut vi: usize = 0;
    proof {
        assert(vals.len() == values@.len());
    }
    while vi < n
        invariant
            vi <= n,
            n == values@.len(),
            vals == values.deep_view(),
            vals.len() == values@.len(),
            names.deep_view() == hdr,
            inserts@.len() == json_rows_upto(vals, vi as int).len(),
            forall|k: int|
                0 <= k < inserts@.len() ==> (#[trigger] inserts@[k]).sql@ == (if header_pairs(
                    json_rows_upto(vals, vi as int)[k],
                    hdr,
                ).len() == 0 {
                    "INSERT INTO n DEFAULT VALUES"@
                } else {
                    insert_named_chars(
                        header_pairs(json_rows_upto(vals, vi as int)[k], hdr).map(
                            |j: int, p: (Seq<char>, Seq<char>)| p.0,
                        ),
                    )
                }),
            forall|k: int|
                0 <= k < inserts@.len() ==> (#[trigger] inserts@[k]).params.deep_view()
                    == header_pairs(json_rows_upto(vals, vi as int)[k], hdr).map(
                    |j: int, p: (Seq<char>, Seq<char>)| p.1,
                ),
        decreases n - vi,
    {
        let ghost upto_pre = json_rows_upto(vals, vi as int);
        match &values[vi] {
            JsonValue::Object(fields) => {
                let mut pairs: Vec<(String, String)> = Vec::new();
                let empty_prefix = String::new();
                proof {
                    assert(values@[vi as int].deep_view() == vals[vi as int]);
                    assert(values@[vi as int]->Object_0 == *fields);
                    lemma_deep_view_fields(fields@);
                    assert forall|k: int| 0 <= k < fields@.len() implies deep_view_fields(
                        fields@,
                    )[k] == fields.deep_view()[k] by {
                        assert(fields.deep_view()[k] == fields@[k].deep_view());
                    }
                    assert(deep_view_fields(fields@) =~= fields.deep_view());
                    assert(pairs.deep_view() =~= Seq::<(Seq<char>, Seq<char>)>::empty());
                }
                collect_pairs(&empty_prefix, fields, &mut pairs);
                let ghost row = flat_pairs(vals[vi as int]);
                proof {
                    assert(pairs.deep_view() =~= row);
                }
                // keep only the pairs whose key has a column
                let ghost pred = |p: (Seq<char>, Seq<char>)| hdr.contains(p.0);
                let ghost kept = header_pairs(row, hdr);
                let np = pairs.len();
                let mut fpairs: Vec<(String, String)> = Vec::new();
                let mut k: usize = 0;
                proof {
                    reveal(Seq::filter);
                    assert(row.take(0) =~= Seq::<(Seq<char>, Seq<char>)>::empty());
                    assert(fpairs.deep_view() =~~= row.take(0).filter(pred));
                }
                while k < np
                    invariant
                        k <= np,
                        np == pairs@.len(),
                        row == pairs.deep_view(),
                        row.len() == pairs@.len(),
                        names.deep_view() == hdr,
                        pred == (|p: (Seq<char>, Seq<char>)| hdr.contains(p.0)),
                        fpairs.deep_view() =~~= row.take(k as int).filter(pred),
                    decreases np - k,
                {
                    let ghost pre = fpairs.deep_view();
                    proof {
                        assert(pairs.deep_view()[k as int] == pairs@[k as int].deep_view());
                    }
                    if contains_name(&names, &pairs[k].0) {
                        fpairs.push((pairs[k].0.clone(), pairs[k].1.clone()));
                        proof {
                            assert(fpairs.deep_view() =~~= pre.push(row[k as int]));
                        }
                    }
                    k = k + 1;
                    proof {
                        reveal(Seq::filter);
                        let t = row.take(k as int);
                        assert(t.drop_last() =~= row.take(k - 1));
                        assert(t.last() == row[k - 1]);
                        assert(pred(row[k - 1]) == hdr.contains(row[k - 1].0));
                        assert(fpairs.deep_view() =~~= t.filter(pred));
                    }
                }
                proof {
                    assert(row.take(np as int) =~= row);
                    assert(fpairs.deep_view() =~~= kept);
                }
                let nf = fpairs.len();
                let mut row_names: Vec<Vec<char>> = Vec::new();
                let mut params: Vec<String> = Vec::new();
                let mut k: usize = 0;
                while k < nf
                    invariant
                        k <= nf,
                        nf == fpairs@.len(),
                        kept == fpairs.deep_view(),
                        kept.len() == fpairs@.len(),
                        row_names@.len() == k,
                        params@.len() == k,
                        forall|j: int| 0 <= j < k ==> #[trigger] row_names@[j]@ == kept[j].0,
                        forall|j: int| 0 <= j < k ==> #[trigger] params@[j]@ == kept[j].1,
                    decreases nf - k,
                {
                    proof {
                        assert(fpairs.deep_view()[k as int] == fpairs@[k as int].deep_view());
                    }
                    row_names.push(str_chars(fpairs[k].0.as_str()));
                    params.push(fpairs[k].1.clone());
                    k = k + 1;
                }
                let sql = if nf == 0 {
                    crate::sql::insert_default_sql()
                } else {
                    insert_named_sql(&row_names)
                };
                proof {
                    assert forall|j: int| 0 <= j < nf implies row_names.deep_view()[j] == kept.map(
                        |j2: int, p: (Seq<char>, Seq<char>)| p.0,
                    )[j] by {
                        assert(row_names@[j]@ == kept[j].0);
                    }
                    assert(row_names.deep_view() =~~= kept.map(
                        |j2: int, p: (Seq<char>, Seq<char>)| p.0,
                    ));
                    assert forall|j: int| 0 <= j < nf implies params.deep_view()[j] == kept.map(
                        |j2: int, p: (Seq<char>, Seq<char>)| p.1,
                    )[j] by {
                        assert(params@[j]@ == kept[j].1);
                    }
                    assert(params.deep_view() =~~= kept.map(
                        |j2: int, p: (Seq<char>, Seq<char>)| p.1,
                    ));
                }
                inserts.push(Insert { sql, params });
                proof {
                    assert(json_rows_upto(vals, vi + 1) == upto_pre + seq![row]);
                }
            },
            _ => {
                proof {
                    assert(values@[vi as int].deep_view() == vals[vi as int]);
                    assert(!(vals[vi as int] is Object));
                    assert(json_rows_upto(vals, vi + 1) =~= upto_pre);
                }
            },
        }
        vi = vi + 1;
    }
    Ingestion { clear: drop_table_sql(), create, inserts }
}

/// Loads a JSON-lines text: succeeds exactly when the parser accepts the
/// whole text, building the ingestion plan; a parse failure carries the
/// parser's error.
pub fn load_json(text: &str, config: &Config) -> (r: Result<Ingestion, AppError>)
    ensures
        r is Ok <==> json_parse_ok(text@),
        r matches Ok(g) ==> json_plan_ok(g, json_values_of(text@), sample_limit(*config)),
        r matches Err(e) ==> e matches AppError::Json(_) && !json_parse_ok(text@),
{
    match parse_json_values(text) {
        Ok(vs) => {
            let n = vs.len();
            let mut values: Vec<JsonValue> = Vec::new();
            let mut i: usize = 0;
            while i < n
                invariant
                    i <= n,
                    n == vs@.len(),
                    values@.len() == i,
                    forall|k: int|
                        0 <= k < i ==> #[trigger] values@[k].deep_view() == json_view_of(vs@[k]),
                decreases n - i,
            {
                values.push(convert_json(&vs[i]));
                i = i + 1;
            }
            proof {
                let mapped = vs@.map(|i2: int, v: serde_json::Value| json_view_of(v));
                assert forall|k: int| 0 <= k < n implies values.deep_view()[k] == mapped[k] by {
                    assert(values@[k].deep_view() == json_view_of(vs@[k]));
                }
                assert(values.deep_view() =~= mapped);
            }
            Ok(json_plan(&values, config))
        },
        Err(e) => Err(AppError::Json(e)),
    }
}

} // verus!
