//! The RON format adapter: parses RON text through the `ron` crate and
//! translates the resulting dynamic value into the library's canonical
//! tree, tagging every node with the document's origin.
//!
//! Only the two calls into `ron` (parsing, and reading one level of a
//! `ron::Value`) are trusted; the recursive translation itself is
//! verified against [`from_ron_spec`].

use vstd::prelude::*;

use ron::Value as RonValue;

use crate::value::Value as TreeValue;
use crate::value::{rows_view, spec_insert, table_insert, Node, NodeKind, ValueKind};

verus! {

#[verifier::external_type_specification]
#[verifier::external_body]
pub struct ExRonValue(RonValue);

/// Spec-level model of a `ron::Value`: what the crate's tagged union
/// holds, one constructor per form. A RON `char` is modelled as the
/// one-character string it is handed out as.
pub enum RonV {
    Unit,
    Bool(bool),
    Int(int),
    Float(u64),
    Str(Seq<char>),
    OptNone,
    OptSome(Box<RonV>),
    List(Seq<RonV>),
    Entries(Seq<(RonV, RonV)>),
}

/// The model of what a `ron::Value` holds.
pub uninterp spec fn ron_model(v: ron::Value) -> RonV;

/// The model of what parsing a RON document yields: the parsed value's
/// model, or — when the text is not well-formed RON — the parser's own
/// error message.
pub uninterp spec fn ron_doc(text: Seq<char>) -> Result<RonV, Seq<char>>;

/// One level of a `ron::Value`, handed out as plain data; children stay
/// opaque `ron::Value`s.
pub enum RonStep {
    Unit,
    Bool(bool),
    Int(i64),
    Float(u64),
    Str(String),
    OptNone,
    OptSome(ron::Value),
    List(Vec<ron::Value>),
    Entries(Vec<(ron::Value, ron::Value)>),
}

/// Relies on ron::from_str::<ron::Value>: parses the text, or fails
/// exactly when the text is not well-formed RON, handing back the
/// parser's message; both depend on the text alone.
#[verifier::external_body]
fn ron_from_str(text: &str) -> (r: Result<ron::Value, String>)
    ensures
        match r {
            Result::Ok(v) => ron_doc(text@) == Result::Ok::<RonV, Seq<char>>(ron_model(v)),
            Result::Err(msg) => ron_doc(text@) == Result::Err::<RonV, Seq<char>>(msg@),
        },
{
    match ron::from_str::<ron::Value>(text) {
        Result::Ok(v) => Result::Ok(v),
        Result::Err(e) => Result::Err(e.to_string()),
    }
}

/// Relies on matching ron::Value's variants, one arm each: numbers split
/// into integer and float (kept as raw bits via f64::to_bits), a char
/// becomes its one-character string via char::to_string, and map entries
/// come out in the map's iteration order.
#[verifier::external_body]
fn classify(v: ron::Value) -> (r: RonStep)
    ensures
        match r {
            RonStep::Unit => ron_model(v) == RonV::Unit,
            RonStep::Bool(b) => ron_model(v) == RonV::Bool(b),
            RonStep::Int(i) => ron_model(v) == RonV::Int(i as int),
            RonStep::Float(bits) => ron_model(v) == RonV::Float(bits),
            RonStep::Str(s) => ron_model(v) == RonV::Str(s@),
            RonStep::OptNone => ron_model(v) == RonV::OptNone,
            RonStep::OptSome(inner) => ron_model(v) == RonV::OptSome(Box::new(ron_model(inner))),
            RonStep::List(vs) => ron_model(v) == RonV::List(
                vs@.map_values(|e: ron::Value| ron_model(e)),
            ),
            RonStep::Entries(ps) => ron_model(v) == RonV::Entries(
                ps@.map_values(|p: (ron::Value, ron::Value)| (ron_model(p.0), ron_model(p.1))),
            ),
        },
{
    match v {
        ron::Value::Unit => RonStep::Unit,
        ron::Value::Bool(b) => RonStep::Bool(b),
        ron::Value::Number(ron::Number::Integer(i)) => RonStep::Int(i),
        ron::Value::Number(ron::Number::Float(f)) => RonStep::Float(f.get().to_bits()),
        ron::Value::Char(c) => RonStep::Str(c.to_string()),
        ron::Value::String(s) => RonStep::Str(s),
        ron::Value::Option(Option::None) => RonStep::OptNone,
        ron::Value::Option(Option::Some(b)) => RonStep::OptSome(*b),
        ron::Value::Seq(vs) => RonStep::List(vs),
        ron::Value::Map(m) => RonStep::Entries(m.into_iter().collect()),
    }
}

/// A failure of the adapter: the underlying parser's message, or a map
/// key that is not a string, together with the origin of the failing
/// document when it has one.
#[derive(Debug, PartialEq)]
pub struct AdapterError {
    pub message: String,
    pub origin: Option<String>,
}

/// A copy of the document's origin for an error report.
fn uri_owned(uri: Option<&String>) -> (r: Option<String>)
    ensures
        crate::value::origin_view(r) == uri_view(uri),
{
    match uri {
        Option::Some(u) => Option::Some(u.clone()),
        Option::None => Option::None,
    }
}

pub open spec fn uri_view(uri: Option<&String>) -> Option<Seq<char>> {
    match uri {
        Option::Some(u) => Option::Some(u@),
        Option::None => Option::None,
    }
}

/// What translating a modelled RON value into the canonical tree yields:
/// `Unit` and a missing option become `Nil`, a present option is
/// unwrapped, lists become arrays, and maps become tables whose keys must
/// be strings (otherwise the translation fails); every node carries the
/// document's origin.
pub open spec fn from_ron_spec(org: Option<Seq<char>>, m: RonV) -> Option<Node>
    decreases m,
{
    match m {
        RonV::Unit => Option::Some(Node { origin: org, kind: NodeKind::Nil }),
        RonV::OptNone => Option::Some(Node { origin: org, kind: NodeKind::Nil }),
        RonV::OptSome(inner) => match from_ron_spec(org, *inner) {
            Option::Some(n) => Option::Some(Node { origin: org, kind: n.kind }),
            Option::None => Option::None,
        },
        RonV::Bool(b) => Option::Some(Node { origin: org, kind: NodeKind::Boolean(b) }),
        RonV::Int(i) => Option::Some(Node { origin: org, kind: NodeKind::Integer(i) }),
        RonV::Float(bits) => Option::Some(Node { origin: org, kind: NodeKind::Float(bits) }),
        RonV::Str(s) => Option::Some(Node { origin: org, kind: NodeKind::Str(s) }),
        RonV::List(ms) => match ron_seq_spec(org, ms) {
            Option::Some(ns) => Option::Some(Node { origin: org, kind: NodeKind::Array(ns) }),
            Option::None => Option::None,
        },
        RonV::Entries(pairs) => match ron_table_acc(org, pairs, Seq::empty()) {
            Option::Some(rows) => Option::Some(
                Node { origin: org, kind: NodeKind::Table(rows) },
            ),
            Option::None => Option::None,
        },
    }
}

/// List elements translated in order; the first failure wins.
pub open spec fn ron_seq_spec(org: Option<Seq<char>>, ms: Seq<RonV>) -> Option<Seq<Node>>
    decreases ms,
{
    if ms.len() == 0 {
        Option::Some(Seq::empty())
    } else {
        match from_ron_spec(org, ms[0]) {
            Option::Some(n) => match ron_seq_spec(org, ms.drop_first()) {
                Option::Some(ns) => Option::Some(seq![n] + ns),
                Option::None => Option::None,
            },
            Option::None => Option::None,
        }
    }
}

/// Map entries folded left to right into a table: each key must be a
/// string, and a repeated key replaces the earlier value in place.
pub open spec fn ron_table_acc(
    org: Option<Seq<char>>,
    pairs: Seq<(RonV, RonV)>,
    acc: Seq<(Seq<char>, Node)>,
) -> Option<Seq<(Seq<char>, Node)>>
    decreases pairs,
{
    if pairs.len() == 0 {
        Option::Some(acc)
    } else {
        match pairs[0].0 {
            RonV::Str(k) => match from_ron_spec(org, pairs[0].1) {
                Option::Some(n) => ron_table_acc(
                    org,
                    pairs.drop_first(),
                    spec_insert(acc, k, n),
                ),
                Option::None => Option::None,
            },
            _ => Option::None,
        }
    }
}

/// Translates one parsed RON value into a canonical tree node, tagging
/// every node with `uri`; fails exactly where [`from_ron_spec`] does, on
/// a map key that is not a string (a RON char counts as a string).
#[verifier::loop_isolation(false)]
pub fn from_ron_value(uri: Option<&String>, value: ron::Value) -> (r: Result<TreeValue, AdapterError>)
    ensures
        match r {
            Result::Ok(v) => from_ron_spec(uri_view(uri), ron_model(value)) == Option::Some(v@),
            Result::Err(e) => from_ron_spec(uri_view(uri), ron_model(value)) is None
                && e.message@ == "map key must be a string"@
                && crate::value::origin_view(e.origin) == uri_view(uri),
        },
    decreases ron_model(value),
{
    let ghost m = ron_model(value);
    match classify(value) {
        RonStep::Unit => Result::Ok(TreeValue::new(uri, ValueKind::Nil)),
        RonStep::OptNone => Result::Ok(TreeValue::new(uri, ValueKind::Nil)),
        RonStep::OptSome(inner) => {
            proof {
                assert(decreases_to!(m => ron_model(inner)));
            }
            match from_ron_value(uri, inner) {
                Result::Ok(v) => {
                    let TreeValue { origin: _o, kind } = v;
                    Result::Ok(TreeValue::new(uri, kind))
                },
                Result::Err(e) => Result::Err(e),
            }
        },
        RonStep::Bool(b) => Result::Ok(TreeValue::new(uri, ValueKind::Boolean(b))),
        RonStep::Int(i) => Result::Ok(TreeValue::new(uri, ValueKind::Integer(i))),
        RonStep::Float(bits) => Result::Ok(TreeValue::new(uri, ValueKind::Float(bits))),
        RonStep::Str(s) => Result::Ok(TreeValue::new(uri, ValueKind::Str(s))),
        RonStep::List(vs) => {
            let ghost ms = vs@.map_values(|e: ron::Value| ron_model(e));
            let mut vs = vs;
            let mut out: Vec<TreeValue> = Vec::new();
            let ghost mut k: int = 0;
            proof {
                assert(ms.skip(0) =~= ms);
                assert(crate::value::array_view(Seq::<TreeValue>::empty()) =~= Seq::<Node>::empty());
            }
            while vs.len() > 0
                invariant
                    0 <= k <= ms.len(),
                    vs@.len() == ms.len() - k,
                    forall|j: int| 0 <= j < vs@.len() ==> ron_model(vs@[j]) == ms[k + j],
                    out@.len() == k,
                    match ron_seq_spec(uri_view(uri), ms.skip(k)) {
                        Option::Some(ns) => ron_seq_spec(uri_view(uri), ms) == Option::Some(
                            crate::value::array_view(out@) + ns,
                        ),
                        Option::None => ron_seq_spec(uri_view(uri), ms) is None,
                    },
                decreases vs@.len(),
            {
                let ghost rest = ms.skip(k);
                proof {
                    assert(rest[0] == ms[k]);
                    assert(rest.drop_first() =~= ms.skip(k + 1));
                    assert(decreases_to!(m => ms));
                    assert(decreases_to!(ms => ms[k]));
                    assert(ron_model(vs@[0]) == ms[k]);
                }
                let elem = vs.remove(0);
                match from_ron_value(uri, elem) {
                    Result::Ok(v) => {
                        let ghost out0 = out@;
                        out.push(v);
                        proof {
                            crate::value::lemma_array_view(out@);
                            crate::value::lemma_array_view(out0);
                            assert(crate::value::array_view(out@) =~= crate::value::array_view(
                                out0,
                            ) + seq![v@]);
                            assert forall|ns2: Seq<Node>|
                                (crate::value::array_view(out0) + (seq![v@] + ns2)) =~= (
                                crate::value::array_view(out@) + ns2) by {};
                            k = k + 1;
                        }
                    },
                    Result::Err(e) => {
                        return Result::Err(e);
                    },
                }
            }
            proof {
                assert(ms.skip(ms.len() as int) =~= Seq::<RonV>::empty());
                assert(crate::value::array_view(out@) + Seq::<Node>::empty()
                    =~= crate::value::array_view(out@));
            }
            Result::Ok(TreeValue::new(uri, ValueKind::Array(out)))
        },
        RonStep::Entries(ps) => {
            let ghost mps = ps@.map_values(
                |p: (ron::Value, ron::Value)| (ron_model(p.0), ron_model(p.1)),
            );
            let mut ps = ps;
            let mut rows: Vec<(String, TreeValue)> = Vec::new();
            let ghost mut k: int = 0;
            proof {
                assert(mps.skip(0) =~= mps);
                assert(rows_view(Seq::<(String, TreeValue)>::empty()) =~= Seq::<
                    (Seq<char>, Node),
                >::empty());
            }
            while ps.len() > 0
                invariant
                    0 <= k <= mps.len(),
                    ps@.len() == mps.len() - k,
                    forall|j: int|
                        0 <= j < ps@.len() ==> (ron_model(ps@[j].0), ron_model(ps@[j].1))
                            == mps[k + j],
                    match ron_table_acc(uri_view(uri), mps.skip(k), rows_view(rows@)) {
                        Option::Some(t) => ron_table_acc(
                            uri_view(uri),
                            mps,
                            Seq::empty(),
                        ) == Option::Some(t),
                        Option::None => ron_table_acc(uri_view(uri), mps, Seq::empty()) is None,
                    },
                decreases ps@.len(),
            {
                let ghost rest = mps.skip(k);
                proof {
                    assert(rest[0] == mps[k]);
                    assert(rest.drop_first() =~= mps.skip(k + 1));
                    assert(decreases_to!(m => mps));
                    assert(decreases_to!(mps => mps[k]));
                    assert(decreases_to!(mps[k] => mps[k].1));
                    assert((ron_model(ps@[0].0), ron_model(ps@[0].1)) == mps[k]);
                }
                let pair = ps.remove(0);
                let key = match classify(pair.0) {
                    RonStep::Str(s) => s,
                    _ => {
                        return Result::Err(AdapterError {
                            message: map_key_message(),
                            origin: uri_owned(uri),
                        });
                    },
                };
                match from_ron_value(uri, pair.1) {
                    Result::Ok(v) => {
                        proof {
                            k = k + 1;
                        }
                        table_insert(&mut rows, key, v);
                    },
                    Result::Err(e) => {
                        return Result::Err(e);
                    },
                }
            }
            proof {
                assert(mps.skip(mps.len() as int) =~= Seq::<(RonV, RonV)>::empty());
            }
            Result::Ok(TreeValue::new(uri, ValueKind::Table(rows)))
        },
    }
}

/// The message of the one failure the translation itself produces.
fn map_key_message() -> (r: String)
    ensures
        r@ == "map key must be a string"@,
{
    String::from_str("map key must be a string")
}

/// What parsing a whole document yields: the root table's entries for a
/// conforming document, an empty table for an empty document (`Nil`
/// root), and nothing when parsing or translation fails or when a
/// well-formed document's root is any other kind — a conforming
/// document's root must be a table.
pub open spec fn parse_spec(org: Option<Seq<char>>, text: Seq<char>) -> Option<
    Seq<(Seq<char>, Node)>,
> {
    match ron_doc(text) {
        Result::Err(_) => Option::None,
        Result::Ok(m) => match from_ron_spec(org, m) {
            Option::None => Option::None,
            Option::Some(n) => match n.kind {
                NodeKind::Table(rows) => Option::Some(rows),
                NodeKind::Nil => Option::Some(Seq::empty()),
                _ => Option::None,
            },
        },
    }
}

/// Parses RON text into a table of settings: the root table of a
/// conforming document, or an empty table for an empty document (unit
/// root). Fails when the text is not well-formed RON, when a map key is
/// not a string, or when a well-formed document's root is neither a
/// table nor unit.
pub fn parse(uri: Option<&String>, text: &str) -> (r: Result<Vec<(String, TreeValue)>, AdapterError>)
    ensures
        match r {
            Result::Ok(rows) => parse_spec(uri_view(uri), text@) == Option::Some(
                rows_view(rows@),
            ),
            Result::Err(e) => parse_spec(uri_view(uri), text@) is None
                && crate::value::origin_view(e.origin) == uri_view(uri)
                && match ron_doc(text@) {
                Result::Ok(m) => match from_ron_spec(uri_view(uri), m) {
                    Option::None => e.message@ == "map key must be a string"@,
                    Option::Some(_) => e.message@
                        == "root of a configuration document must be a table"@,
                },
                Result::Err(msg) => e.message@ == msg,
            },
        },
{
    let parsed = match ron_from_str(text) {
        Result::Ok(v) => v,
        Result::Err(msg) => {
            return Result::Err(AdapterError { message: msg, origin: uri_owned(uri) });
        },
    };
    match from_ron_value(uri, parsed) {
        Result::Ok(v) => match v.kind {
            ValueKind::Table(rows) => Result::Ok(rows),
            ValueKind::Nil => {
                proof {
                    assert(rows_view(Seq::<(String, TreeValue)>::empty()) =~= Seq::<
                        (Seq<char>, Node),
                    >::empty());
                }
                Result::Ok(Vec::new())
            },
            _ => Result::Err(AdapterError {
                message: root_message(),
                origin: uri_owned(uri),
            }),
        },
        Result::Err(e) => Result::Err(e),
    }
}

/// The message for a well-formed document whose root is not a table.
fn root_message() -> (r: String)
    ensures
        r@ == "root of a configuration document must be a table"@,
{
    String::from_str("root of a configuration document must be a table")
}

} // verus!
