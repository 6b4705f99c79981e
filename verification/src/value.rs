//! The canonical value tree: a dynamically-typed node type with per-node
//! origin metadata, together with its spec-level model and the table
//! operations that the merge engine and the deserializer build on.
//!
//! Floating-point values are carried as their raw IEEE-754 bit pattern
//! (`u64`); the library never performs floating-point arithmetic, and a
//! consumer that wants the number itself reinterprets the bits outside the
//! verified core.

use vstd::prelude::*;

verus! {

/// The dynamic kind of a node, reported in type-mismatch errors.
#[derive(Clone, Copy, Debug, PartialEq, Eq, Structural)]
pub enum Kind {
    Nil,
    Boolean,
    Integer,
    Float,
    Str,
    Array,
    Table,
}

/// Spec-level model of a node: the same shape as [`Value`], over
/// mathematical sequences.
pub struct Node {
    pub origin: Option<Seq<char>>,
    pub kind: NodeKind,
}

/// Spec-level model of a node's payload.
pub enum NodeKind {
    Nil,
    Boolean(bool),
    Integer(int),
    Float(u64),
    Str(Seq<char>),
    Array(Seq<Node>),
    Table(Seq<(Seq<char>, Node)>),
}

/// One node of the canonical tree. `origin` identifies the source that
/// produced the node (a file path, or `None` for programmatic values).
#[derive(Debug, PartialEq)]
pub struct Value {
    pub origin: Option<String>,
    pub kind: ValueKind,
}

/// The payload of a node: a tagged union over primitives, arrays and tables.
/// A table is a sequence of key/value entries in insertion order; lookups
/// take the first entry with a matching key.
#[derive(Debug, PartialEq)]
pub enum ValueKind {
    Nil,
    Boolean(bool),
    Integer(i64),
    Float(u64),
    Str(String),
    Array(Vec<Value>),
    Table(Vec<(String, Value)>),
}

pub open spec fn origin_view(o: Option<String>) -> Option<Seq<char>> {
    match o {
        Option::Some(s) => Option::Some(s@),
        Option::None => Option::None,
    }
}

pub open spec fn value_view(v: Value) -> Node
    decreases v,
{
    Node { origin: origin_view(v.origin), kind: kind_view(v.kind) }
}

pub open spec fn kind_view(k: ValueKind) -> NodeKind
    decreases k,
{
    match k {
        ValueKind::Nil => NodeKind::Nil,
        ValueKind::Boolean(b) => NodeKind::Boolean(b),
        ValueKind::Integer(i) => NodeKind::Integer(i as int),
        ValueKind::Float(bits) => NodeKind::Float(bits),
        ValueKind::Str(s) => NodeKind::Str(s@),
        ValueKind::Array(vs) => NodeKind::Array(array_view(vs@)),
        ValueKind::Table(rows) => NodeKind::Table(rows_view(rows@)),
    }
}

pub open spec fn array_view(s: Seq<Value>) -> Seq<Node>
    decreases s,
{
    if s.len() == 0 {
        Seq::empty()
    } else {
        seq![value_view(s[0])] + array_view(s.drop_first())
    }
}

pub open spec fn rows_view(s: Seq<(String, Value)>) -> Seq<(Seq<char>, Node)>
    decreases s,
{
    if s.len() == 0 {
        Seq::empty()
    } else {
        seq![(s[0].0@, value_view(s[0].1))] + rows_view(s.drop_first())
    }
}

impl View for Value {
    type V = Node;

    open spec fn view(&self) -> Node {
        value_view(*self)
    }
}

impl Value {
    /// Builds a node whose `origin` is copied from `uri`, as a format
    /// adapter does for every node it produces.
    pub fn new(uri: Option<&String>, kind: ValueKind) -> (r: Value)
        ensures
            r.kind == kind,
            r@ == (Node {
                origin: match uri {
                    Option::Some(u) => Option::Some(u@),
                    Option::None => Option::None::<Seq<char>>,
                },
                kind: kind_view(kind),
            }),
    {
        let origin: Option<String> = match uri {
            Option::Some(u) => Option::Some(u.clone()),
            Option::None => Option::None,
        };
        Value { origin, kind }
    }

    /// The dynamic kind of this node.
    pub fn kind_of(&self) -> (r: Kind)
        ensures
            r == node_kind_of(self@.kind),
    {
        match &self.kind {
            ValueKind::Nil => Kind::Nil,
            ValueKind::Boolean(_) => Kind::Boolean,
            ValueKind::Integer(_) => Kind::Integer,
            ValueKind::Float(_) => Kind::Float,
            ValueKind::Str(_) => Kind::Str,
            ValueKind::Array(_) => Kind::Array,
            ValueKind::Table(_) => Kind::Table,
        }
    }
}

/// The [`Kind`] tag of a spec-level payload.
pub open spec fn node_kind_of(k: NodeKind) -> Kind {
    match k {
        NodeKind::Nil => Kind::Nil,
        NodeKind::Boolean(_) => Kind::Boolean,
        NodeKind::Integer(_) => Kind::Integer,
        NodeKind::Float(_) => Kind::Float,
        NodeKind::Str(_) => Kind::Str,
        NodeKind::Array(_) => Kind::Array,
        NodeKind::Table(_) => Kind::Table,
    }
}

/// Whether some entry of `rows` has key `k`.
pub open spec fn has_key(rows: Seq<(Seq<char>, Node)>, k: Seq<char>) -> bool {
    exists|i: int| 0 <= i < rows.len() && rows[i].0 == k
}

/// The value at the first entry of `rows` whose key is `k`, if any.
pub open spec fn lookup(rows: Seq<(Seq<char>, Node)>, k: Seq<char>) -> Option<Node>
    decreases rows,
{
    if rows.len() == 0 {
        Option::None
    } else if rows[0].0 == k {
        Option::Some(rows[0].1)
    } else {
        lookup(rows.drop_first(), k)
    }
}

/// `rows` with the first entry keyed `k` removed (unchanged when absent).
pub open spec fn remove_key(rows: Seq<(Seq<char>, Node)>, k: Seq<char>) -> Seq<
    (Seq<char>, Node),
>
    decreases rows,
{
    if rows.len() == 0 {
        rows
    } else if rows[0].0 == k {
        rows.drop_first()
    } else {
        seq![rows[0]] + remove_key(rows.drop_first(), k)
    }
}

/// `rows` with `k` bound to `n`: the first entry keyed `k` is replaced in
/// place, or the entry is appended when the key is new.
pub open spec fn spec_insert(rows: Seq<(Seq<char>, Node)>, k: Seq<char>, n: Node) -> Seq<
    (Seq<char>, Node),
>
    decreases rows,
{
    if rows.len() == 0 {
        seq![(k, n)]
    } else if rows[0].0 == k {
        seq![(k, n)] + rows.drop_first()
    } else {
        seq![rows[0]] + spec_insert(rows.drop_first(), k, n)
    }
}

/// One scan step past a non-matching entry, for each table operation.
pub proof fn lemma_scan_step(rows: Seq<(Seq<char>, Node)>, k: Seq<char>, n: Node, i: int)
    requires
        0 <= i < rows.len(),
        rows[i].0 != k,
    ensures
        lookup(rows.skip(i), k) == lookup(rows.skip(i + 1), k),
        remove_key(rows.skip(i), k) == seq![rows[i]] + remove_key(rows.skip(i + 1), k),
        spec_insert(rows.skip(i), k, n) == seq![rows[i]] + spec_insert(rows.skip(i + 1), k, n),
{
    assert(rows.skip(i).drop_first() =~= rows.skip(i + 1));
    assert(rows.skip(i)[0] == rows[i]);
}

/// The scan step that finds the key, for each table operation.
pub proof fn lemma_scan_found(rows: Seq<(Seq<char>, Node)>, k: Seq<char>, n: Node, i: int)
    requires
        0 <= i < rows.len(),
        rows[i].0 == k,
    ensures
        lookup(rows.skip(i), k) == Option::Some(rows[i].1),
        remove_key(rows.skip(i), k) == rows.skip(i + 1),
        spec_insert(rows.skip(i), k, n) == seq![(k, n)] + rows.skip(i + 1),
{
    assert(rows.skip(i).drop_first() =~= rows.skip(i + 1));
    assert(rows.skip(i)[0] == rows[i]);
}

/// A scan that ran off the end found nothing.
pub proof fn lemma_scan_end(rows: Seq<(Seq<char>, Node)>, k: Seq<char>, n: Node)
    ensures
        lookup(rows.skip(rows.len() as int), k) == Option::None::<Node>,
        remove_key(rows.skip(rows.len() as int), k) == Seq::<(Seq<char>, Node)>::empty(),
        spec_insert(rows.skip(rows.len() as int), k, n) == seq![(k, n)],
{
    assert(rows.skip(rows.len() as int) =~= Seq::<(Seq<char>, Node)>::empty());
}

/// Finds the value at `key` in a table's entry list.
pub fn table_get<'a>(rows: &'a Vec<(String, Value)>, key: &String) -> (r: Option<&'a Value>)
    ensures
        match r {
            Option::Some(v) => lookup(rows_view(rows@), key@) == Option::Some(v@),
            Option::None => lookup(rows_view(rows@), key@) is None,
        },
{
    proof {
        lemma_rows_view(rows@);
    }
    let ghost vr = rows_view(rows@);
    let ghost nil = value_view(Value { origin: Option::None, kind: ValueKind::Nil });
    proof {
        assert(vr.skip(0) =~= vr);
    }
    let mut i: usize = 0;
    while i < rows.len()
        invariant
            i <= rows.len(),
            vr == rows_view(rows@),
            vr.len() == rows@.len(),
            forall|j: int| 0 <= j < rows@.len() ==> vr[j] == (rows@[j].0@, value_view(rows@[j].1)),
            lookup(vr, key@) == lookup(vr.skip(i as int), key@),
        decreases rows.len() - i,
    {
        proof {
            assert(vr[i as int] == (rows@[i as int].0@, value_view(rows@[i as int].1)));
        }
        if rows[i].0 == *key {
            proof {
                lemma_scan_found(vr, key@, nil, i as int);
            }
            return Option::Some(&rows[i].1);
        }
        proof {
            lemma_scan_step(vr, key@, nil, i as int);
        }
        i = i + 1;
    }
    proof {
        lemma_scan_end(vr, key@, nil);
    }
    Option::None
}

/// Removes and returns the value at `key`, leaving the other entries in
/// order; leaves the table unchanged when the key is absent.
pub fn table_remove(rows: &mut Vec<(String, Value)>, key: &String) -> (r: Option<Value>)
    ensures
        rows_view(final(rows)@) == remove_key(rows_view(old(rows)@), key@),
        match r {
            Option::Some(v) => lookup(rows_view(old(rows)@), key@) == Option::Some(v@),
            Option::None => lookup(rows_view(old(rows)@), key@) is None,
        },
{
    proof {
        lemma_rows_view(old(rows)@);
    }
    let ghost orig = old(rows)@;
    let ghost vr = rows_view(orig);
    let ghost nil = value_view(Value { origin: Option::None, kind: ValueKind::Nil });
    proof {
        assert(vr.skip(0) =~= vr);
        assert(vr.take(0) + remove_key(vr, key@) =~= remove_key(vr, key@));
    }
    let mut i: usize = 0;
    while i < rows.len()
        invariant
            i <= rows.len(),
            orig == old(rows)@,
            rows@ == orig,
            vr == rows_view(orig),
            vr.len() == orig.len(),
            forall|j: int| 0 <= j < orig.len() ==> vr[j] == (orig[j].0@, value_view(orig[j].1)),
            lookup(vr, key@) == lookup(vr.skip(i as int), key@),
            remove_key(vr, key@) == vr.take(i as int) + remove_key(vr.skip(i as int), key@),
        decreases rows.len() - i,
    {
        proof {
            assert(vr[i as int] == (orig[i as int].0@, value_view(orig[i as int].1)));
        }
        if rows[i].0 == *key {
            proof {
                lemma_scan_found(vr, key@, nil, i as int);
            }
            let kv = rows.remove(i);
            let v = kv.1;
            proof {
                assert(v == orig[i as int].1);
                assert(v@ == vr[i as int].1);
                lemma_rows_view(rows@);
                assert(rows@ =~= orig.take(i as int) + orig.skip(i as int + 1));
                assert(rows_view(rows@) =~= vr.take(i as int) + vr.skip(i as int + 1));
            }
            return Option::Some(v);
        }
        proof {
            lemma_scan_step(vr, key@, nil, i as int);
            assert(vr.take(i as int) + (seq![vr[i as int]] + remove_key(
                vr.skip(i as int + 1),
                key@,
            )) =~= vr.take(i as int + 1) + remove_key(vr.skip(i as int + 1), key@));
        }
        i = i + 1;
    }
    proof {
        lemma_scan_end(vr, key@, nil);
        assert(vr.take(vr.len() as int) + Seq::<(Seq<char>, Node)>::empty() =~= vr);
    }
    Option::None
}

/// Binds `key` to `val`: the first entry with this key is replaced in
/// place, or a new entry is appended.
pub fn table_insert(rows: &mut Vec<(String, Value)>, key: String, val: Value)
    ensures
        rows_view(final(rows)@) == spec_insert(rows_view(old(rows)@), key@, val@),
{
    proof {
        lemma_rows_view(old(rows)@);
    }
    let ghost orig = old(rows)@;
    let ghost vr = rows_view(orig);
    let ghost n = val@;
    let ghost k0 = key@;
    proof {
        assert(vr.skip(0) =~= vr);
        assert(vr.take(0) + spec_insert(vr, key@, n) =~= spec_insert(vr, key@, n));
    }
    let mut i: usize = 0;
    while i < rows.len()
        invariant
            i <= rows.len(),
            orig == old(rows)@,
            rows@ == orig,
            vr == rows_view(orig),
            vr.len() == orig.len(),
            forall|j: int| 0 <= j < orig.len() ==> vr[j] == (orig[j].0@, value_view(orig[j].1)),
            n == val@,
            k0 == key@,
            spec_insert(vr, key@, n) == vr.take(i as int) + spec_insert(
                vr.skip(i as int),
                key@,
                n,
            ),
        decreases rows.len() - i,
    {
        proof {
            assert(vr[i as int] == (orig[i as int].0@, value_view(orig[i as int].1)));
        }
        if rows[i].0 == key {
            proof {
                lemma_scan_found(vr, key@, n, i as int);
            }
            let _ = rows.remove(i);
            rows.insert(i, (key, val));
            proof {
                assert(rows@[i as int].0@ == k0 && value_view(rows@[i as int].1) == n);
                assert(rows@ =~= orig.take(i as int) + seq![rows@[i as int]] + orig.skip(
                    i as int + 1,
                ));
                lemma_rows_view(rows@);
                assert(rows_view(rows@) =~= vr.take(i as int) + (seq![(k0, n)] + vr.skip(
                    i as int + 1,
                )));
            }
            return ;
        }
        proof {
            lemma_scan_step(vr, key@, n, i as int);
            assert(vr.take(i as int) + (seq![vr[i as int]] + spec_insert(
                vr.skip(i as int + 1),
                key@,
                n,
            )) =~= vr.take(i as int + 1) + spec_insert(vr.skip(i as int + 1), key@, n));
        }
        i = i + 1;
    }
    rows.push((key, val));
    proof {
        lemma_scan_end(vr, k0, n);
        lemma_rows_view(rows@);
        assert(rows_view(rows@) =~= vr.take(vr.len() as int) + seq![(k0, n)]);
    }
}

/// What dotted-path navigation yields: each segment is a table-key
/// lookup, so a path into anything but a table, or through a missing
/// key, finds nothing. Numeric-looking segments do not index arrays.
pub open spec fn get_at_spec(n: Node, segs: Seq<Seq<char>>) -> Option<Node>
    decreases segs,
{
    if segs.len() == 0 {
        Option::Some(n)
    } else {
        match n.kind {
            NodeKind::Table(rows) => match lookup(rows, segs[0]) {
                Option::Some(c) => get_at_spec(c, segs.drop_first()),
                Option::None => Option::None,
            },
            _ => Option::None,
        }
    }
}

/// Navigates the tree by dotted-path segments, each a table-key lookup.
#[verifier::loop_isolation(false)]
pub fn get_at<'a>(tree: &'a Value, path: &Vec<String>) -> (r: Option<&'a Value>)
    ensures
        match r {
            Option::Some(v) => get_at_spec(tree@, path@.map_values(|s: String| s@))
                == Option::Some(v@),
            Option::None => get_at_spec(tree@, path@.map_values(|s: String| s@)) is None,
        },
{
    let ghost segs = path@.map_values(|s: String| s@);
    let mut cur: &Value = tree;
    let mut i: usize = 0;
    proof {
        assert(segs.skip(0) =~= segs);
    }
    while i < path.len()
        invariant
            i <= path@.len(),
            segs.len() == path@.len(),
            forall|j: int| 0 <= j < segs.len() ==> segs[j] == path@[j]@,
            get_at_spec(tree@, segs) == get_at_spec(cur@, segs.skip(i as int)),
        decreases path@.len() - i,
    {
        proof {
            assert(segs.skip(i as int)[0] == segs[i as int]);
            assert(segs.skip(i as int).drop_first() =~= segs.skip(i as int + 1));
        }
        match &cur.kind {
            ValueKind::Table(rows) => match table_get(rows, &path[i]) {
                Option::Some(child) => {
                    cur = child;
                },
                Option::None => {
                    return Option::None;
                },
            },
            _ => {
                return Option::None;
            },
        }
        i = i + 1;
    }
    proof {
        assert(segs.skip(segs.len() as int) =~= Seq::<Seq<char>>::empty());
    }
    Option::Some(cur)
}

/// What replacing the subtree at a path yields: an empty path replaces
/// the whole node; otherwise the node (made an empty table first when it
/// is not one) gets the replacement threaded under the first segment,
/// creating empty intermediate tables along missing keys. Used during
/// construction only; the merge engine never calls it.
pub open spec fn set_at_spec(n: Node, segs: Seq<Seq<char>>, val: Node) -> Node
    decreases segs,
{
    if segs.len() == 0 {
        val
    } else {
        let rows = match n.kind {
            NodeKind::Table(rows) => rows,
            _ => Seq::<(Seq<char>, Node)>::empty(),
        };
        let child = match lookup(rows, segs[0]) {
            Option::Some(c) => c,
            Option::None => Node { origin: Option::None, kind: NodeKind::Table(Seq::empty()) },
        };
        Node {
            origin: n.origin,
            kind: NodeKind::Table(
                spec_insert(rows, segs[0], set_at_spec(child, segs.drop_first(), val)),
            ),
        }
    }
}

/// Replaces the subtree at a dotted path, building intermediate tables
/// where the path runs through missing keys or non-table nodes.
pub fn set_at(tree: Value, path: &Vec<String>, val: Value) -> (r: Value)
    ensures
        r@ == set_at_spec(tree@, path@.map_values(|s: String| s@), val@),
{
    let r = set_from(tree, path, 0, val);
    proof {
        assert(path@.map_values(|s: String| s@).skip(0) =~= path@.map_values(
            |s: String| s@,
        ));
    }
    r
}

/// The recursive worker of [`set_at`], starting at segment `i`.
#[verifier::loop_isolation(false)]
fn set_from(n: Value, path: &Vec<String>, i: usize, val: Value) -> (r: Value)
    requires
        i <= path@.len(),
    ensures
        r@ == set_at_spec(n@, path@.map_values(|s: String| s@).skip(i as int), val@),
    decreases path@.len() - i,
{
    let ghost segs = path@.map_values(|s: String| s@);
    if i == path.len() {
        proof {
            assert(segs.skip(i as int) =~= Seq::<Seq<char>>::empty());
        }
        return val;
    }
    proof {
        assert(segs.skip(i as int)[0] == segs[i as int]);
        assert(segs.skip(i as int).drop_first() =~= segs.skip(i as int + 1));
    }
    let Value { origin, kind } = n;
    let mut rows: Vec<(String, Value)> = match kind {
        ValueKind::Table(rows) => rows,
        _ => Vec::new(),
    };
    let ghost rows0 = rows@;
    let ghost vr = rows_view(rows0);
    let ghost k = segs[i as int];
    proof {
        lemma_rows_view(rows0);
        assert(rows_view(Seq::<(String, Value)>::empty()) =~= Seq::<(Seq<char>, Node)>::empty());
        assert(vr.skip(0) =~= vr);
    }
    let mut j: usize = 0;
    while j < rows.len()
        invariant
            j <= rows.len(),
            rows@ == rows0,
            vr == rows_view(rows0),
            vr.len() == rows0.len(),
            forall|j2: int| 0 <= j2 < rows0.len() ==> vr[j2] == (rows0[j2].0@, value_view(
                rows0[j2].1,
            )),
            forall|j2: int| 0 <= j2 < j ==> vr[j2].0 != k,
            lookup(vr, k) == lookup(vr.skip(j as int), k),
        decreases rows.len() - j,
    {
        proof {
            assert(vr[j as int] == (rows0[j as int].0@, value_view(rows0[j as int].1)));
        }
        if rows[j].0 == path[i] {
            proof {
                lemma_scan_found(vr, k, val@, j as int);
            }
            let pair = rows.remove(j);
            let replaced = set_from(pair.1, path, i + 1, val);
            rows.insert(j, (pair.0, replaced));
            proof {
                lemma_spec_insert_found(vr, k, replaced@, j as int);
                lemma_rows_view(rows@);
                assert(rows@[j as int].0@ == k && value_view(rows@[j as int].1) == replaced@);
                assert(rows@ =~= rows0.take(j as int) + seq![rows@[j as int]] + rows0.skip(
                    j as int + 1,
                ));
                assert(rows_view(rows@) =~= vr.take(j as int) + (seq![(k, replaced@)] + vr.skip(
                    j as int + 1,
                )));
            }
            return Value { origin, kind: ValueKind::Table(rows) };
        }
        proof {
            lemma_scan_step(vr, k, val@, j as int);
        }
        j = j + 1;
    }
    proof {
        assert(vr.skip(vr.len() as int) =~= Seq::<(Seq<char>, Node)>::empty());
    }
    let fresh = Value { origin: Option::None, kind: ValueKind::Table(Vec::new()) };
    let replaced = set_from(fresh, path, i + 1, val);
    let key = path[i].clone();
    table_insert(&mut rows, key, replaced);
    Value { origin, kind: ValueKind::Table(rows) }
}

/// Inserting a key that first occurs at `j` replaces that entry in
/// place.
proof fn lemma_spec_insert_found(rows: Seq<(Seq<char>, Node)>, k: Seq<char>, n: Node, j: int)
    requires
        0 <= j < rows.len(),
        rows[j].0 == k,
        forall|j2: int| 0 <= j2 < j ==> rows[j2].0 != k,
    ensures
        spec_insert(rows, k, n) == rows.take(j) + (seq![(k, n)] + rows.skip(j + 1)),
    decreases j,
{
    if j == 0 {
        assert(rows.take(0) + (seq![(k, n)] + rows.skip(1)) =~= seq![(k, n)]
            + rows.drop_first());
    } else {
        let rest = rows.drop_first();
        assert(forall|j2: int| 0 <= j2 < j - 1 ==> rest[j2] == rows[j2 + 1] && rest[j2].0 != k);
        assert(rest[j - 1] == rows[j]);
        lemma_spec_insert_found(rest, k, n, j - 1);
        assert(rows.take(j) + (seq![(k, n)] + rows.skip(j + 1)) =~= seq![rows[0]] + (
        rest.take(j - 1) + (seq![(k, n)] + rest.skip(j))));
    }
}

/// `array_view` maps the view pointwise.
pub proof fn lemma_array_view(s: Seq<Value>)
    ensures
        array_view(s).len() == s.len(),
        forall|i: int| 0 <= i < s.len() ==> array_view(s)[i] == value_view(s[i]),
    decreases s,
{
    if s.len() > 0 {
        lemma_array_view(s.drop_first());
    }
}

/// `rows_view` maps the view pointwise.
pub proof fn lemma_rows_view(s: Seq<(String, Value)>)
    ensures
        rows_view(s).len() == s.len(),
        forall|i: int|
            0 <= i < s.len() ==> rows_view(s)[i] == (s[i].0@, value_view(s[i].1)),
    decreases s,
{
    if s.len() > 0 {
        lemma_rows_view(s.drop_first());
    }
}

} // verus!
