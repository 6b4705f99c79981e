//! The merge engine: an ordered list of sources is folded left to right
//! into one canonical tree. Two tables merge key by key; in every other
//! combination the later value replaces the earlier one wholesale, so a
//! later `Nil` clears a key and arrays are replaced, never concatenated.
//! Merging never fails and never mutates its inputs in place.

use vstd::prelude::*;

use crate::value::{
    has_key, lemma_rows_view, lookup, remove_key, rows_view, Node, NodeKind, Value, ValueKind,
};
use crate::value::table_remove;

verus! {

/// One origin's contribution: a value tree plus the identifier of where it
/// came from. Position in the source list determines precedence (later
/// sources win).
#[derive(Debug)]
pub struct Source {
    pub origin: Option<String>,
    pub value_root: Value,
}

/// The merge of two nodes: tables merge key by key, everything else is
/// replaced by the later node, origin included.
pub open spec fn merge_node(a: Node, b: Node) -> Node
    decreases a,
{
    match (a.kind, b.kind) {
        (NodeKind::Table(ta), NodeKind::Table(tb)) => Node {
            origin: b.origin,
            kind: NodeKind::Table(merge_rows(ta, tb)),
        },
        _ => b,
    }
}

/// The merge of two tables' entries. Keys of `ta` keep their positions,
/// each merged with the entry of `tb` of the same key when there is one;
/// the keys only in `tb` follow, in their original order.
pub open spec fn merge_rows(
    ta: Seq<(Seq<char>, Node)>,
    tb: Seq<(Seq<char>, Node)>,
) -> Seq<(Seq<char>, Node)>
    decreases ta,
{
    if ta.len() == 0 {
        tb
    } else {
        match lookup(tb, ta[0].0) {
            Option::Some(bv) => seq![(ta[0].0, merge_node(ta[0].1, bv))] + merge_rows(
                ta.drop_first(),
                remove_key(tb, ta[0].0),
            ),
            Option::None => seq![ta[0]] + merge_rows(ta.drop_first(), tb),
        }
    }
}

/// The fold of a whole source list, starting from an empty table.
pub open spec fn merge_list(sources: Seq<Node>) -> Node
    decreases sources,
{
    if sources.len() == 0 {
        Node { origin: Option::None, kind: NodeKind::Table(Seq::empty()) }
    } else {
        merge_node(merge_list(sources.drop_last()), sources.last())
    }
}

/// Merges two trees, consuming both; the result shares no mutable state
/// with any input that the caller still holds.
#[verifier::loop_isolation(false)]
pub fn merge_values(a: Value, b: Value) -> (r: Value)
    ensures
        r@ == merge_node(a@, b@),
    decreases a,
{
    let ghost a0 = a;
    let Value { origin: _a_origin, kind: a_kind } = a;
    let Value { origin: b_origin, kind: b_kind } = b;
    match (a_kind, b_kind) {
        (ValueKind::Table(ta), ValueKind::Table(tb)) => {
            let ghost tav = ta;
            let ghost ta0 = ta@;
            let ghost va = rows_view(ta0);
            let ghost vb = rows_view(tb@);
            proof {
                lemma_rows_view(ta0);
            }
            let mut ta = ta;
            let mut tb = tb;
            let mut out: Vec<(String, Value)> = Vec::new();
            let ghost mut k: int = 0;
            proof {
                assert(rows_view(out@) + merge_rows(va, vb) =~= merge_rows(va, vb));
            }
            while ta.len() > 0
                invariant
                    a0.kind == ValueKind::Table(tav),
                    tav@ == ta0,
                    va == rows_view(ta0),
                    0 <= k <= ta0.len(),
                    ta@ == ta0.skip(k),
                    merge_rows(va, vb) == rows_view(out@) + merge_rows(
                        rows_view(ta@),
                        rows_view(tb@),
                    ),
                decreases ta@.len(),
            {
                let ghost cur_a = rows_view(ta@);
                let ghost cur_b = rows_view(tb@);
                proof {
                    lemma_rows_view(ta@);
                    lemma_rows_view(tb@);
                }
                let kv = ta.remove(0);
                let key = kv.0;
                let av = kv.1;
                proof {
                    assert(cur_a[0] == (key@, av@));
                    assert(ta@ =~= ta0.skip(k).drop_first());
                    assert(ta@ =~= ta0.skip(k + 1));
                    lemma_rows_view(ta@);
                    assert(rows_view(ta@) =~= cur_a.drop_first());
                    assert(decreases_to!(a0 => a0.kind));
                    assert(a0.kind->Table_0 == tav);
                    assert(decreases_to!(a0.kind => a0.kind->Table_0));
                    assert(decreases_to!(tav => tav@));
                    assert(decreases_to!(tav@ => tav@[k]));
                    assert(decreases_to!(tav@[k] => tav@[k].1));
                    assert(av == tav@[k].1);
                    k = k + 1;
                }
                match table_remove(&mut tb, &key) {
                    Option::Some(bv) => {
                        let merged = merge_values(av, bv);
                        let ghost entry = (key@, merge_node(av@, bv@));
                        let ghost out0 = out@;
                        out.push((key, merged));
                        proof {
                            lemma_rows_view(out@);
                            lemma_rows_view(out0);
                            assert(rows_view(out@) =~= rows_view(out0) + seq![entry]);
                            assert(merge_rows(cur_a, cur_b) == seq![entry] + merge_rows(
                                cur_a.drop_first(),
                                remove_key(cur_b, key@),
                            ));
                            assert(rows_view(out0) + (seq![entry] + merge_rows(
                                rows_view(ta@),
                                rows_view(tb@),
                            )) =~= rows_view(out@) + merge_rows(rows_view(ta@), rows_view(tb@)));
                        }
                    },
                    Option::None => {
                        let ghost entry = (key@, av@);
                        let ghost out0 = out@;
                        out.push((key, av));
                        proof {
                            lemma_remove_absent(cur_b, key@);
                            lemma_rows_view(out@);
                            lemma_rows_view(out0);
                            assert(rows_view(out@) =~= rows_view(out0) + seq![entry]);
                            assert(merge_rows(cur_a, cur_b) == seq![entry] + merge_rows(
                                cur_a.drop_first(),
                                cur_b,
                            ));
                            assert(rows_view(out0) + (seq![entry] + merge_rows(
                                rows_view(ta@),
                                rows_view(tb@),
                            )) =~= rows_view(out@) + merge_rows(rows_view(ta@), rows_view(tb@)));
                        }
                    },
                }
            }
            proof {
                assert(rows_view(ta@) =~= Seq::<(Seq<char>, Node)>::empty());
                assert(merge_rows(va, vb) == rows_view(out@) + rows_view(tb@));
            }
            while tb.len() > 0
                invariant
                    merge_rows(va, vb) == rows_view(out@) + rows_view(tb@),
                decreases tb@.len(),
            {
                let ghost cur_b = rows_view(tb@);
                proof {
                    lemma_rows_view(tb@);
                }
                let kv = tb.remove(0);
                let ghost entry = (kv.0@, kv.1@);
                let ghost out0 = out@;
                out.push(kv);
                proof {
                    assert(cur_b[0] == entry);
                    lemma_rows_view(tb@);
                    assert(rows_view(tb@) =~= cur_b.drop_first());
                    lemma_rows_view(out@);
                    lemma_rows_view(out0);
                    assert(rows_view(out@) =~= rows_view(out0) + seq![entry]);
                    assert(rows_view(out0) + (seq![entry] + rows_view(tb@)) =~= rows_view(
                        out@,
                    ) + rows_view(tb@));
                }
            }
            proof {
                assert(rows_view(tb@) =~= Seq::<(Seq<char>, Node)>::empty());
                assert(rows_view(out@) + rows_view(tb@) =~= rows_view(out@));
            }
            Value { origin: b_origin, kind: ValueKind::Table(out) }
        },
        (_, bk) => Value { origin: b_origin, kind: bk },
    }
}

/// A source's contribution to the fold: its root table, or an empty
/// table when the root is anything else — an empty document's `Nil`
/// root, or a stray programmatic value, contributes no keys.
pub open spec fn root_table(n: Node) -> Node {
    if n.kind is Table {
        n
    } else {
        Node { origin: n.origin, kind: NodeKind::Table(Seq::empty()) }
    }
}

/// The executable twin of [`root_table`].
fn normalize_root(v: Value) -> (r: Value)
    ensures
        r@ == root_table(v@),
{
    let Value { origin, kind } = v;
    match kind {
        ValueKind::Table(rows) => Value { origin, kind: ValueKind::Table(rows) },
        _ => {
            proof {
                assert(rows_view(Seq::<(String, Value)>::empty()) =~= Seq::<
                    (Seq<char>, Node),
                >::empty());
            }
            Value { origin, kind: ValueKind::Table(Vec::new()) }
        },
    }
}

/// Folds a source list into one canonical tree. With no sources the result
/// is an empty table; a single table-rooted source comes back unchanged;
/// a source whose root is not a table contributes an empty table.
pub fn merge(sources: Vec<Source>) -> (r: Value)
    ensures
        r@ == merge_list(sources@.map_values(|s: Source| root_table(s.value_root@))),
        r@.kind is Table,
{
    let ghost all = sources@.map_values(|s: Source| root_table(s.value_root@));
    let ghost src0 = sources@;
    let mut sources = sources;
    let mut acc = Value { origin: Option::None, kind: ValueKind::Table(Vec::new()) };
    let ghost mut k: int = 0;
    proof {
        assert(all.take(0) =~= Seq::<Node>::empty());
        assert(rows_view(Seq::<(String, Value)>::empty()) =~= Seq::<(Seq<char>, Node)>::empty());
    }
    while sources.len() > 0
        invariant
            0 <= k <= all.len(),
            sources@ == src0.skip(k),
            all == src0.map_values(|s: Source| root_table(s.value_root@)),
            acc@ == merge_list(all.take(k)),
            acc@.kind is Table,
        decreases sources@.len(),
    {
        let s = sources.remove(0);
        proof {
            assert(s == src0[k]);
            assert(sources@ =~= src0.skip(k + 1));
            assert(all[k] == root_table(s.value_root@));
        }
        let root = normalize_root(s.value_root);
        acc = merge_values(acc, root);
        proof {
            assert(all.take(k + 1).drop_last() =~= all.take(k));
            assert(all.take(k + 1).last() == all[k]);
            assert(merge_list(all.take(k + 1)) == merge_node(merge_list(all.take(k)), all[k]));
            k = k + 1;
        }
    }
    proof {
        assert(all.take(all.len() as int) =~= all);
    }
    acc
}

/// Removing an absent key leaves a table unchanged.
pub proof fn lemma_remove_absent(rows: Seq<(Seq<char>, Node)>, k: Seq<char>)
    requires
        lookup(rows, k) is None,
    ensures
        remove_key(rows, k) == rows,
    decreases rows,
{
    if rows.len() > 0 {
        lemma_remove_absent(rows.drop_first(), k);
        assert(seq![rows[0]] + rows.drop_first() =~= rows);
    }
}

/// Looking a key up fails exactly when the table has no entry with it.
pub proof fn lemma_lookup_none_iff(rows: Seq<(Seq<char>, Node)>, k: Seq<char>)
    ensures
        lookup(rows, k) is None <==> !has_key(rows, k),
    decreases rows,
{
    if rows.len() > 0 {
        lemma_lookup_none_iff(rows.drop_first(), k);
        if rows[0].0 != k {
            assert(has_key(rows, k) <==> has_key(rows.drop_first(), k)) by {
                if has_key(rows, k) {
                    let i = choose|i: int| 0 <= i < rows.len() && rows[i].0 == k;
                    assert(rows.drop_first()[i - 1] == rows[i]);
                }
                if has_key(rows.drop_first(), k) {
                    let i = choose|i: int|
                        0 <= i < rows.drop_first().len() && rows.drop_first()[i].0 == k;
                    assert(rows[i + 1] == rows.drop_first()[i]);
                }
            };
        }
    }
}

/// Removing one key leaves lookups of every other key unchanged.
pub proof fn lemma_remove_key_other(rows: Seq<(Seq<char>, Node)>, k0: Seq<char>, k: Seq<char>)
    requires
        k != k0,
    ensures
        lookup(remove_key(rows, k0), k) == lookup(rows, k),
    decreases rows,
{
    if rows.len() > 0 {
        lemma_remove_key_other(rows.drop_first(), k0, k);
        if rows[0].0 != k0 {
            let rest = remove_key(rows.drop_first(), k0);
            assert((seq![rows[0]] + rest)[0] == rows[0]);
            assert((seq![rows[0]] + rest).drop_first() =~= rest);
        }
    }
}

/// What a merged table holds at each key: both sides present merges the
/// two values, one side present passes it through, neither leaves the key
/// absent.
pub proof fn lemma_merge_lookup(
    ta: Seq<(Seq<char>, Node)>,
    tb: Seq<(Seq<char>, Node)>,
    k: Seq<char>,
)
    ensures
        lookup(merge_rows(ta, tb), k) == match (lookup(ta, k), lookup(tb, k)) {
            (Option::Some(x), Option::Some(y)) => Option::Some(merge_node(x, y)),
            (Option::Some(x), Option::None) => Option::Some(x),
            (Option::None, yo) => yo,
        },
    decreases ta,
{
    if ta.len() > 0 {
        let k0 = ta[0].0;
        match lookup(tb, k0) {
            Option::Some(bv) => {
                let head = (k0, merge_node(ta[0].1, bv));
                let rest = merge_rows(ta.drop_first(), remove_key(tb, k0));
                assert((seq![head] + rest)[0] == head);
                assert((seq![head] + rest).drop_first() =~= rest);
                if k != k0 {
                    lemma_merge_lookup(ta.drop_first(), remove_key(tb, k0), k);
                    lemma_remove_key_other(tb, k0, k);
                }
            },
            Option::None => {
                let rest = merge_rows(ta.drop_first(), tb);
                assert((seq![ta[0]] + rest)[0] == ta[0]);
                assert((seq![ta[0]] + rest).drop_first() =~= rest);
                if k != k0 {
                    lemma_merge_lookup(ta.drop_first(), tb, k);
                }
            },
        }
    }
}

/// A merged table's key set is the union of the two key sets.
pub proof fn lemma_merge_keys(
    ta: Seq<(Seq<char>, Node)>,
    tb: Seq<(Seq<char>, Node)>,
    k: Seq<char>,
)
    ensures
        has_key(merge_rows(ta, tb), k) <==> has_key(ta, k) || has_key(tb, k),
{
    lemma_merge_lookup(ta, tb, k);
    lemma_lookup_none_iff(merge_rows(ta, tb), k);
    lemma_lookup_none_iff(ta, k);
    lemma_lookup_none_iff(tb, k);
}

/// Last writer wins: when the later table binds `k` to anything but a
/// table, the merged table holds exactly the later value at `k`, whatever
/// the earlier table held.
pub proof fn lemma_override_wins(
    ta: Seq<(Seq<char>, Node)>,
    tc: Seq<(Seq<char>, Node)>,
    k: Seq<char>,
    cv: Node,
)
    requires
        lookup(tc, k) == Option::Some(cv),
        !(cv.kind is Table),
    ensures
        lookup(merge_rows(ta, tc), k) == Option::Some(cv),
{
    lemma_merge_lookup(ta, tc, k);
}

/// Keys untouched by the later table survive the merge unchanged.
pub proof fn lemma_unrelated_keys_survive(
    ta: Seq<(Seq<char>, Node)>,
    tc: Seq<(Seq<char>, Node)>,
    k: Seq<char>,
)
    requires
        lookup(tc, k) is None,
    ensures
        lookup(merge_rows(ta, tc), k) == lookup(ta, k),
{
    lemma_merge_lookup(ta, tc, k);
}

/// A later `Nil` does not delete the key: it stays present, bound to `Nil`.
pub proof fn lemma_null_override(
    ta: Seq<(Seq<char>, Node)>,
    tc: Seq<(Seq<char>, Node)>,
    k: Seq<char>,
    cv: Node,
)
    requires
        lookup(tc, k) == Option::Some(cv),
        cv.kind is Nil,
    ensures
        lookup(merge_rows(ta, tc), k) == Option::Some(cv),
        has_key(merge_rows(ta, tc), k),
{
    lemma_override_wins(ta, tc, k, cv);
    lemma_lookup_none_iff(merge_rows(ta, tc), k);
}

/// Last writer wins across a source list: appending a source whose table
/// binds `k` to a non-table value makes the folded result hold exactly
/// that value at `k`, whatever the earlier sources held.
pub proof fn lemma_last_writer_wins(sources: Seq<Node>, c: Node, k: Seq<char>, cv: Node)
    requires
        c.kind is Table,
        lookup(c.kind->Table_0, k) == Option::Some(cv),
        !(cv.kind is Table),
    ensures
        merge_list(sources.push(c)).kind is Table,
        lookup(merge_list(sources.push(c)).kind->Table_0, k) == Option::Some(cv),
{
    assert(sources.push(c).drop_last() =~= sources);
    assert(sources.push(c).last() == c);
    let m = merge_list(sources);
    match m.kind {
        NodeKind::Table(ta) => {
            lemma_override_wins(ta, c.kind->Table_0, k, cv);
        },
        _ => {
        },
    }
}

/// Keys the appended source does not mention survive the fold unchanged.
pub proof fn lemma_unrelated_keys_survive_fold(sources: Seq<Node>, c: Node, k: Seq<char>)
    requires
        c.kind is Table,
        lookup(c.kind->Table_0, k) is None,
        merge_list(sources).kind is Table,
    ensures
        merge_list(sources.push(c)).kind is Table,
        lookup(merge_list(sources.push(c)).kind->Table_0, k) == lookup(
            merge_list(sources).kind->Table_0,
            k,
        ),
{
    assert(sources.push(c).drop_last() =~= sources);
    assert(sources.push(c).last() == c);
    match merge_list(sources).kind {
        NodeKind::Table(ta) => {
            lemma_unrelated_keys_survive(ta, c.kind->Table_0, k);
        },
        _ => {
        },
    }
}

/// Arrays are replaced wholesale, never merged element-wise.
pub proof fn lemma_array_replace(a: Node, b: Node)
    requires
        b.kind is Array,
    ensures
        merge_node(a, b) == b,
{
}

} // verus!
