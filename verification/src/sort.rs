//! The sibling ordering policy.
//!
//! Children of a node are kept sorted: grouping nodes come before option
//! leaves; within each category a node named `"enable"` comes first and a
//! node with an empty name last; remaining ties break lexicographically by
//! name.  The sort is a stable insertion sort, so sorting an already sorted
//! sequence returns it unchanged.

use vstd::prelude::*;
use vstd::multiset::Multiset;

use crate::node::NodeView;
use crate::node::OptionNode;
use crate::node::lemma_nodes_view;
use crate::node::node_view;
use crate::node::nodes_view;

verus! {

/// Lexicographic order on character sequences, by code point.
pub open spec fn lex_le(a: Seq<char>, b: Seq<char>) -> bool
    decreases a.len(),
{
    if a.len() == 0 {
        true
    } else if b.len() == 0 {
        false
    } else if a[0] == b[0] {
        lex_le(a.drop_first(), b.drop_first())
    } else {
        (a[0] as int) < (b[0] as int)
    }
}

pub proof fn lemma_lex_le_total(a: Seq<char>, b: Seq<char>)
    ensures
        lex_le(a, b) || lex_le(b, a),
    decreases a.len(),
{
    if a.len() > 0 && b.len() > 0 {
        if a[0] == b[0] {
            lemma_lex_le_total(a.drop_first(), b.drop_first());
        } else {
            assert((a[0] as int) != (b[0] as int));
        }
    }
}

pub proof fn lemma_lex_le_trans(a: Seq<char>, b: Seq<char>, c: Seq<char>)
    requires
        lex_le(a, b),
        lex_le(b, c),
    ensures
        lex_le(a, c),
    decreases a.len(),
{
    if a.len() > 0 && b.len() > 0 && c.len() > 0 && a[0] == b[0] && b[0] == c[0] {
        lemma_lex_le_trans(a.drop_first(), b.drop_first(), c.drop_first());
    }
}

/// Grouping nodes order before option leaves.
pub open spec fn rank_of(n: NodeView) -> int {
    if n.option_type is None {
        0
    } else {
        1
    }
}

/// Within a rank: `"enable"` first, an empty name last.
pub open spec fn name_class(s: Seq<char>) -> int {
    if s == "enable"@ {
        0
    } else if s.len() == 0 {
        2
    } else {
        1
    }
}

/// The sibling order: by rank, then by name class, then lexicographic.
pub open spec fn node_le(a: NodeView, b: NodeView) -> bool {
    if rank_of(a) != rank_of(b) {
        rank_of(a) < rank_of(b)
    } else if name_class(a.name) != name_class(b.name) {
        name_class(a.name) < name_class(b.name)
    } else {
        lex_le(a.name, b.name)
    }
}

pub proof fn lemma_node_le_total(a: NodeView, b: NodeView)
    ensures
        node_le(a, b) || node_le(b, a),
{
    lemma_lex_le_total(a.name, b.name);
}

pub proof fn lemma_node_le_trans(a: NodeView, b: NodeView, c: NodeView)
    requires
        node_le(a, b),
        node_le(b, c),
    ensures
        node_le(a, c),
{
    if rank_of(a) == rank_of(b) && rank_of(b) == rank_of(c) && name_class(a.name) == name_class(
        b.name,
    ) && name_class(b.name) == name_class(c.name) {
        lemma_lex_le_trans(a.name, b.name, c.name);
    }
}

/// The sequence follows the sibling order.
pub open spec fn sorted_nodes(s: Seq<NodeView>) -> bool {
    forall|i: int, j: int| 0 <= i < j < s.len() ==> node_le(#[trigger] s[i], #[trigger] s[j])
}

/// Stable insertion into a sorted sequence: the new element goes after every
/// element that orders no later than it.
pub open spec fn insert_sorted_m(x: NodeView, s: Seq<NodeView>) -> Seq<NodeView>
    decreases s.len(),
{
    if s.len() == 0 {
        seq![x]
    } else if node_le(s.last(), x) {
        s.push(x)
    } else {
        insert_sorted_m(x, s.drop_last()).push(s.last())
    }
}

/// Stable insertion sort over node sequences.
pub open spec fn sort_nodes_m(s: Seq<NodeView>) -> Seq<NodeView>
    decreases s.len(),
{
    if s.len() == 0 {
        Seq::empty()
    } else {
        insert_sorted_m(s.last(), sort_nodes_m(s.drop_last()))
    }
}

pub proof fn lemma_insert_sorted(x: NodeView, s: Seq<NodeView>)
    requires
        sorted_nodes(s),
    ensures
        sorted_nodes(insert_sorted_m(x, s)),
        insert_sorted_m(x, s).len() == s.len() + 1,
        insert_sorted_m(x, s).to_multiset() == s.to_multiset().insert(x),
    decreases s.len(),
{
    broadcast use vstd::seq_lib::group_to_multiset_ensures;

    if s.len() == 0 {
        assert(seq![x] =~= Seq::empty().push(x));
        assert(Seq::<NodeView>::empty().to_multiset() =~= Multiset::empty());
    } else if node_le(s.last(), x) {
        assert forall|i: int, j: int|
            0 <= i < j < s.push(x).len() implies node_le(
            #[trigger] s.push(x)[i],
            #[trigger] s.push(x)[j],
        ) by {
            if j < s.len() {
            } else {
                if i < s.len() - 1 {
                    lemma_node_le_trans(s[i], s.last(), x);
                }
            }
        }
    } else {
        let t = s.drop_last();
        assert(sorted_nodes(t)) by {
            assert(forall|i: int, j: int|
                0 <= i < j < t.len() ==> node_le(#[trigger] t[i], #[trigger] t[j]) && t[i] == s[i]
                    && t[j] == s[j]);
        }
        lemma_insert_sorted(x, t);
        let r = insert_sorted_m(x, t);
        lemma_node_le_total(s.last(), x);
        // every element of r orders no later than s.last()
        assert forall|i: int| 0 <= i < r.len() implies node_le(
            #[trigger] r[i],
            s.last(),
        ) by {
            assert(r.to_multiset().count(r[i]) > 0);
            if r[i] == x {
                assert(node_le(x, s.last()));
            } else {
                assert(s.to_multiset().count(r[i]) > 0) by {
                    assert(t.to_multiset().insert(x).count(r[i]) > 0);
                    assert(t.to_multiset().count(r[i]) > 0);
                    assert(t.contains(r[i]));
                    let k = choose|k: int| 0 <= k < t.len() && t[k] == r[i];
                    assert(s[k] == t[k]);
                    assert(s.contains(r[i]));
                }
                let k = choose|k: int| 0 <= k < s.len() && s[k] == r[i];
                if k < s.len() - 1 {
                    assert(node_le(s[k], s.last()));
                }
            }
        }
        assert(s =~= t.push(s.last()));
        assert(insert_sorted_m(x, s) == r.push(s.last()));
        assert forall|i: int, j: int|
            0 <= i < j < r.push(s.last()).len() implies node_le(
            #[trigger] r.push(s.last())[i],
            #[trigger] r.push(s.last())[j],
        ) by {
            if j < r.len() {
            } else {
                assert(node_le(r[i], s.last()));
            }
        }
        assert(r.push(s.last()).to_multiset() =~= s.to_multiset().insert(x)) by {
            assert(r.to_multiset() =~= t.to_multiset().insert(x));
            assert(r.push(s.last()).to_multiset() =~= r.to_multiset().insert(s.last()));
            assert(s.to_multiset() =~= t.to_multiset().insert(s.last())) by {
                assert(t.push(s.last()).to_multiset() =~= t.to_multiset().insert(s.last()));
            }
        }
    }
}

/// The sort orders its input and keeps exactly its elements.
pub proof fn lemma_sort_nodes(s: Seq<NodeView>)
    ensures
        sorted_nodes(sort_nodes_m(s)),
        sort_nodes_m(s).len() == s.len(),
        sort_nodes_m(s).to_multiset() == s.to_multiset(),
    decreases s.len(),
{
    broadcast use vstd::seq_lib::group_to_multiset_ensures;

    if s.len() == 0 {
    } else {
        let t = s.drop_last();
        lemma_sort_nodes(t);
        lemma_insert_sorted(s.last(), sort_nodes_m(t));
        assert(s =~= t.push(s.last()));
        assert(t.push(s.last()).to_multiset() =~= t.to_multiset().insert(s.last()));
    }
}

/// Sorting twice is sorting once.
pub proof fn lemma_sort_twice(s: Seq<NodeView>)
    ensures
        sort_nodes_m(sort_nodes_m(s)) == sort_nodes_m(s),
{
    lemma_sort_nodes(s);
    lemma_sort_idempotent(sort_nodes_m(s));
}

/// Sorting an already sorted sequence returns it unchanged.
pub proof fn lemma_sort_idempotent(s: Seq<NodeView>)
    requires
        sorted_nodes(s),
    ensures
        sort_nodes_m(s) == s,
    decreases s.len(),
{
    if s.len() > 0 {
        let t = s.drop_last();
        assert(sorted_nodes(t)) by {
            assert(forall|i: int, j: int|
                0 <= i < j < t.len() ==> node_le(#[trigger] t[i], #[trigger] t[j]) && t[i] == s[i]
                    && t[j] == s[j]);
        }
        lemma_sort_idempotent(t);
        if t.len() == 0 {
            assert(sort_nodes_m(s) =~= s);
        } else {
            assert(node_le(t.last(), s.last())) by {
                assert(t.last() == s[s.len() - 2]);
            }
            assert(insert_sorted_m(s.last(), t) == t.push(s.last()));
            assert(t.push(s.last()) =~= s);
        }
    }
}

pub proof fn lemma_lex_le_skip(a: Seq<char>, b: Seq<char>, i: int)
    requires
        0 <= i <= a.len(),
        i <= b.len(),
        forall|j: int| 0 <= j < i ==> a[j] == b[j],
    ensures
        lex_le(a, b) == lex_le(a.skip(i), b.skip(i)),
    decreases i,
{
    if i > 0 {
        assert(a[0] == b[0]);
        assert(forall|j: int|
            0 <= j < i - 1 ==> #[trigger] a.drop_first()[j] == a[j + 1] && b.drop_first()[j] == b[j
                + 1]);
        lemma_lex_le_skip(a.drop_first(), b.drop_first(), i - 1);
        assert(a.drop_first().skip(i - 1) =~= a.skip(i));
        assert(b.drop_first().skip(i - 1) =~= b.skip(i));
    } else {
        assert(a.skip(0) =~= a);
        assert(b.skip(0) =~= b);
    }
}

/// True exactly when `a` orders lexicographically no later than `b`.
pub fn lex_le_exec(a: &String, b: &String) -> (r: bool)
    ensures
        r == lex_le(a@, b@),
{
    let an = a.as_str().unicode_len();
    let bn = b.as_str().unicode_len();
    let mut i: usize = 0;
    while i < an && i < bn
        invariant
            i <= an,
            i <= bn,
            an == a@.len(),
            bn == b@.len(),
            forall|j: int| 0 <= j < i ==> a@[j] == b@[j],
        decreases an - i,
    {
        let ca = a.as_str().get_char(i);
        let cb = b.as_str().get_char(i);
        if ca != cb {
            proof {
                lemma_lex_le_skip(a@, b@, i as int);
                assert(a@.skip(i as int)[0] == a@[i as int]);
                assert(b@.skip(i as int)[0] == b@[i as int]);
            }
            return (ca as u32) < (cb as u32);
        }
        i = i + 1;
    }
    proof {
        lemma_lex_le_skip(a@, b@, i as int);
    }
    if i >= an {
        proof {
            assert(a@.skip(i as int).len() == 0);
        }
        true
    } else {
        proof {
            assert(b@.skip(i as int).len() == 0);
        }
        false
    }
}

/// True exactly when `a` orders no later than `b` under the sibling policy.
pub fn node_le_exec(a: &OptionNode, b: &OptionNode) -> (r: bool)
    ensures
        r == node_le(a@, b@),
{
    let ra: u32 = if a.option_type.is_some() {
        1
    } else {
        0
    };
    let rb: u32 = if b.option_type.is_some() {
        1
    } else {
        0
    };
    if ra != rb {
        return ra < rb;
    }
    let ca = name_class_exec(&a.name);
    let cb = name_class_exec(&b.name);
    if ca != cb {
        return ca < cb;
    }
    lex_le_exec(&a.name, &b.name)
}

fn name_class_exec(s: &String) -> (r: u32)
    ensures
        r as int == name_class(s@),
{
    if crate::text::string_eq_str(s, "enable") {
        0
    } else if s.as_str().is_empty() {
        2
    } else {
        1
    }
}

pub proof fn lemma_insert_position(x: NodeView, s: Seq<NodeView>, p: int)
    requires
        0 <= p <= s.len(),
        forall|m: int| p <= m < s.len() ==> !node_le(#[trigger] s[m], x),
        p > 0 ==> node_le(s[p - 1], x),
    ensures
        insert_sorted_m(x, s) == s.take(p) + seq![x] + s.skip(p),
    decreases s.len(),
{
    if s.len() == 0 {
        assert(insert_sorted_m(x, s) =~= s.take(p) + seq![x] + s.skip(p));
    } else if node_le(s.last(), x) {
        assert(p == s.len());
        assert(s.push(x) =~= s.take(p) + seq![x] + s.skip(p));
    } else {
        let t = s.drop_last();
        assert(p < s.len());
        assert(forall|m: int| p <= m < t.len() ==> !node_le(#[trigger] t[m], x) && t[m] == s[m]);
        assert(p > 0 ==> t[p - 1] == s[p - 1]);
        lemma_insert_position(x, t, p);
        assert(insert_sorted_m(x, s) == insert_sorted_m(x, t).push(s.last()));
        assert((t.take(p) + seq![x] + t.skip(p)).push(s.last()) =~= s.take(p) + seq![x] + s.skip(
            p,
        )) by {
            assert(t.take(p) =~= s.take(p));
        }
    }
}

fn find_insert_pos(v: &Vec<OptionNode>, x: &OptionNode) -> (p: usize)
    ensures
        p <= v@.len(),
        forall|m: int| p <= m < v@.len() ==> !node_le(nodes_view(v@)[m], x@),
        p > 0 ==> node_le(nodes_view(v@)[p - 1], x@),
{
    let ghost sv = nodes_view(v@);
    proof {
        lemma_nodes_view(v@);
    }
    let mut p: usize = v.len();
    while p > 0
        invariant
            p <= v@.len(),
            sv == nodes_view(v@),
            sv.len() == v@.len(),
            forall|m: int| 0 <= m < sv.len() ==> sv[m] == node_view(#[trigger] v@[m]),
            forall|m: int| p <= m < v@.len() ==> !node_le(#[trigger] sv[m], x@),
        decreases p,
    {
        if node_le_exec(&v[p - 1], x) {
            return p;
        }
        p = p - 1;
    }
    0
}

fn insert_node(v: Vec<OptionNode>, x: OptionNode) -> (r: Vec<OptionNode>)
    ensures
        nodes_view(r@) == insert_sorted_m(node_view(x), nodes_view(v@)),
{
    let ghost sv = nodes_view(v@);
    let ghost xv = node_view(x);
    proof {
        lemma_nodes_view(v@);
    }
    let p = find_insert_pos(&v, &x);
    let mut v = v;
    let ghost oldv = v@;
    v.insert(p, x);
    proof {
        lemma_insert_position(xv, sv, p as int);
        lemma_nodes_view(v@);
        lemma_nodes_view(oldv);
        assert forall|m: int| 0 <= m < v@.len() implies nodes_view(v@)[m] == (sv.take(p as int)
            + seq![xv] + sv.skip(p as int))[m] by {
            if m < p {
                assert(v@[m] == oldv[m]);
            } else if m == p {
                assert(v@[m] == x);
            } else {
                assert(v@[m] == oldv[m - 1]);
            }
        }
        assert(nodes_view(v@) =~= sv.take(p as int) + seq![xv] + sv.skip(p as int));
    }
    v
}

/// Sorts sibling nodes by the fixed policy, stably.
pub fn sort_siblings(v: Vec<OptionNode>) -> (r: Vec<OptionNode>)
    ensures
        nodes_view(r@) == sort_nodes_m(nodes_view(v@)),
{
    let ghost ve = v@;
    let ghost orig = nodes_view(v@);
    proof {
        lemma_nodes_view(ve);
    }
    let mut rest = v;
    let mut out: Vec<OptionNode> = Vec::new();
    let mut k: usize = 0;
    proof {
        vstd::std_specs::vec::axiom_spec_len(&rest);
    }
    while rest.len() > 0
        invariant
            ve.len() <= usize::MAX,
            k + rest@.len() == ve.len(),
            rest@ == ve.skip(k as int),
            orig == nodes_view(ve),
            orig.len() == ve.len(),
            forall|m: int| 0 <= m < ve.len() ==> orig[m] == node_view(#[trigger] ve[m]),
            nodes_view(out@) == sort_nodes_m(orig.take(k as int)),
        decreases rest@.len(),
    {
        let x = rest.remove(0);
        proof {
            assert(x == ve[k as int]);
        }
        out = insert_node(out, x);
        proof {
            assert(rest@ =~= ve.skip(k as int + 1));
            let tk = orig.take(k as int + 1);
            assert(tk.drop_last() =~= orig.take(k as int));
            assert(tk.last() == orig[k as int]);
            assert(sort_nodes_m(tk) == insert_sorted_m(orig[k as int], sort_nodes_m(
                orig.take(k as int),
            )));
        }
        k = k + 1;
    }
    proof {
        assert(orig.take(k as int) =~= orig);
    }
    out
}

} // verus!
