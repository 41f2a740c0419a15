use vstd::prelude::*;
use crate::error::TaskError;
use crate::node_instance::NodeInstanceId;
use crate::state::Task;
use crate::value::Value;

verus! {

/// Two instantiations give two distinct handles, each with a record of its
/// own: empty at first, and untouched when the other's memory is set.
pub proof fn lemma_instances_are_separate(
    t0: Task,
    t1: Task,
    t2: Task,
    t3: Task,
    n1: Seq<char>,
    n2: Seq<char>,
    id1: NodeInstanceId,
    id2: NodeInstanceId,
    key: Seq<char>,
    v: Value,
)
    requires
        t0.wf(),
        t0.instantiated(t1, n1, id1),
        t1.instantiated(t2, n2, id2),
        t2.memory_set(t3, id1.0, key, v),
    ensures
        id1 != id2,
        t2.has_instance(id1.0) && t2.has_instance(id2.0),
        t2.inst(id1.0).memory@ == Map::<Seq<char>, Value>::empty(),
        t2.inst(id2.0).memory@ == Map::<Seq<char>, Value>::empty(),
        t2.inst(id1.0).input_connections@.dom() == Set::<Seq<char>>::empty(),
        t2.inst(id2.0).input_connections@.dom() == Set::<Seq<char>>::empty(),
        t2.inst(id1.0) == t1.inst(id1.0),
        t3.inst(id2.0) == t2.inst(id2.0),
{
    assert(t2.instances@[id1.0 - crate::node_instance::START_ID] == t1.instances@[id1.0 - crate::node_instance::START_ID]);
}

/// Wiring ports whose types differ fails with a type error.
pub proof fn lemma_type_mismatch_rejected(t: Task, out_id: u32, out_arg: Seq<char>, in_id: u32, in_arg: Seq<char>)
    requires
        t.wf(),
        t.has_instance(out_id),
        t.has_instance(in_id),
        t.template(out_id).meta.output_args@.contains_key(out_arg),
        t.template(in_id).meta.input_args@.contains_key(in_arg),
        t.template(out_id).meta.output_args@[out_arg].value_type != t.template(in_id).meta.input_args@[in_arg].value_type,
    ensures
        t.connect_outcome(out_id, out_arg, in_id, in_arg) == Err::<(), TaskError>(TaskError::IncompatibleTypes),
{
}

/// Once `a` feeds `b`, directly or through other instances, wiring `b` to
/// feed `a` fails with a cycle error.
pub proof fn lemma_reverse_wire_is_cycle(t: Task, a: u32, a_in: Seq<char>, b: u32, b_out: Seq<char>)
    requires
        t.wf(),
        t.depends_on(b, a),
        t.has_instance(a),
        t.has_instance(b),
        t.template(b).meta.output_args@.contains_key(b_out),
        t.template(a).meta.input_args@.contains_key(a_in),
        t.template(b).meta.output_args@[b_out].value_type == t.template(a).meta.input_args@[a_in].value_type,
    ensures
        t.connect_outcome(b, b_out, a, a_in) == Err::<(), TaskError>(TaskError::Cycle),
{
}

/// After wiring an output of `a` to an input of `b`, `b` depends on `a`.
pub proof fn lemma_wire_creates_dependency(
    t: Task,
    post: Task,
    a: u32,
    a_out: Seq<char>,
    b: u32,
    b_in: Seq<char>,
)
    requires
        t.wf(),
        t.connect_outcome(a, a_out, b, b_in) is Ok,
        t.connected(post, a, a_out, b, b_in),
    ensures
        post.depends_directly(b, a),
        post.depends_on(b, a),
{
    t.lemma_depends_self(a);
    assert(post.inst(b).input_connections@.contains_key(b_in));
    assert(post.depends_directly(b, a));
    post.lemma_depends_self(b);
    post.lemma_depends_step(b, b, a);
}

/// Wiring `a` to `b` adds no dependency of `a`.
pub proof fn lemma_wire_keeps_producer_deps(
    t: Task,
    post: Task,
    a: u32,
    a_out: Seq<char>,
    b: u32,
    b_in: Seq<char>,
    path: Seq<u32>,
)
    requires
        t.wf(),
        t.connect_outcome(a, a_out, b, b_in) is Ok,
        t.connected(post, a, a_out, b, b_in),
        post.is_chain(path),
        path[0] == a,
    ensures
        t.is_chain(path),
    decreases path.len(),
{
    t.lemma_depends_self(a);
    if path.len() > 1 {
        let prefix = path.drop_last();
        assert(post.is_chain(prefix)) by {
            assert forall|i: int| 0 <= i < prefix.len() - 1 implies #[trigger] post.depends_directly(prefix[i], prefix[i + 1]) by {
                assert(post.depends_directly(path[i], path[i + 1]));
            }
        }
        lemma_wire_keeps_producer_deps(t, post, a, a_out, b, b_in, prefix);
        let i = path.len() - 2;
        let x = path[i];
        let y = path[i + 1];
        assert(post.depends_directly(x, y));
        assert(prefix.last() == x);
        if x == b {
            assert(t.is_chain(prefix) && prefix[0] == a && prefix.last() == b);
            assert(t.depends_on(a, b));
        }
        let p = choose|p: Seq<char>| #[trigger] post.inst(x).input_connections@.contains_key(p)
            && post.inst(x).input_connections@[p].instance.0 == y;
        assert(t.has_instance(x));
        assert(post.inst(x).input_connections == t.inst(x).input_connections);
        assert(t.depends_directly(x, y));
        assert forall|j: int| 0 <= j < path.len() - 1 implies #[trigger] t.depends_directly(path[j], path[j + 1]) by {
            if j < i {
                assert(t.depends_directly(prefix[j], prefix[j + 1]));
            }
        }
    }
}

/// After wiring `a` to `b`, wiring `a` to a `c` that `a` does not depend
/// on succeeds, when the ports exist and their types agree.
pub proof fn lemma_fan_out_wire_succeeds(
    t: Task,
    post: Task,
    a: u32,
    a_out: Seq<char>,
    b: u32,
    b_in: Seq<char>,
    a_out2: Seq<char>,
    c: u32,
    c_in: Seq<char>,
)
    requires
        t.wf(),
        t.connect_outcome(a, a_out, b, b_in) is Ok,
        t.connected(post, a, a_out, b, b_in),
        !t.depends_on(a, c),
        t.has_instance(c),
        t.template(a).meta.output_args@.contains_key(a_out2),
        t.template(c).meta.input_args@.contains_key(c_in),
        t.template(a).meta.output_args@[a_out2].value_type == t.template(c).meta.input_args@[c_in].value_type,
    ensures
        post.connect_outcome(a, a_out2, c, c_in) == Ok::<(), TaskError>(()),
{
    if post.depends_on(a, c) {
        let path = choose|path: Seq<u32>| #[trigger] post.is_chain(path) && path[0] == a && path.last() == c;
        lemma_wire_keeps_producer_deps(t, post, a, a_out, b, b_in, path);
        assert(t.is_chain(path));
    }
    assert(post.inst(a).node_id == t.inst(a).node_id);
    if c != a && c != b {
        assert(post.inst(c) == t.inst(c));
    }
    assert(post.template(a) == t.template(a));
    assert(post.template(c) == t.template(c));
}

/// In an evaluation order, everything an instance depends on, directly or
/// not, comes before it.
pub proof fn lemma_order_respects_dependencies(t: Task, order: Seq<NodeInstanceId>, k: int, path: Seq<u32>)
    requires
        t.wf(),
        t.is_evaluation_order(order),
        0 <= k < order.len(),
        t.is_chain(path),
        path.len() >= 2,
        path[0] == order[k].0,
    ensures
        exists|j: int| 0 <= j < k && (#[trigger] order[j]).0 == path.last(),
    decreases path.len(),
{
    if path.len() == 2 {
        let i: int = 0;
        assert(t.depends_directly(path[i], path[i + 1]));
        let p = choose|p: Seq<char>| #[trigger] t.inst(path[0]).input_connections@.contains_key(p)
            && t.inst(path[0]).input_connections@[p].instance.0 == path[1];
        assert(t.inst(order[k].0).input_connections@.contains_key(p));
    } else {
        let prefix = path.drop_last();
        assert(t.is_chain(prefix)) by {
            assert forall|i: int| 0 <= i < prefix.len() - 1 implies #[trigger] t.depends_directly(prefix[i], prefix[i + 1]) by {
                assert(t.depends_directly(path[i], path[i + 1]));
            }
        }
        lemma_order_respects_dependencies(t, order, k, prefix);
        let j1 = choose|j: int| 0 <= j < k && (#[trigger] order[j]).0 == prefix.last();
        let i = path.len() - 2;
        assert(t.depends_directly(path[i], path[i + 1]));
        let p = choose|p: Seq<char>| #[trigger] t.inst(path[i]).input_connections@.contains_key(p)
            && t.inst(path[i]).input_connections@[p].instance.0 == path[i + 1];
        assert(t.inst(order[j1].0).input_connections@.contains_key(p));
        let j2 = choose|j: int| 0 <= j < j1 && (#[trigger] order[j]).0 == t.inst(order[j1].0).input_connections@[p].instance.0;
    }
}

/// Removing dependencies keeps a graph acyclic.
pub proof fn lemma_fewer_edges_acyclic(t: Task, post: Task)
    requires
        t.acyclic(),
        forall|x: u32, y: u32| #[trigger] post.depends_directly(x, y) ==> t.depends_directly(x, y),
    ensures
        post.acyclic(),
{
    assert forall|path: Seq<u32>| #[trigger] post.is_chain(path) && path.len() >= 2 implies path[0] != path.last() by {
        assert forall|i: int| 0 <= i < path.len() - 1 implies #[trigger] t.depends_directly(path[i], path[i + 1]) by {
            assert(post.depends_directly(path[i], path[i + 1]));
        }
        assert(t.is_chain(path));
    }
}

/// A wire that `connect` accepts keeps the graph acyclic.
pub proof fn lemma_wire_keeps_acyclic(t: Task, post: Task, a: u32, a_out: Seq<char>, b: u32, b_in: Seq<char>)
    requires
        t.wf(),
        t.acyclic(),
        t.connect_outcome(a, a_out, b, b_in) is Ok,
        t.connected(post, a, a_out, b, b_in),
    ensures
        post.acyclic(),
{
    t.lemma_depends_self(a);
    assert forall|path: Seq<u32>| #[trigger] post.is_chain(path) && path.len() >= 2 implies path[0] != path.last() by {
        if path[0] == path.last() {
            if exists|k: int| 0 <= k < path.len() && path[k] == a {
                let k0 = choose|k: int| 0 <= k < path.len() && path[k] == a;
                let k = if k0 == path.len() - 1 { 0 } else { k0 };
                let rot = path.subrange(k, path.len() as int) + path.subrange(1, k + 1);
                assert forall|i: int| 0 <= i < rot.len() - 1 implies #[trigger] post.depends_directly(rot[i], rot[i + 1]) by {
                    let m = path.len() - k;
                    if i < m - 1 {
                        assert(post.depends_directly(path[k + i], path[k + i + 1]));
                    } else if i == m - 1 {
                        let z: int = 0;
                        assert(post.depends_directly(path[z], path[z + 1]));
                    } else {
                        let j = i - m + 1;
                        assert(post.depends_directly(path[j], path[j + 1]));
                    }
                }
                assert(post.is_chain(rot));
                lemma_wire_keeps_producer_deps(t, post, a, a_out, b, b_in, rot);
                assert(t.is_chain(rot));
            } else {
                assert forall|i: int| 0 <= i < path.len() - 1 implies #[trigger] t.depends_directly(path[i], path[i + 1]) by {
                    let x = path[i];
                    let y = path[i + 1];
                    assert(post.depends_directly(x, y));
                    assert(y != a);
                    let p = choose|p: Seq<char>| #[trigger] post.inst(x).input_connections@.contains_key(p)
                        && post.inst(x).input_connections@[p].instance.0 == y;
                    assert(t.has_instance(x));
                    if x == b {
                        assert(p != b_in);
                        assert(t.inst(x).input_connections@.contains_key(p));
                    } else {
                        assert(post.inst(x).input_connections == t.inst(x).input_connections);
                    }
                }
                assert(t.is_chain(path));
            }
        }
    }
}

/// A graph that has an evaluation order is acyclic.
pub proof fn lemma_order_implies_acyclic(t: Task, order: Seq<NodeInstanceId>)
    requires
        t.wf(),
        t.is_evaluation_order(order),
    ensures
        t.acyclic(),
{
    assert forall|path: Seq<u32>| #[trigger] t.is_chain(path) && path.len() >= 2 implies path[0] != path.last() by {
        let z: int = 0;
        assert(t.depends_directly(path[z], path[z + 1]));
        assert(t.has_instance(path[0]));
        assert(crate::deps::holds_id(order, path[0]));
        let k = choose|k: int| 0 <= k < order.len() && (#[trigger] order[k]).0 == path[0];
        lemma_order_respects_dependencies(t, order, k, path);
        if path[0] == path.last() {
            let j = choose|j: int| 0 <= j < k && (#[trigger] order[j]).0 == path.last();
            assert(order[j] == order[k]);
        }
    }
}

} // verus!
