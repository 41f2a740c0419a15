use vstd::prelude::*;
use vstd::set_lib::{lemma_int_range, lemma_len_subset, set_int_range};
use crate::error::TaskError;
use crate::node_instance::{NodeInstanceId, START_ID};
use crate::state::Task;

verus! {

/// Whether the handle `b` is among `v`.
pub open spec fn holds_id(v: Seq<NodeInstanceId>, b: u32) -> bool {
    exists|k: int| 0 <= k < v.len() && (#[trigger] v[k]).0 == b
}

pub open spec fn no_duplicates(v: Seq<NodeInstanceId>) -> bool {
    forall|i: int, j: int| 0 <= i < j < v.len() ==> v[i] != v[j]
}

impl Task {
    /// Instance `a` reads one of its inputs from instance `b`.
    pub open spec fn depends_directly(&self, a: u32, b: u32) -> bool {
        &&& self.has_instance(a)
        &&& exists|p: Seq<char>|
            #[trigger] self.inst(a).input_connections@.contains_key(p)
                && self.inst(a).input_connections@[p].instance.0 == b
    }

    /// Each handle of `path` depends directly on the next.
    pub open spec fn is_chain(&self, path: Seq<u32>) -> bool {
        &&& path.len() >= 1
        &&& forall|i: int| 0 <= i < path.len() - 1 ==> #[trigger] self.depends_directly(path[i], path[i + 1])
    }

    /// `a` depends on `b`, directly, indirectly, or by being `b`.
    pub open spec fn depends_on(&self, a: u32, b: u32) -> bool {
        exists|path: Seq<u32>| #[trigger] self.is_chain(path) && path[0] == a && path.last() == b
    }

    /// A set that holds the start of a chain and is closed under direct
    /// dependencies holds the whole chain.
    pub proof fn lemma_closed_contains(&self, s: Set<u32>, path: Seq<u32>)
        requires
            self.is_chain(path),
            s.contains(path[0]),
            forall|x: u32, y: u32| s.contains(x) && #[trigger] self.depends_directly(x, y) ==> s.contains(y),
        ensures
            s.contains(path.last()),
        decreases path.len(),
    {
        if path.len() > 1 {
            let prefix = path.drop_last();
            assert(self.is_chain(prefix)) by {
                assert forall|i: int| 0 <= i < prefix.len() - 1 implies #[trigger] self.depends_directly(
                    prefix[i],
                    prefix[i + 1],
                ) by {
                    assert(self.depends_directly(path[i], path[i + 1]));
                }
            }
            self.lemma_closed_contains(s, prefix);
            let i = path.len() - 2;
            assert(self.depends_directly(path[i], path[i + 1]));
            assert(prefix.last() == path[i]);
        }
    }

    /// One more direct dependency extends a chain.
    pub proof fn lemma_depends_step(&self, a: u32, c: u32, b: u32)
        requires
            self.depends_on(a, c),
            self.depends_directly(c, b),
        ensures
            self.depends_on(a, b),
    {
        let path = choose|path: Seq<u32>| #[trigger] self.is_chain(path) && path[0] == a && path.last() == c;
        let p2 = path.push(b);
        assert forall|i: int| 0 <= i < p2.len() - 1 implies #[trigger] self.depends_directly(p2[i], p2[i + 1]) by {
            if i < path.len() - 1 {
                assert(self.depends_directly(path[i], path[i + 1]));
            }
        }
        assert(self.is_chain(p2));
    }

    /// Everything depends on itself.
    pub proof fn lemma_depends_self(&self, a: u32)
        ensures
            self.depends_on(a, a),
    {
        assert(self.is_chain(seq![a]));
    }

    /// The instances that `instance` reads its inputs from, each once.
    pub fn get_direct_deps(&self, instance: NodeInstanceId) -> (r: Result<Vec<NodeInstanceId>, TaskError>)
        requires
            self.wf(),
        ensures
            !self.has_instance(instance.0) ==> r == Err::<Vec<NodeInstanceId>, TaskError>(
                TaskError::InstanceNotFound,
            ),
            self.has_instance(instance.0) ==> r is Ok,
            r is Ok ==> no_duplicates(r->Ok_0@),
            r is Ok ==> forall|b: u32| holds_id(r->Ok_0@, b) == self.depends_directly(instance.0, b),
    {
        let inst = self.get_instance(instance)?;
        let conns = &inst.input_connections;
        let mut out: Vec<NodeInstanceId> = Vec::new();
        let mut j: usize = 0;
        while j < conns.len()
            invariant
                self.wf(),
                self.has_instance(instance.0),
                *inst == self.inst(instance.0),
                conns == &inst.input_connections,
                conns.wf(),
                j <= conns.size(),
                no_duplicates(out@),
                forall|k: int| 0 <= k < j ==> holds_id(out@, (#[trigger] conns.val(k)).instance.0),
                forall|b: u32| holds_id(out@, b) ==> exists|k: int| 0 <= k < j && (#[trigger] conns.val(k)).instance.0 == b,
            decreases conns.size() - j,
        {
            let peer = conns.value_at(j).instance;
            let ghost prev = out@;
            let mut seen = false;
            let mut k: usize = 0;
            while k < out.len()
                invariant
                    k <= out@.len(),
                    seen == exists|m: int| 0 <= m < k && out@[m] == peer,
                decreases out@.len() - k,
            {
                if out[k].0 == peer.0 {
                    seen = true;
                }
                k = k + 1;
            }
            if !seen {
                out.push(peer);
                assert(out@[out@.len() - 1] == peer);
            }
            proof {
                if seen {
                    let m = choose|m: int| 0 <= m < out@.len() && out@[m] == peer;
                    assert(out@[m].0 == peer.0);
                }
                assert(holds_id(out@, peer.0));
                assert forall|k: int| 0 <= k < j + 1 implies holds_id(out@, (#[trigger] conns.val(k)).instance.0) by {
                    if k < j {
                        let m = choose|m: int| 0 <= m < prev.len() && (#[trigger] prev[m]).0 == conns.val(k).instance.0;
                        assert(out@[m] == prev[m]);
                    }
                }
                assert forall|b: u32| holds_id(out@, b) implies exists|k: int|
                    0 <= k < j + 1 && (#[trigger] conns.val(k)).instance.0 == b by {
                    let m = choose|m: int| 0 <= m < out@.len() && (#[trigger] out@[m]).0 == b;
                    if m < prev.len() {
                        assert(prev[m] == out@[m]);
                        assert(holds_id(prev, b));
                    } else {
                        assert(conns.val(j as int).instance.0 == b);
                    }
                }
            }
            j = j + 1;
        }
        proof {
            assert forall|b: u32| holds_id(out@, b) == self.depends_directly(instance.0, b) by {
                if holds_id(out@, b) {
                    let k = choose|k: int| 0 <= k < conns.size() && (#[trigger] conns.val(k)).instance.0 == b;
                    assert(conns@.contains_key(conns.key(k)));
                }
                if self.depends_directly(instance.0, b) {
                    let p = choose|p: Seq<char>| #[trigger] conns@.contains_key(p) && conns@[p].instance.0 == b;
                    let k = choose|k: int| 0 <= k < conns.size() && conns.key(k) == p;
                    assert(conns@.contains_key(conns.key(k)));
                    assert(holds_id(out@, conns.val(k).instance.0));
                }
            }
        }
        Ok(out)
    }
    /// Everything that `instance` depends on, directly or not, itself
    /// included, each once.
    pub fn get_all_deps(&self, instance: NodeInstanceId) -> (r: Result<Vec<NodeInstanceId>, TaskError>)
        requires
            self.wf(),
        ensures
            !self.has_instance(instance.0) ==> r == Err::<Vec<NodeInstanceId>, TaskError>(
                TaskError::InstanceNotFound,
            ),
            self.has_instance(instance.0) ==> r is Ok,
            r is Ok ==> no_duplicates(r->Ok_0@),
            r is Ok ==> forall|b: u32| holds_id(r->Ok_0@, b) == self.depends_on(instance.0, b),
    {
        self.get_instance(instance)?;
        let n = self.instances.len();
        let mut visited: Vec<bool> = Vec::new();
        while visited.len() < n
            invariant
                visited@.len() <= n,
                forall|i: int| 0 <= i < visited@.len() ==> !visited@[i],
            decreases n - visited@.len(),
        {
            visited.push(false);
        }
        let start = (instance.0 - START_ID) as usize;
        visited.set(start, true);
        let mut order: Vec<NodeInstanceId> = Vec::new();
        order.push(instance);
        let ghost mut vset: Set<int> = set![start as int];
        proof {
            self.lemma_depends_self(instance.0);
            assert(vset.len() == 1);
            assert(order@[0] == instance);
        }
        let mut head: usize = 0;
        while head < order.len()
            invariant
                self.wf(),
                self.has_instance(instance.0),
                n == self.instances@.len(),
                visited@.len() == n,
                head <= order@.len(),
                order@.len() >= 1,
                order@[0] == instance,
                vset.finite(),
                vset.len() == order@.len(),
                forall|i: int| #![trigger vset.contains(i)] #![trigger visited@[i]]
                    vset.contains(i) <==> (0 <= i < n && visited@[i]),
                forall|k: int|
                    0 <= k < order@.len() ==> self.has_instance((#[trigger] order@[k]).0)
                        && visited@[order@[k].0 - START_ID] && self.depends_on(instance.0, order@[k].0),
                forall|i: int| 0 <= i < n && #[trigger] visited@[i] ==> holds_id(order@, (START_ID + i) as u32),
                no_duplicates(order@),
                forall|k: int, p: Seq<char>|
                    0 <= k < head && #[trigger] self.inst(order@[k].0).input_connections@.contains_key(p)
                        ==> visited@[self.inst(order@[k].0).input_connections@[p].instance.0 - START_ID],
            decreases n - head,
        {
            proof {
                lemma_int_range(0, n as int);
                lemma_len_subset(vset, set_int_range(0, n as int));
            }
            let x = order[head];
            let conns = &self.instances[(x.0 - START_ID) as usize].input_connections;
            assert(self.instances@[x.0 - START_ID].wf());
            let mut j: usize = 0;
            while j < conns.len()
                invariant
                    self.wf(),
                    self.has_instance(instance.0),
                    self.has_instance(x.0),
                    *conns == self.inst(x.0).input_connections,
                    conns.wf(),
                    self.depends_on(instance.0, x.0),
                    x == order@[head as int],
                    j <= conns.size(),
                    n == self.instances@.len(),
                    visited@.len() == n,
                    head < order@.len(),
                    order@[0] == instance,
                    vset.finite(),
                    vset.len() == order@.len(),
                    forall|i: int| #![trigger vset.contains(i)] #![trigger visited@[i]]
                        vset.contains(i) <==> (0 <= i < n && visited@[i]),
                    forall|k: int|
                        0 <= k < order@.len() ==> self.has_instance((#[trigger] order@[k]).0)
                            && visited@[order@[k].0 - START_ID] && self.depends_on(instance.0, order@[k].0),
                    forall|i: int| 0 <= i < n && #[trigger] visited@[i] ==> holds_id(order@, (START_ID + i) as u32),
                    no_duplicates(order@),
                    forall|k: int, p: Seq<char>|
                        0 <= k < head && #[trigger] self.inst(order@[k].0).input_connections@.contains_key(p)
                            ==> visited@[self.inst(order@[k].0).input_connections@[p].instance.0 - START_ID],
                    forall|jj: int| 0 <= jj < j ==> visited@[(#[trigger] conns.val(jj)).instance.0 - START_ID],
                decreases conns.size() - j,
            {
                let y = conns.value_at(j).instance;
                proof {
                    assert(conns@.contains_key(conns.key(j as int)));
                    assert(self.instances@[x.0 - START_ID].input_connections@.contains_key(conns.key(j as int)));
                    assert(self.depends_directly(x.0, y.0));
                    self.lemma_depends_step(instance.0, x.0, y.0);
                }
                let yi = (y.0 - START_ID) as usize;
                let ghost before = visited@;
                if !visited[yi] {
                    let ghost prev = order@;
                    let ghost pvis = visited@;
                    visited.set(yi, true);
                    order.push(y);
                    proof {
                        vset = vset.insert(yi as int);
                        assert(order@[order@.len() - 1] == y);
                        assert forall|i: int| 0 <= i < n && #[trigger] visited@[i] implies holds_id(
                            order@,
                            (START_ID + i) as u32,
                        ) by {
                            if i != yi {
                                assert(pvis[i]);
                                let k = choose|k: int| 0 <= k < prev.len() && (#[trigger] prev[k]).0 == (START_ID + i) as u32;
                                assert(order@[k] == prev[k]);
                            }
                        }
                        assert forall|a: int, b: int| 0 <= a < b < order@.len() implies order@[a] != order@[b] by {
                            if b == prev.len() {
                                assert(pvis[prev[a].0 - START_ID]);
                            }
                        }
                    }
                }
                proof {
                    assert forall|jj: int| 0 <= jj < j + 1 implies visited@[(#[trigger] conns.val(jj)).instance.0
                        - START_ID] by {
                        assert(conns@.contains_key(conns.key(jj)));
                        assert(self.instances@[x.0 - START_ID].input_connections@.contains_key(conns.key(jj)));
                        if jj < j {
                            assert(before[conns.val(jj).instance.0 - START_ID]);
                        }
                    }
                }
                j = j + 1;
            }
            proof {
                assert forall|k: int, p: Seq<char>|
                    0 <= k < head + 1 && #[trigger] self.inst(order@[k].0).input_connections@.contains_key(p)
                        implies visited@[self.inst(order@[k].0).input_connections@[p].instance.0 - START_ID] by {
                    if k == head {
                        let jj = choose|jj: int| 0 <= jj < conns.size() && conns.key(jj) == p;
                        assert(conns@.contains_key(conns.key(jj)));
                        assert(visited@[conns.val(jj).instance.0 - START_ID]);
                    }
                }
            }
            head = head + 1;
        }
        proof {
            let s = Set::new(|x: u32| holds_id(order@, x));
            assert forall|x: u32, y: u32| s.contains(x) && #[trigger] self.depends_directly(x, y) implies s.contains(y) by {
                let k = choose|k: int| 0 <= k < order@.len() && (#[trigger] order@[k]).0 == x;
                let p = choose|p: Seq<char>|
                    #[trigger] self.inst(x).input_connections@.contains_key(p)
                        && self.inst(x).input_connections@[p].instance.0 == y;
                assert(self.inst(order@[k].0).input_connections@.contains_key(p));
                assert(self.instances@[x - START_ID].input_connections@.contains_key(p));
                assert(visited@[y - START_ID]);
                assert((START_ID + (y - START_ID)) as u32 == y);
            }
            assert forall|b: u32| holds_id(order@, b) == self.depends_on(instance.0, b) by {
                if self.depends_on(instance.0, b) {
                    let path = choose|path: Seq<u32>| #[trigger] self.is_chain(path) && path[0] == instance.0 && path.last() == b;
                    assert(s.contains(instance.0));
                    self.lemma_closed_contains(s, path);
                }
                if holds_id(order@, b) {
                    let k = choose|k: int| 0 <= k < order@.len() && (#[trigger] order@[k]).0 == b;
                }
            }
        }
        Ok(order)
    }
}

} // verus!
