use vstd::prelude::*;
use vstd::set_lib::{lemma_int_range, lemma_len_subset, set_int_range};
use crate::deps::{holds_id, no_duplicates};
use crate::error::TaskError;
use crate::node_data::Node;
use crate::node_instance::{NodeInstance, NodeInstanceId, START_ID};
use crate::state::Task;
use crate::table::Table;
use crate::value::Value;

verus! {

/// Every required input port that `node` declares is wired in `inst`.
pub open spec fn wired(node: Node, inst: NodeInstance) -> bool {
    forall|p: Seq<char>|
        #[trigger] node.meta.input_args@.contains_key(p) && !node.meta.input_args@[p].is_optional
            ==> inst.input_connections@.contains_key(p)
}

/// The outputs produced so far in one run, by instance.
pub struct RunResults {
    pub outputs: Vec<Option<Table<Value>>>,
}

impl RunResults {
    pub open spec fn has(&self, id: u32) -> bool {
        START_ID <= id < START_ID + self.outputs@.len() && self.outputs@[id - START_ID] is Some
    }

    pub open spec fn table(&self, id: u32) -> Table<Value> {
        self.outputs@[id - START_ID]->Some_0
    }

    pub open spec fn wf(&self) -> bool {
        forall|i: int| 0 <= i < self.outputs@.len() && (#[trigger] self.outputs@[i]) is Some ==> self.outputs@[i]->Some_0.wf()
    }

    /// An empty cache, with room for every instance of `task`.
    pub fn new(task: &Task) -> (r: RunResults)
        ensures
            r.wf(),
            r.outputs@.len() == task.instances@.len(),
            forall|id: u32| !r.has(id),
    {
        let mut outputs: Vec<Option<Table<Value>>> = Vec::new();
        while outputs.len() < task.instances.len()
            invariant
                outputs@.len() <= task.instances@.len(),
                forall|i: int| 0 <= i < outputs@.len() ==> (#[trigger] outputs@[i]) is None,
            decreases task.instances@.len() - outputs@.len(),
        {
            outputs.push(None);
        }
        RunResults { outputs }
    }

    /// Records the outputs of instance `id`.
    pub fn record(&mut self, id: NodeInstanceId, outputs: Table<Value>)
        requires
            old(self).wf(),
            outputs.wf(),
            START_ID <= id.0 < START_ID + old(self).outputs@.len(),
        ensures
            final(self).wf(),
            final(self).outputs@.len() == old(self).outputs@.len(),
            final(self).has(id.0),
            final(self).table(id.0) == outputs,
            forall|x: u32| x != id.0 ==> final(self).has(x) == old(self).has(x) && (old(self).has(x)
                ==> final(self).table(x) == old(self).table(x)),
    {
        self.outputs.set((id.0 - START_ID) as usize, Some(outputs));
    }

    pub fn get(&self, id: NodeInstanceId) -> (r: Option<&Table<Value>>)
        ensures
            r.is_some() == self.has(id.0),
            r.is_some() ==> *r.unwrap() == self.table(id.0),
    {
        if id.0 < START_ID || (id.0 - START_ID) as usize >= self.outputs.len() {
            return None;
        }
        match &self.outputs[(id.0 - START_ID) as usize] {
            Some(t) => Some(t),
            None => None,
        }
    }
}

/// More than `n` integers below `n`, none negative, hold a repeat.
proof fn lemma_pigeonhole(q: Seq<int>, n: nat)
    requires
        q.len() > n,
        forall|i: int| 0 <= i < q.len() ==> 0 <= #[trigger] q[i] < n,
    ensures
        exists|a: int, b: int| 0 <= a < b < q.len() && q[a] == q[b],
{
    if !exists|a: int, b: int| 0 <= a < b < q.len() && q[a] == q[b] {
        assert(q.no_duplicates()) by {
            assert forall|a: int, b: int| 0 <= a < q.len() && 0 <= b < q.len() && a != b implies q[a] != q[b] by {
                if a > b {
                    assert(!(q[b] == q[a]));
                }
            }
        }
        q.unique_seq_to_set();
        assert forall|v: int| q.to_set().contains(v) implies set_int_range(0, n as int).contains(v) by {
            let i = choose|i: int| 0 <= i < q.len() && q[i] == v;
        }
        lemma_int_range(0, n as int);
        lemma_len_subset(q.to_set(), set_int_range(0, n as int));
    }
}

impl Task {
    /// Every instance has all of its required inputs wired.
    pub open spec fn all_wired(&self) -> bool {
        forall|x: u32| #[trigger] self.has_instance(x) ==> wired(self.template(x), self.inst(x))
    }

    /// The upstream outputs that instance `x` reads are all in `results`.
    pub open spec fn inputs_available(&self, results: RunResults, x: u32) -> bool {
        forall|p: Seq<char>|
            #[trigger] self.inst(x).input_connections@.contains_key(p) ==> {
                let c = self.inst(x).input_connections@[p];
                results.has(c.instance.0) && results.table(c.instance.0)@.contains_key(c.arg_name@)
            }
    }

    /// `order` lists every instance once, each after the instances it reads from.
    pub open spec fn is_evaluation_order(&self, order: Seq<NodeInstanceId>) -> bool {
        &&& no_duplicates(order)
        &&& forall|k: int| 0 <= k < order.len() ==> self.has_instance((#[trigger] order[k]).0)
        &&& forall|x: u32| self.has_instance(x) ==> #[trigger] holds_id(order, x)
        &&& forall|k: int, p: Seq<char>|
            0 <= k < order.len() && #[trigger] self.inst(order[k].0).input_connections@.contains_key(p)
                ==> exists|j: int|
                0 <= j < k && (#[trigger] order[j]).0 == self.inst(order[k].0).input_connections@[p].instance.0
    }

    /// Whether every required input port of `instance`'s template is wired.
    pub fn is_node_connected(&self, instance: &NodeInstance) -> (r: Result<bool, TaskError>)
        requires
            self.wf(),
            instance.wf(),
        ensures
            !self.has_node(instance.node_id.0@) ==> r == Err::<bool, TaskError>(TaskError::NodeNotFound),
            self.has_node(instance.node_id.0@) ==> r == Ok::<bool, TaskError>(
                wired(self.node(instance.node_id.0@), *instance),
            ),
    {
        let node = self.get_node(&instance.node_id)?;
        proof {
            let k = choose|k: int| 0 <= k < self.nodes@.len() && (#[trigger] self.nodes@[k]).meta.id.0@ == instance.node_id.0@;
            assert(self.nodes@[k].wf());
        }
        if node.is_root() {
            return Ok(true);
        }
        let args = node.input_args();
        let mut j: usize = 0;
        while j < args.len()
            invariant
                self.has_node(instance.node_id.0@),
                args.wf(),
                instance.wf(),
                *args == self.node(instance.node_id.0@).meta.input_args,
                j <= args.size(),
                forall|jj: int| 0 <= jj < j && !(#[trigger] args.val(jj)).is_optional ==> instance.input_connections@.contains_key(args.key(jj)),
            decreases args.size() - j,
        {
            if !args.value_at(j).is_optional {
                if !instance.input_connections.contains_key(args.key_at(j)) {
                    assert(args@.contains_key(args.key(j as int)));
                    return Ok(false);
                }
            }
            j = j + 1;
        }
        proof {
            assert forall|p: Seq<char>|
                #[trigger] args@.contains_key(p) && !args@[p].is_optional implies instance.input_connections@.contains_key(p) by {
                let jj = choose|jj: int| 0 <= jj < args.size() && args.key(jj) == p;
                assert(args@.contains_key(args.key(jj)));
            }
        }
        Ok(true)
    }

    /// Whether every instance has all of its required inputs wired.
    pub fn is_all_nodes_connected(&self) -> (r: Result<bool, TaskError>)
        requires
            self.wf(),
        ensures
            r == Ok::<bool, TaskError>(self.all_wired()),
    {
        let mut i: usize = 0;
        while i < self.instances.len()
            invariant
                self.wf(),
                i <= self.instances@.len(),
                forall|x: u32| #[trigger] self.has_instance(x) && x < START_ID + i ==> wired(self.template(x), self.inst(x)),
            decreases self.instances@.len() - i,
        {
            assert(self.instances@[i as int].wf());
            assert(self.has_node(self.instances@[i as int].node_id.0@));
            let ok = self.is_node_connected(&self.instances[i])?;
            if !ok {
                assert(self.has_instance((START_ID + i) as u32));
                return Ok(false);
            }
            i = i + 1;
        }
        Ok(true)
    }

    /// Every input of instance index `xi` reads from an instance marked in `done`.
    pub open spec fn inputs_ready(&self, done: Seq<bool>, xi: int) -> bool {
        forall|p: Seq<char>|
            #[trigger] self.instances@[xi].input_connections@.contains_key(p)
                ==> done[self.instances@[xi].input_connections@[p].instance.0 - START_ID]
    }

    /// No chain of dependencies leads from an instance back to itself.
    pub open spec fn acyclic(&self) -> bool {
        forall|path: Seq<u32>| #[trigger] self.is_chain(path) && path.len() >= 2 ==> path[0] != path.last()
    }

    /// A chain of `len` instances of `stuck`, from `x0`, when each instance of
    /// `stuck` depends directly on another one.
    proof fn lemma_chain_in(&self, stuck: Set<u32>, x0: u32, len: nat) -> (path: Seq<u32>)
        requires
            len >= 1,
            stuck.contains(x0),
            forall|x: u32| #[trigger] stuck.contains(x) ==> exists|y: u32| stuck.contains(y) && self.depends_directly(x, y),
        ensures
            path.len() == len,
            self.is_chain(path),
            path[0] == x0,
            forall|i: int| 0 <= i < path.len() ==> stuck.contains(#[trigger] path[i]),
        decreases len,
    {
        if len == 1 {
            seq![x0]
        } else {
            let p = self.lemma_chain_in(stuck, x0, (len - 1) as nat);
            assert(stuck.contains(p[p.len() - 1]));
            let y = choose|y: u32| stuck.contains(y) && self.depends_directly(p.last(), y);
            let q = p.push(y);
            assert forall|i: int| 0 <= i < q.len() - 1 implies #[trigger] self.depends_directly(q[i], q[i + 1]) by {
                if i < p.len() - 1 {
                    assert(self.depends_directly(p[i], p[i + 1]));
                }
            }
            q
        }
    }

    /// When every instance of a nonempty set depends directly on another
    /// instance of it, the graph has a cycle.
    proof fn lemma_stuck_has_cycle(&self, stuck: Set<u32>, x0: u32)
        requires
            stuck.contains(x0),
            forall|x: u32| #[trigger] stuck.contains(x) ==> self.has_instance(x),
            forall|x: u32| #[trigger] stuck.contains(x) ==> exists|y: u32| stuck.contains(y) && self.depends_directly(x, y),
        ensures
            !self.acyclic(),
    {
        let n = self.instances@.len();
        let path = self.lemma_chain_in(stuck, x0, n + 1);
        let q = path.map_values(|x: u32| x as int - START_ID as int);
        assert forall|i: int| 0 <= i < q.len() implies 0 <= #[trigger] q[i] < n by {
            assert(stuck.contains(path[i]));
        }
        lemma_pigeonhole(q, n);
        let (a, b) = choose|a: int, b: int| 0 <= a < b < q.len() && q[a] == q[b];
        assert(path[a] == path[b]);
        let cyc = path.subrange(a, b + 1);
        assert forall|k: int| 0 <= k < cyc.len() - 1 implies #[trigger] self.depends_directly(cyc[k], cyc[k + 1]) by {
            assert(self.depends_directly(path[a + k], path[a + k + 1]));
        }
        assert(self.is_chain(cyc));
        assert(cyc[0] == cyc.last());
    }

    /// Whether every input of instance index `xi` reads from an instance
    /// marked in `done`.
    fn inputs_done(&self, xi: usize, done: &Vec<bool>) -> (r: bool)
        requires
            self.wf(),
            xi < self.instances@.len(),
            done@.len() == self.instances@.len(),
        ensures
            r == self.inputs_ready(done@, xi as int),
    {
        let conns = &self.instances[xi].input_connections;
        assert(self.instances@[xi as int].wf());
        let mut j: usize = 0;
        while j < conns.len()
            invariant
                self.wf(),
                xi < self.instances@.len(),
                done@.len() == self.instances@.len(),
                *conns == self.instances@[xi as int].input_connections,
                conns.wf(),
                j <= conns.size(),
                forall|jj: int| 0 <= jj < j ==> done@[(#[trigger] conns.val(jj)).instance.0 - START_ID],
            decreases conns.size() - j,
        {
            proof {
                assert(conns@.contains_key(conns.key(j as int)));
            }
            if !done[(conns.value_at(j).instance.0 - START_ID) as usize] {
                return false;
            }
            j = j + 1;
        }
        proof {
            assert forall|p: Seq<char>| #[trigger] conns@.contains_key(p) implies done@[conns@[p].instance.0 - START_ID] by {
                let jj = choose|jj: int| 0 <= jj < conns.size() && conns.key(jj) == p;
                assert(conns@.contains_key(conns.key(jj)));
            }
        }
        true
    }
    /// The order in which a run evaluates the instances: each instance once,
    /// after every instance it reads from. Fails before any evaluation when a
    /// required input is unwired.
    pub fn evaluation_order(&self) -> (r: Result<Vec<NodeInstanceId>, TaskError>)
        requires
            self.wf(),
        ensures
            !self.all_wired() ==> r == Err::<Vec<NodeInstanceId>, TaskError>(TaskError::NotAllConnected),
            r is Ok ==> self.is_evaluation_order(r->Ok_0@),
            self.all_wired() && self.acyclic() ==> r is Ok,
            self.all_wired() && !self.acyclic() ==> r == Err::<Vec<NodeInstanceId>, TaskError>(TaskError::Cycle),
            r is Err ==> r == Err::<Vec<NodeInstanceId>, TaskError>(TaskError::NotAllConnected) || r == Err::<
                Vec<NodeInstanceId>,
                TaskError,
            >(TaskError::Cycle),
    {
        if !self.is_all_nodes_connected()? {
            return Err(TaskError::NotAllConnected);
        }
        let n = self.instances.len();
        let mut done: Vec<bool> = Vec::new();
        while done.len() < n
            invariant
                done@.len() <= n,
                forall|i: int| 0 <= i < done@.len() ==> !done@[i],
            decreases n - done@.len(),
        {
            done.push(false);
        }
        let mut order: Vec<NodeInstanceId> = Vec::new();
        let ghost mut vset: Set<int> = Set::empty();
        while order.len() < n
            invariant
                self.wf(),
                self.all_wired(),
                n == self.instances@.len(),
                done@.len() == n,
                vset.finite(),
                vset.len() == order@.len(),
                forall|i: int| #![trigger vset.contains(i)] #![trigger done@[i]]
                    vset.contains(i) <==> (0 <= i < n && done@[i]),
                forall|k: int|
                    0 <= k < order@.len() ==> self.has_instance((#[trigger] order@[k]).0)
                        && done@[order@[k].0 - START_ID],
                forall|i: int| 0 <= i < n && #[trigger] done@[i] ==> holds_id(order@, (START_ID + i) as u32),
                no_duplicates(order@),
                forall|k: int, p: Seq<char>|
                    0 <= k < order@.len() && #[trigger] self.inst(order@[k].0).input_connections@.contains_key(p)
                        ==> exists|j: int|
                        0 <= j < k && (#[trigger] order@[j]).0 == self.inst(order@[k].0).input_connections@[p].instance.0,
            decreases n - order@.len(),
        {
            let before = order.len();
            let ghost done_start = done@;
            let mut i: usize = 0;
            while i < n
                invariant
                    self.wf(),
                    self.all_wired(),
                    n == self.instances@.len(),
                    done@.len() == n,
                    before <= order@.len(),
                    order@.len() == before ==> done@ == done_start,
                    order@.len() == before ==> forall|ii: int|
                        0 <= ii < i ==> done@[ii] || !#[trigger] self.inputs_ready(done@, ii),
                    vset.finite(),
                    vset.len() == order@.len(),
                    forall|i: int| #![trigger vset.contains(i)] #![trigger done@[i]]
                        vset.contains(i) <==> (0 <= i < n && done@[i]),
                    forall|k: int|
                        0 <= k < order@.len() ==> self.has_instance((#[trigger] order@[k]).0)
                            && done@[order@[k].0 - START_ID],
                    forall|i: int| 0 <= i < n && #[trigger] done@[i] ==> holds_id(order@, (START_ID + i) as u32),
                    no_duplicates(order@),
                    forall|k: int, p: Seq<char>|
                        0 <= k < order@.len() && #[trigger] self.inst(order@[k].0).input_connections@.contains_key(p)
                            ==> exists|j: int|
                            0 <= j < k && (#[trigger] order@[j]).0 == self.inst(order@[k].0).input_connections@[p].instance.0,
                decreases n - i,
            {
                if !done[i] && self.inputs_done(i, &done) {
                    let ghost prev = order@;
                    let ghost pdone = done@;
                    let id = NodeInstanceId(START_ID + i as u32);
                    done.set(i, true);
                    order.push(id);
                    proof {
                        vset = vset.insert(i as int);
                        assert(order@[order@.len() - 1] == id);
                        assert(id.0 - START_ID == i);
                        assert forall|ii: int| 0 <= ii < n && #[trigger] done@[ii] implies holds_id(
                            order@,
                            (START_ID + ii) as u32,
                        ) by {
                            if ii != i {
                                assert(pdone[ii]);
                                let k = choose|k: int| 0 <= k < prev.len() && (#[trigger] prev[k]).0 == (START_ID + ii) as u32;
                                assert(order@[k] == prev[k]);
                            }
                        }
                        assert forall|a: int, b: int| 0 <= a < b < order@.len() implies order@[a] != order@[b] by {
                            if b == prev.len() {
                                assert(pdone[prev[a].0 - START_ID]);
                            }
                        }
                        assert forall|k: int, p: Seq<char>|
                            0 <= k < order@.len() && #[trigger] self.inst(order@[k].0).input_connections@.contains_key(p)
                                implies exists|j: int|
                                0 <= j < k && (#[trigger] order@[j]).0 == self.inst(order@[k].0).input_connections@[p].instance.0 by {
                            if k < prev.len() {
                                assert(order@[k] == prev[k]);
                                let j = choose|j: int|
                                    0 <= j < k && (#[trigger] prev[j]).0 == self.inst(prev[k].0).input_connections@[p].instance.0;
                                assert(order@[j] == prev[j]);
                            } else {
                                let peer = self.inst(id.0).input_connections@[p].instance.0;
                                assert(self.instances@[i as int].input_connections@.contains_key(p));
                                assert(pdone[peer - START_ID]);
                                assert(self.has_instance(peer));
                                assert(holds_id(prev, (START_ID + (peer - START_ID)) as u32));
                                let j = choose|j: int| 0 <= j < prev.len() && (#[trigger] prev[j]).0 == peer;
                                assert(order@[j] == prev[j]);
                            }
                        }
                    }
                }
                i = i + 1;
            }
            if order.len() == before {
                proof {
                    if self.acyclic() {
                        let stuck = Set::new(|x: u32| self.has_instance(x) && !done@[x - START_ID]);
                        lemma_int_range(0, n as int);
                        if set_int_range(0, n as int).subset_of(vset) {
                            lemma_len_subset(set_int_range(0, n as int), vset);
                        }
                        let i0 = choose|i0: int| set_int_range(0, n as int).contains(i0) && !vset.contains(i0);
                        let x0 = (START_ID + i0) as u32;
                        assert(stuck.contains(x0));
                        assert forall|x: u32| #[trigger] stuck.contains(x) implies self.has_instance(x) by {}
                        assert forall|x: u32| #[trigger] stuck.contains(x) implies exists|y: u32|
                            stuck.contains(y) && self.depends_directly(x, y) by {
                            let xi = x - START_ID;
                            assert(!self.inputs_ready(done@, xi));
                            let p = choose|p: Seq<char>|
                                #[trigger] self.instances@[xi].input_connections@.contains_key(p)
                                    && !done@[self.instances@[xi].input_connections@[p].instance.0 - START_ID];
                            let y = self.instances@[xi].input_connections@[p].instance.0;
                            assert(self.instances@[xi].wf());
                            assert(self.has_instance(y));
                            assert(self.inst(x).input_connections@.contains_key(p));
                            assert(stuck.contains(y));
                        }
                        self.lemma_stuck_has_cycle(stuck, x0);
                    }
                }
                return Err(TaskError::Cycle);
            }
            proof {
                lemma_int_range(0, n as int);
                lemma_len_subset(vset, set_int_range(0, n as int));
            }
        }
        proof {
            lemma_int_range(0, n as int);
            lemma_len_subset(vset, set_int_range(0, n as int));
            assert forall|x: u32| self.has_instance(x) implies #[trigger] holds_id(order@, x) by {
                let i = x - START_ID;
                if !done@[i] {
                    let r = set_int_range(0, n as int).remove(i);
                    assert(r.len() == n - 1);
                    lemma_len_subset(vset, r);
                }
                assert((START_ID + i) as u32 == x);
            }
        }
        proof {
            crate::laws::lemma_order_implies_acyclic(*self, order@);
        }
        Ok(order)
    }

    /// The input values of `instance`, each read from the output that its
    /// port is wired to.
    pub fn resolve_inputs(&self, instance: NodeInstanceId, results: &RunResults) -> (r: Result<Table<Value>, TaskError>)
        requires
            self.wf(),
            results.wf(),
        ensures
            !self.has_instance(instance.0) ==> r == Err::<Table<Value>, TaskError>(TaskError::InstanceNotFound),
            self.has_instance(instance.0) ==> (r is Ok == self.inputs_available(*results, instance.0)),
            self.has_instance(instance.0) && r is Err ==> r == Err::<Table<Value>, TaskError>(TaskError::ResultNotFound)
                || r == Err::<Table<Value>, TaskError>(TaskError::ArgumentNotFound),
            r is Ok ==> r->Ok_0.wf() && r->Ok_0@.dom() == self.inst(instance.0).input_connections@.dom(),
            r is Ok ==> forall|p: Seq<char>|
                #[trigger] r->Ok_0@.contains_key(p) ==> {
                    let c = self.inst(instance.0).input_connections@[p];
                    r->Ok_0@[p] == results.table(c.instance.0)@[c.arg_name@]
                },
    {
        let inst = self.get_instance(instance)?;
        let conns = &inst.input_connections;
        assert(self.instances@[instance.0 - START_ID].wf());
        let mut args: Table<Value> = Table::new();
        let mut j: usize = 0;
        while j < conns.len()
            invariant
                self.wf(),
                self.has_instance(instance.0),
                results.wf(),
                conns.wf(),
                *conns == self.inst(instance.0).input_connections,
                j <= conns.size(),
                args.wf(),
                forall|jj: int| 0 <= jj < j ==> {
                    let c = #[trigger] conns.val(jj);
                    &&& results.has(c.instance.0)
                    &&& results.table(c.instance.0)@.contains_key(c.arg_name@)
                    &&& args@.contains_key(conns.key(jj))
                    &&& args@[conns.key(jj)] == results.table(c.instance.0)@[c.arg_name@]
                },
                forall|k: Seq<char>| #[trigger] args@.contains_key(k) ==> exists|jj: int| 0 <= jj < j && conns.key(jj) == k,
            decreases conns.size() - j,
        {
            let c = conns.value_at(j);
            let ghost pj = conns.key(j as int);
            assert(conns@.contains_key(pj));
            let t = match results.get(c.instance) {
                Some(t) => t,
                None => return Err(TaskError::ResultNotFound),
            };
            assert(t.wf());
            let v = match t.get(&c.arg_name) {
                Some(v) => v,
                None => return Err(TaskError::ArgumentNotFound),
            };
            let ghost pargs = args@;
            args.insert(conns.key_at(j).clone(), v.clone());
            proof {
                assert forall|jj: int| 0 <= jj < j + 1 implies {
                    let c = #[trigger] conns.val(jj);
                    &&& results.has(c.instance.0)
                    &&& results.table(c.instance.0)@.contains_key(c.arg_name@)
                    &&& args@.contains_key(conns.key(jj))
                    &&& args@[conns.key(jj)] == results.table(c.instance.0)@[c.arg_name@]
                } by {
                    if jj < j {
                        assert(conns.key(jj) != conns.key(j as int));
                    }
                }
                assert forall|k: Seq<char>| #[trigger] args@.contains_key(k) implies exists|jj: int|
                    0 <= jj < j + 1 && conns.key(jj) == k by {
                    if k != pj {
                        assert(pargs.contains_key(k));
                    }
                }
            }
            j = j + 1;
        }
        proof {
            assert forall|p: Seq<char>| #[trigger] conns@.contains_key(p) implies args@.contains_key(p) && args@[p]
                == results.table(conns@[p].instance.0)@[conns@[p].arg_name@] by {
                let jj = choose|jj: int| 0 <= jj < conns.size() && conns.key(jj) == p;
                assert(conns@.contains_key(conns.key(jj)));
                assert(conns.val(jj) == conns@[p]);
            }
            assert forall|p: Seq<char>| #[trigger] args@.contains_key(p) implies conns@.contains_key(p) by {
                let jj = choose|jj: int| 0 <= jj < conns.size() && conns.key(jj) == p;
                assert(conns@.contains_key(conns.key(jj)));
            }
            assert(args@.dom() =~= conns@.dom());
        }
        Ok(args)
    }
    /// The instances whose template has no input ports, in handle order.
    pub fn get_root_nodes(&self) -> (r: Result<Vec<&NodeInstance>, TaskError>)
        requires
            self.wf(),
        ensures
            r is Ok,
            forall|k: int| 0 <= k < r->Ok_0@.len() ==> {
                let x = (#[trigger] r->Ok_0@[k]).instance_id.0;
                self.has_instance(x) && *r->Ok_0@[k] == self.inst(x) && self.template(x).spec_is_root()
            },
            forall|x: u32| #[trigger] self.has_instance(x) && self.template(x).spec_is_root() ==> exists|k: int|
                0 <= k < r->Ok_0@.len() && r->Ok_0@[k].instance_id.0 == x,
            forall|a: int, b: int| 0 <= a < b < r->Ok_0@.len() ==> r->Ok_0@[a].instance_id.0 < r->Ok_0@[b].instance_id.0,
    {
        let mut roots: Vec<&NodeInstance> = Vec::new();
        let mut i: usize = 0;
        while i < self.instances.len()
            invariant
                self.wf(),
                i <= self.instances@.len(),
                forall|k: int| 0 <= k < roots@.len() ==> {
                    let x = (#[trigger] roots@[k]).instance_id.0;
                    self.has_instance(x) && x < START_ID + i && *roots@[k] == self.inst(x) && self.template(x).spec_is_root()
                },
                forall|x: u32| #[trigger] self.has_instance(x) && x < START_ID + i && self.template(x).spec_is_root()
                    ==> exists|k: int| 0 <= k < roots@.len() && roots@[k].instance_id.0 == x,
                forall|a: int, b: int| 0 <= a < b < roots@.len() ==> roots@[a].instance_id.0 < roots@[b].instance_id.0,
            decreases self.instances@.len() - i,
        {
            let instance = &self.instances[i];
            assert(self.has_node(instance.node_id.0@));
            let node = match self.get_node(&instance.node_id) {
                Ok(node) => node,
                Err(_) => {
                    proof {
                        assert(false);
                    }
                    return Ok(roots);
                },
            };
            proof {
                let k = choose|k: int| 0 <= k < self.nodes@.len() && (#[trigger] self.nodes@[k]).meta.id.0@ == instance.node_id.0@;
                assert(self.nodes@[k].wf());
                assert(self.has_instance((START_ID + i) as u32));
            }
            let ghost prev = roots@;
            if node.is_root() {
                roots.push(instance);
                proof {
                    assert(roots@[roots@.len() - 1].instance_id.0 == START_ID + i);
                }
            }
            proof {
                assert forall|x: u32| #[trigger] self.has_instance(x) && x < START_ID + i + 1 && self.template(x).spec_is_root()
                    implies exists|k: int| 0 <= k < roots@.len() && roots@[k].instance_id.0 == x by {
                    if x < START_ID + i {
                        let k = choose|k: int| 0 <= k < prev.len() && prev[k].instance_id.0 == x;
                        assert(roots@[k] == prev[k]);
                    } else {
                        assert(x == START_ID + i);
                        assert(roots@[roots@.len() - 1].instance_id.0 == x);
                    }
                }
            }
            i = i + 1;
        }
        proof {
            assert forall|x: u32| #[trigger] self.has_instance(x) && self.template(x).spec_is_root() implies exists|k: int|
                0 <= k < roots@.len() && roots@[k].instance_id.0 == x by {
                assert(x < START_ID + i);
            }
        }
        let r: Result<Vec<&NodeInstance>, TaskError> = Ok(roots);
        assert(r->Ok_0@ == roots@);
        r
    }

    /// The instances without outgoing connections, in handle order.
    pub fn get_leaf_nodes(&self) -> (r: Vec<&NodeInstance>)
        requires
            self.wf(),
        ensures
            forall|k: int| 0 <= k < r@.len() ==> {
                let x = (#[trigger] r@[k]).instance_id.0;
                self.has_instance(x) && *r@[k] == self.inst(x) && self.inst(x).spec_is_leaf()
            },
            forall|x: u32| #[trigger] self.has_instance(x) && self.inst(x).spec_is_leaf() ==> exists|k: int|
                0 <= k < r@.len() && r@[k].instance_id.0 == x,
            forall|a: int, b: int| 0 <= a < b < r@.len() ==> r@[a].instance_id.0 < r@[b].instance_id.0,
    {
        let mut leaves: Vec<&NodeInstance> = Vec::new();
        let mut i: usize = 0;
        while i < self.instances.len()
            invariant
                self.wf(),
                i <= self.instances@.len(),
                forall|k: int| 0 <= k < leaves@.len() ==> {
                    let x = (#[trigger] leaves@[k]).instance_id.0;
                    self.has_instance(x) && x < START_ID + i && *leaves@[k] == self.inst(x) && self.inst(x).spec_is_leaf()
                },
                forall|x: u32| #[trigger] self.has_instance(x) && x < START_ID + i && self.inst(x).spec_is_leaf()
                    ==> exists|k: int| 0 <= k < leaves@.len() && leaves@[k].instance_id.0 == x,
                forall|a: int, b: int| 0 <= a < b < leaves@.len() ==> leaves@[a].instance_id.0 < leaves@[b].instance_id.0,
            decreases self.instances@.len() - i,
        {
            let instance = &self.instances[i];
            proof {
                assert(self.instances@[i as int].wf());
                assert(self.has_instance((START_ID + i) as u32));
            }
            let ghost prev = leaves@;
            if instance.is_leaf() {
                leaves.push(instance);
                proof {
                    assert(leaves@[leaves@.len() - 1].instance_id.0 == START_ID + i);
                }
            }
            proof {
                assert forall|x: u32| #[trigger] self.has_instance(x) && x < START_ID + i + 1 && self.inst(x).spec_is_leaf()
                    implies exists|k: int| 0 <= k < leaves@.len() && leaves@[k].instance_id.0 == x by {
                    if x < START_ID + i {
                        let k = choose|k: int| 0 <= k < prev.len() && prev[k].instance_id.0 == x;
                        assert(leaves@[k] == prev[k]);
                    } else {
                        assert(x == START_ID + i);
                        assert(leaves@[leaves@.len() - 1].instance_id.0 == x);
                    }
                }
            }
            i = i + 1;
        }
        leaves
    }
}

} // verus!
