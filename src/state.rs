use vstd::prelude::*;
use crate::error::TaskError;
use crate::node_data::{Node, NodeId};
use crate::node_instance::{NodeConnection, NodeInstance, NodeInstanceId, NodeInstanceIdProvider, START_ID};

verus! {

/// A graph: registered templates, their instances, and the connections
/// between instance ports. The instance with handle `START_ID + i` is
/// `instances[i]`.
pub struct Task {
    pub nodes: Vec<Node>,
    pub instances: Vec<NodeInstance>,
    pub instance_id_provider: NodeInstanceIdProvider,
}

impl Task {
    pub open spec fn has_node(&self, id: Seq<char>) -> bool {
        exists|i: int| 0 <= i < self.nodes@.len() && (#[trigger] self.nodes@[i]).meta.id.0@ == id
    }

    /// The registered template with identifier `id`.
    pub open spec fn node(&self, id: Seq<char>) -> Node {
        self.nodes@[choose|i: int| 0 <= i < self.nodes@.len() && (#[trigger] self.nodes@[i]).meta.id.0@ == id]
    }

    pub open spec fn has_instance(&self, id: u32) -> bool {
        START_ID <= id < START_ID + self.instances@.len()
    }

    /// The instance with handle `id`.
    pub open spec fn inst(&self, id: u32) -> NodeInstance {
        self.instances@[id - START_ID]
    }

    /// The template of instance `id`.
    pub open spec fn template(&self, id: u32) -> Node {
        self.node(self.inst(id).node_id.0@)
    }

    /// Instance `i` is valid, sits where its handle says, has a registered
    /// node kind, and records connections only to instances of this graph.
    pub open spec fn instance_ok(&self, i: int) -> bool {
        &&& self.instances@[i].wf()
        &&& self.instances@[i].instance_id.0 == START_ID + i
        &&& self.has_node(self.instances@[i].node_id.0@)
        &&& forall|p: Seq<char>|
            #[trigger] self.instances@[i].input_connections@.contains_key(p)
                ==> self.has_instance(self.instances@[i].input_connections@[p].instance.0)
        &&& forall|p: Seq<char>|
            #[trigger] self.instances@[i].output_connections@.contains_key(p)
                ==> self.has_instance(self.instances@[i].output_connections@[p].instance.0)
    }

    pub open spec fn wf(&self) -> bool {
        &&& forall|i: int| 0 <= i < self.nodes@.len() ==> (#[trigger] self.nodes@[i]).wf()
        &&& forall|i: int, j: int|
            0 <= i < j < self.nodes@.len() ==> (#[trigger] self.nodes@[i]).meta.id.0@
                != (#[trigger] self.nodes@[j]).meta.id.0@
        &&& self.instance_id_provider.next_id == START_ID + self.instances@.len()
        &&& forall|i: int| #![trigger self.instances@[i]] 0 <= i < self.instances@.len() ==> self.instance_ok(i)
    }

    pub fn new() -> (r: Task)
        ensures
            r.wf(),
            r.acyclic(),
            r.nodes@.len() == 0,
            r.instances@.len() == 0,
    {
        let t = Task { nodes: Vec::new(), instances: Vec::new(), instance_id_provider: NodeInstanceIdProvider::new() };
        proof {
            assert forall|path: Seq<u32>| #[trigger] t.is_chain(path) && path.len() >= 2 implies path[0] != path.last() by {
                let z: int = 0;
                assert(t.depends_directly(path[z], path[z + 1]));
            }
        }
        t
    }

    fn find_node(&self, id: &NodeId) -> (r: Option<usize>)
        requires
            self.wf(),
        ensures
            r.is_some() == self.has_node(id.0@),
            r.is_some() ==> r.unwrap() < self.nodes@.len() && self.nodes@[r.unwrap() as int]
                == self.node(id.0@) && self.node(id.0@).meta.id.0@ == id.0@,
    {
        let mut i: usize = 0;
        while i < self.nodes.len()
            invariant
                self.wf(),
                i <= self.nodes@.len(),
                forall|j: int| 0 <= j < i ==> (#[trigger] self.nodes@[j]).meta.id.0@ != id.0@,
            decreases self.nodes@.len() - i,
        {
            if self.nodes[i].id().same(id) {
                assert(self.nodes@[i as int].meta.id.0@ == id.0@);
                let ghost c = choose|k: int| 0 <= k < self.nodes@.len() && (#[trigger] self.nodes@[k]).meta.id.0@ == id.0@;
                assert(c == i);
                return Some(i);
            }
            i = i + 1;
        }
        None
    }

    /// Registers a template; fails when its id is taken.
    pub fn register_node(&mut self, node: Node) -> (r: Result<NodeId, TaskError>)
        requires
            old(self).wf(),
            node.wf(),
        ensures
            final(self).wf(),
            old(self).acyclic() ==> final(self).acyclic(),
            old(self).has_node(node.meta.id.0@) ==> r == Err::<NodeId, TaskError>(TaskError::IdAlreadyExists)
                && *final(self) == *old(self),
            !old(self).has_node(node.meta.id.0@) ==> r == Ok::<NodeId, TaskError>(node.meta.id)
                && final(self).nodes@ == old(self).nodes@.push(node)
                && final(self).instances == old(self).instances
                && final(self).instance_id_provider == old(self).instance_id_provider,
    {
        if self.find_node(node.id()).is_some() {
            return Err(TaskError::IdAlreadyExists);
        }
        let id = node.id().clone();
        let ghost old_task = *self;
        self.nodes.push(node);
        assert forall|i: int| 0 <= i < self.instances@.len() implies self.has_node(
            (#[trigger] self.instances@[i]).node_id.0@,
        ) by {
            let k = choose|k: int| 0 <= k < old_task.nodes@.len() && (#[trigger] old_task.nodes@[k]).meta.id.0@
                == self.instances@[i].node_id.0@;
            assert(self.nodes@[k] == old_task.nodes@[k]);
        }
        proof {
            assert(self.instances == old_task.instances);
            assert forall|x: u32, y: u32| #[trigger] self.depends_directly(x, y) implies old_task.depends_directly(x, y) by {
                let p = choose|p: Seq<char>| #[trigger] self.inst(x).input_connections@.contains_key(p)
                    && self.inst(x).input_connections@[p].instance.0 == y;
                assert(old_task.inst(x).input_connections@.contains_key(p));
            }
            if old_task.acyclic() {
                crate::laws::lemma_fewer_edges_acyclic(old_task, *self);
            }
        }
        Ok(id)
    }

    /// What `instantiate` leaves behind when it creates instance `id` of
    /// template `node_id`: a fresh instance with no memory and no wiring,
    /// everything else unchanged.
    pub open spec fn instantiated(&self, post: Task, node_id: Seq<char>, id: NodeInstanceId) -> bool {
        &&& id.0 == START_ID + self.instances@.len()
        &&& post.nodes == self.nodes
        &&& post.instances@.len() == self.instances@.len() + 1
        &&& forall|i: int| 0 <= i < self.instances@.len() ==> post.instances@[i] == self.instances@[i]
        &&& post.inst(id.0).instance_id == id
        &&& post.inst(id.0).node_id.0@ == node_id
        &&& post.inst(id.0).memory@ == Map::<Seq<char>, crate::value::Value>::empty()
        &&& post.inst(id.0).input_connections@ == Map::<Seq<char>, NodeConnection>::empty()
        &&& post.inst(id.0).output_connections@ == Map::<Seq<char>, NodeConnection>::empty()
    }

    /// Creates an instance of a registered template.
    pub fn instantiate(&mut self, node_id: &NodeId) -> (r: Result<NodeInstanceId, TaskError>)
        requires
            old(self).wf(),
            START_ID + old(self).instances@.len() < u32::MAX,
        ensures
            final(self).wf(),
            old(self).acyclic() ==> final(self).acyclic(),
            !old(self).has_node(node_id.0@) ==> r == Err::<NodeInstanceId, TaskError>(TaskError::NodeNotFound)
                && *final(self) == *old(self),
            old(self).has_node(node_id.0@) ==> r is Ok && old(self).instantiated(*final(self), node_id.0@, r->Ok_0),
    {
        let k = match self.find_node(node_id) {
            Some(k) => k,
            None => return Err(TaskError::NodeNotFound),
        };
        let instance_id = self.instance_id_provider.next_id();
        let instance = NodeInstance::new(&self.nodes[k], instance_id);
        let ghost old_task = *old(self);
        self.instances.push(instance);
        proof {
            let n = old_task.instances@.len();
            assert(self.nodes@[k as int].meta.id.0@ == self.instances@[n as int].node_id.0@);
            assert(self.has_node(self.instances@[n as int].node_id.0@));
            assert forall|i: int| 0 <= i < self.instances@.len() implies #[trigger] self.instance_ok(i) by {
                if i < n {
                    assert(self.instances@[i] == old_task.instances@[i]);
                    assert(old_task.instances@[i].wf());
                } else {
                    assert(!self.instances@[i].input_connections@.contains_key(arbitrary()));
                }
            }
            assert forall|x: u32, y: u32| #[trigger] self.depends_directly(x, y) implies old_task.depends_directly(x, y) by {
                let p = choose|p: Seq<char>| #[trigger] self.inst(x).input_connections@.contains_key(p)
                    && self.inst(x).input_connections@[p].instance.0 == y;
                if x == START_ID + n {
                    assert(self.instances@[n as int].input_connections@.contains_key(p));
                } else {
                    assert(self.instances@[x - START_ID] == old_task.instances@[x - START_ID]);
                    assert(old_task.inst(x).input_connections@.contains_key(p));
                }
            }
            if old_task.acyclic() {
                crate::laws::lemma_fewer_edges_acyclic(old_task, *self);
            }
        }
        Ok(instance_id)
    }

    pub fn get_instance(&self, id: NodeInstanceId) -> (r: Result<&NodeInstance, TaskError>)
        requires
            self.wf(),
        ensures
            self.has_instance(id.0) ==> r is Ok && *r->Ok_0 == self.inst(id.0),
            !self.has_instance(id.0) ==> r == Err::<&NodeInstance, TaskError>(TaskError::InstanceNotFound),
    {
        if id.0 < START_ID || id.0 - START_ID >= self.instances.len() as u32 {
            proof {
                if id.0 >= START_ID {
                    assert(self.instances@.len() < u32::MAX);
                }
            }
            return Err(TaskError::InstanceNotFound);
        }
        Ok(&self.instances[(id.0 - START_ID) as usize])
    }

    pub fn get_node(&self, id: &NodeId) -> (r: Result<&Node, TaskError>)
        requires
            self.wf(),
        ensures
            self.has_node(id.0@) ==> r is Ok && *r->Ok_0 == self.node(id.0@),
            !self.has_node(id.0@) ==> r == Err::<&Node, TaskError>(TaskError::NodeNotFound),
    {
        match self.find_node(id) {
            Some(k) => Ok(&self.nodes[k]),
            None => Err(TaskError::NodeNotFound),
        }
    }
}

} // verus!
