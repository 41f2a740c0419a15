use vstd::prelude::*;
use crate::error::TaskError;
use crate::node_data::{Node, NodeId};
use crate::table::Table;
use crate::value::{Value, ValueTrait};

verus! {

/// The handle of an instance within one task.
#[derive(Clone, Copy, Debug, PartialEq, Eq, Structural, PartialOrd, Ord, Hash)]
pub struct NodeInstanceId(pub u32);

/// The first handle that a task hands out.
pub const START_ID: u32 = 10000;

/// Hands out instance handles in increasing order, from `START_ID`.
#[derive(Debug)]
pub struct NodeInstanceIdProvider {
    pub next_id: u32,
}

impl Default for NodeInstanceIdProvider {
    fn default() -> (r: NodeInstanceIdProvider)
        ensures
            r.next_id == START_ID,
    {
        NodeInstanceIdProvider::new()
    }
}

impl NodeInstanceIdProvider {
    pub fn new() -> (r: NodeInstanceIdProvider)
        ensures
            r.next_id == START_ID,
    {
        NodeInstanceIdProvider { next_id: START_ID }
    }

    pub fn next_id(&mut self) -> (r: NodeInstanceId)
        requires
            old(self).next_id < u32::MAX,
        ensures
            r.0 == old(self).next_id,
            final(self).next_id == old(self).next_id + 1,
    {
        let id = self.next_id;
        self.next_id = self.next_id + 1;
        NodeInstanceId(id)
    }
}

/// The far end of a connection: an instance and one of its ports.
#[derive(Debug)]
pub struct NodeConnection {
    pub instance: NodeInstanceId,
    pub arg_name: String,
}

impl Clone for NodeConnection {
    fn clone(&self) -> (r: NodeConnection)
        ensures
            r == *self,
    {
        NodeConnection { instance: self.instance, arg_name: self.arg_name.clone() }
    }
}

/// One occurrence of a template in a task, with its memory and wiring.
pub struct NodeInstance {
    pub node_id: NodeId,
    pub instance_id: NodeInstanceId,
    pub memory: Table<Value>,
    pub input_connections: Table<NodeConnection>,
    pub output_connections: Table<NodeConnection>,
}

impl NodeInstance {
    pub open spec fn wf(&self) -> bool {
        self.memory.wf() && self.input_connections.wf() && self.output_connections.wf()
    }

    pub fn new(node: &Node, id: NodeInstanceId) -> (r: NodeInstance)
        ensures
            r.wf(),
            r.instance_id == id,
            r.node_id == node.meta.id,
            r.memory@ == Map::<Seq<char>, Value>::empty(),
            r.input_connections@ == Map::<Seq<char>, NodeConnection>::empty(),
            r.output_connections@ == Map::<Seq<char>, NodeConnection>::empty(),
    {
        NodeInstance {
            instance_id: id,
            node_id: node.id().clone(),
            memory: Table::new(),
            input_connections: Table::new(),
            output_connections: Table::new(),
        }
    }

    /// An instance without outgoing connections is a leaf.
    pub open spec fn spec_is_leaf(&self) -> bool {
        self.output_connections@.dom() == Set::<Seq<char>>::empty()
    }

    pub fn is_leaf(&self) -> (r: bool)
        requires
            self.wf(),
        ensures
            r == self.spec_is_leaf(),
    {
        self.output_connections.is_empty()
    }

    pub fn set_memory<T: ValueTrait>(&mut self, name: String, val: T)
        requires
            old(self).wf(),
        ensures
            final(self).wf(),
            final(self).memory@ == old(self).memory@.insert(name@, val.spec_wrap()),
            final(self).node_id == old(self).node_id,
            final(self).instance_id == old(self).instance_id,
            final(self).input_connections == old(self).input_connections,
            final(self).output_connections == old(self).output_connections,
    {
        self.memory.insert(name, Value::new(val));
    }

    /// The memory slot `name` read as a `T`: `None` when the slot is empty.
    pub fn get_memory<T: ValueTrait>(&self, name: &String) -> (r: Result<Option<&T>, TaskError>)
        requires
            self.wf(),
        ensures
            !self.memory@.contains_key(name@) ==> r is Ok && r->Ok_0.is_none(),
            self.memory@.contains_key(name@) ==> match r {
                Ok(o) => o.is_some() && self.memory@[name@].spec_downcast::<T>() == Some(*o.unwrap()),
                Err(e) => self.memory@[name@].spec_type() != T::spec_type() && e is Value,
            },
    {
        match self.memory.get(name) {
            None => Ok(None),
            Some(v) => match v.downcast::<T>() {
                Ok(t) => {
                    proof {
                        T::lemma_wrap(*t, *v);
                    }
                    Ok(Some(t))
                },
                Err(e) => Err(TaskError::Value(e)),
            },
        }
    }
}

} // verus!
