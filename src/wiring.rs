use vstd::prelude::*;
use crate::deps::holds_id;
use crate::error::TaskError;
use crate::node_instance::{NodeConnection, NodeInstanceId, START_ID};
use crate::state::Task;
use crate::value::ValueTrait;

verus! {

/// `after` is `before` with `port` pointing at port `peer_port` of instance `peer`.
pub open spec fn points_to(
    before: Map<Seq<char>, NodeConnection>,
    after: Map<Seq<char>, NodeConnection>,
    port: Seq<char>,
    peer: u32,
    peer_port: Seq<char>,
) -> bool {
    &&& after.dom() == before.dom().insert(port)
    &&& forall|p: Seq<char>| p != port && #[trigger] before.contains_key(p) ==> after[p] == before[p]
    &&& after[port].instance.0 == peer
    &&& after[port].arg_name@ == peer_port
}

impl Task {
    /// What `connect` returns for these arguments.
    pub open spec fn connect_outcome(
        &self,
        out_id: u32,
        out_arg: Seq<char>,
        in_id: u32,
        in_arg: Seq<char>,
    ) -> Result<(), TaskError> {
        if !self.has_instance(out_id) || !self.has_instance(in_id) {
            Err(TaskError::InstanceNotFound)
        } else if !self.template(out_id).meta.output_args@.contains_key(out_arg) {
            Err(TaskError::OutputArgNotFound)
        } else if !self.template(in_id).meta.input_args@.contains_key(in_arg) {
            Err(TaskError::InputArgNotFound)
        } else if self.template(out_id).meta.output_args@[out_arg].value_type
            != self.template(in_id).meta.input_args@[in_arg].value_type {
            Err(TaskError::IncompatibleTypes)
        } else if self.depends_on(out_id, in_id) {
            Err(TaskError::Cycle)
        } else {
            Ok(())
        }
    }

    /// `post` is `self` with port `out_arg` of `out_id` wired to port `in_arg`
    /// of `in_id`, both records written, nothing else changed.
    pub open spec fn connected(&self, post: Task, out_id: u32, out_arg: Seq<char>, in_id: u32, in_arg: Seq<char>) -> bool {
        &&& post.nodes == self.nodes
        &&& post.instance_id_provider == self.instance_id_provider
        &&& post.instances@.len() == self.instances@.len()
        &&& forall|x: u32|
            #[trigger] self.has_instance(x) && x != out_id && x != in_id ==> post.inst(x) == self.inst(x)
        &&& post.inst(out_id).node_id == self.inst(out_id).node_id
        &&& post.inst(out_id).instance_id == self.inst(out_id).instance_id
        &&& post.inst(out_id).memory == self.inst(out_id).memory
        &&& post.inst(out_id).input_connections == self.inst(out_id).input_connections
        &&& points_to(
            self.inst(out_id).output_connections@,
            post.inst(out_id).output_connections@,
            out_arg,
            in_id,
            in_arg,
        )
        &&& post.inst(in_id).node_id == self.inst(in_id).node_id
        &&& post.inst(in_id).instance_id == self.inst(in_id).instance_id
        &&& post.inst(in_id).memory == self.inst(in_id).memory
        &&& post.inst(in_id).output_connections == self.inst(in_id).output_connections
        &&& points_to(
            self.inst(in_id).input_connections@,
            post.inst(in_id).input_connections@,
            in_arg,
            out_id,
            out_arg,
        )
    }

    /// `post` is `self` with memory slot `name` of instance `id` set to `v`,
    /// nothing else changed.
    pub open spec fn memory_set(&self, post: Task, id: u32, name: Seq<char>, v: crate::value::Value) -> bool {
        &&& post.nodes == self.nodes
        &&& post.instance_id_provider == self.instance_id_provider
        &&& post.instances@.len() == self.instances@.len()
        &&& forall|x: u32| #[trigger] self.has_instance(x) && x != id ==> post.inst(x) == self.inst(x)
        &&& post.inst(id).memory@ == self.inst(id).memory@.insert(name, v)
        &&& post.inst(id).node_id == self.inst(id).node_id
        &&& post.inst(id).instance_id == self.inst(id).instance_id
        &&& post.inst(id).input_connections == self.inst(id).input_connections
        &&& post.inst(id).output_connections == self.inst(id).output_connections
    }

    /// Whether the output port's type equals the input port's type; fails
    /// when an instance or a port is unknown.
    pub fn match_types(
        &self,
        output_id: NodeInstanceId,
        output_arg: &str,
        input_id: NodeInstanceId,
        input_arg: &str,
    ) -> (r: Result<bool, TaskError>)
        requires
            self.wf(),
        ensures
            r is Err ==> r == Err::<bool, TaskError>(
                self.connect_outcome(output_id.0, output_arg@, input_id.0, input_arg@)->Err_0,
            ) && (self.connect_outcome(output_id.0, output_arg@, input_id.0, input_arg@) is Err),
            r is Err == (!self.has_instance(output_id.0) || !self.has_instance(input_id.0)
                || !self.template(output_id.0).meta.output_args@.contains_key(output_arg@)
                || !self.template(input_id.0).meta.input_args@.contains_key(input_arg@)),
            r is Ok ==> r->Ok_0 == (self.template(output_id.0).meta.output_args@[output_arg@].value_type
                == self.template(input_id.0).meta.input_args@[input_arg@].value_type),
    {
        let output_instance = self.get_instance(output_id)?;
        let output_node = self.get_node(&output_instance.node_id)?;
        let input_instance = self.get_instance(input_id)?;
        let input_node = self.get_node(&input_instance.node_id)?;
        proof {
            assert(self.instances@[output_id.0 - START_ID].wf());
            let k = choose|k: int| 0 <= k < self.nodes@.len() && (#[trigger] self.nodes@[k]).meta.id.0@ == output_instance.node_id.0@;
            let k2 = choose|k: int| 0 <= k < self.nodes@.len() && (#[trigger] self.nodes@[k]).meta.id.0@ == input_instance.node_id.0@;
            assert(self.nodes@[k].wf());
            assert(self.nodes@[k2].wf());
        }
        let out_ty = output_node.get_out_arg(&output_arg.to_owned())?;
        let in_ty = input_node.get_input_arg(&input_arg.to_owned())?;
        Ok(in_ty.value_type == out_ty.value_type)
    }

    /// Whether the ports may be wired: their types match and the consumer is
    /// not already a dependency of the producer.
    pub fn can_connect_nodes(
        &self,
        output_id: NodeInstanceId,
        output_arg: &str,
        input_id: NodeInstanceId,
        input_arg: &str,
    ) -> (r: Result<bool, TaskError>)
        requires
            self.wf(),
        ensures
            ({
                let o = self.connect_outcome(output_id.0, output_arg@, input_id.0, input_arg@);
                match r {
                    Ok(b) => b == (o is Ok) && (!b ==> o == Err::<(), TaskError>(TaskError::IncompatibleTypes)
                        || o == Err::<(), TaskError>(TaskError::Cycle)),
                    Err(e) => o == Err::<(), TaskError>(e) && e != TaskError::IncompatibleTypes && e
                        != TaskError::Cycle,
                }
            }),
    {
        let types_match = self.match_types(output_id, output_arg, input_id, input_arg)?;
        if !types_match {
            return Ok(false);
        }
        let deps = self.get_all_deps(output_id)?;
        let ghost o = self.connect_outcome(output_id.0, output_arg@, input_id.0, input_arg@);
        assert(o == if self.depends_on(output_id.0, input_id.0) {
            Err::<(), TaskError>(TaskError::Cycle)
        } else {
            Ok::<(), TaskError>(())
        });
        let mut k: usize = 0;
        while k < deps.len()
            invariant
                o == self.connect_outcome(output_id.0, output_arg@, input_id.0, input_arg@),
                o == if self.depends_on(output_id.0, input_id.0) {
                    Err::<(), TaskError>(TaskError::Cycle)
                } else {
                    Ok::<(), TaskError>(())
                },
                forall|b: u32| holds_id(deps@, b) == self.depends_on(output_id.0, b),
                k <= deps@.len(),
                forall|m: int| 0 <= m < k ==> (#[trigger] deps@[m]).0 != input_id.0,
            decreases deps@.len() - k,
        {
            if deps[k].0 == input_id.0 {
                assert(holds_id(deps@, input_id.0));
                return Ok(false);
            }
            k = k + 1;
        }
        Ok(true)
    }

    /// Wires port `output_arg` of `output_id` to port `input_arg` of
    /// `input_id`. Fails, changing nothing, when an instance or port is
    /// unknown, the types differ, or the wire would close a cycle.
    ///
    /// Each port holds one record, so a port can feed only one consumer. A
    /// second wire on either port replaces that port's record and leaves
    /// the earlier peer's record in place; `is_nodes_connected` then reports
    /// the earlier pair as corrupted.
    pub fn connect(
        &mut self,
        output_id: NodeInstanceId,
        output_arg: &str,
        input_id: NodeInstanceId,
        input_arg: &str,
    ) -> (r: Result<(), TaskError>)
        requires
            old(self).wf(),
        ensures
            final(self).wf(),
            old(self).acyclic() ==> final(self).acyclic(),
            r == old(self).connect_outcome(output_id.0, output_arg@, input_id.0, input_arg@),
            r is Err ==> *final(self) == *old(self),
            r is Ok ==> old(self).connected(*final(self), output_id.0, output_arg@, input_id.0, input_arg@),
    {
        if !self.can_connect_nodes(output_id, output_arg, input_id, input_arg)? {
            let ty = self.match_types(output_id, output_arg, input_id, input_arg)?;
            if !ty {
                return Err(TaskError::IncompatibleTypes);
            }
            return Err(TaskError::Cycle);
        }
        proof {
            self.lemma_depends_self(output_id.0);
        }
        let ghost pre = *self;
        let oi = (output_id.0 - START_ID) as usize;
        let ii = (input_id.0 - START_ID) as usize;
        let mut out_inst = self.instances.remove(oi);
        out_inst.output_connections.insert(
            output_arg.to_owned(),
            NodeConnection { instance: input_id, arg_name: input_arg.to_owned() },
        );
        self.instances.insert(oi, out_inst);
        let mut in_inst = self.instances.remove(ii);
        in_inst.input_connections.insert(
            input_arg.to_owned(),
            NodeConnection { instance: output_id, arg_name: output_arg.to_owned() },
        );
        self.instances.insert(ii, in_inst);
        proof {
            assert(pre.instances@[oi as int].wf());
            assert(pre.instances@[ii as int].wf());
            assert forall|x: u32| #[trigger] pre.has_instance(x) && x != output_id.0 && x != input_id.0
                implies self.inst(x) == pre.inst(x) by {}
            assert forall|i: int| 0 <= i < self.instances@.len() implies #[trigger] self.instance_ok(i) by {
                assert(pre.instances@[i].wf());
                assert(pre.has_node(pre.instances@[i].node_id.0@));
                let k = choose|k: int| 0 <= k < pre.nodes@.len() && (#[trigger] pre.nodes@[k]).meta.id.0@
                    == pre.instances@[i].node_id.0@;
                assert(self.nodes@[k] == pre.nodes@[k]);
                assert(self.instances@[i].node_id == pre.instances@[i].node_id);
            }
            if pre.acyclic() {
                crate::laws::lemma_wire_keeps_acyclic(pre, *self, output_id.0, output_arg@, input_id.0, input_arg@);
            }
        }
        Ok(())
    }

    /// Where port `output_arg` of `instance_id` is wired to, if anywhere.
    pub fn get_node_out_connection(&self, instance_id: NodeInstanceId, output_arg: &str) -> (r: Result<
        Option<&NodeConnection>,
        TaskError,
    >)
        requires
            self.wf(),
        ensures
            !self.has_instance(instance_id.0) ==> r == Err::<Option<&NodeConnection>, TaskError>(
                TaskError::InstanceNotFound,
            ),
            self.has_instance(instance_id.0) ==> r is Ok && match r->Ok_0 {
                Some(c) => self.inst(instance_id.0).output_connections@.contains_key(output_arg@)
                    && *c == self.inst(instance_id.0).output_connections@[output_arg@],
                None => !self.inst(instance_id.0).output_connections@.contains_key(output_arg@),
            },
    {
        let instance = self.get_instance(instance_id)?;
        assert(self.instances@[instance_id.0 - START_ID].wf());
        Ok(instance.output_connections.get(&output_arg.to_owned()))
    }

    /// Where port `input_arg` of `node_id` is wired from, if anywhere.
    pub fn get_node_in_connection(&self, node_id: NodeInstanceId, input_arg: &str) -> (r: Result<
        Option<&NodeConnection>,
        TaskError,
    >)
        requires
            self.wf(),
        ensures
            !self.has_instance(node_id.0) ==> r == Err::<Option<&NodeConnection>, TaskError>(
                TaskError::InstanceNotFound,
            ),
            self.has_instance(node_id.0) ==> r is Ok && match r->Ok_0 {
                Some(c) => self.inst(node_id.0).input_connections@.contains_key(input_arg@)
                    && *c == self.inst(node_id.0).input_connections@[input_arg@],
                None => !self.inst(node_id.0).input_connections@.contains_key(input_arg@),
            },
    {
        let instance = self.get_instance(node_id)?;
        assert(self.instances@[node_id.0 - START_ID].wf());
        Ok(instance.input_connections.get(&input_arg.to_owned()))
    }

    /// The output record of port `out_arg` of `out_id` names port `in_arg`
    /// of `in_id`.
    pub open spec fn forward_record(&self, out_id: u32, out_arg: Seq<char>, in_id: u32, in_arg: Seq<char>) -> bool {
        &&& self.inst(out_id).output_connections@.contains_key(out_arg)
        &&& self.inst(out_id).output_connections@[out_arg].instance.0 == in_id
        &&& self.inst(out_id).output_connections@[out_arg].arg_name@ == in_arg
    }

    /// The input record of port `in_arg` of `in_id` names port `out_arg` of
    /// `out_id`.
    pub open spec fn backward_record(&self, out_id: u32, out_arg: Seq<char>, in_id: u32, in_arg: Seq<char>) -> bool {
        &&& self.inst(in_id).input_connections@.contains_key(in_arg)
        &&& self.inst(in_id).input_connections@[in_arg].instance.0 == out_id
        &&& self.inst(in_id).input_connections@[in_arg].arg_name@ == out_arg
    }

    /// Whether port `output_arg` of `output_id` is wired to port `input_arg`
    /// of `input_id`. Both records name the pair: wired; neither does: not
    /// wired; only one does: the graph is corrupted.
    pub fn is_nodes_connected(
        &self,
        output_id: NodeInstanceId,
        output_arg: &str,
        input_id: NodeInstanceId,
        input_arg: &str,
    ) -> (r: Result<bool, TaskError>)
        requires
            self.wf(),
        ensures
            !self.has_instance(output_id.0) || !self.has_instance(input_id.0) ==> r == Err::<bool, TaskError>(
                TaskError::InstanceNotFound,
            ),
            self.has_instance(output_id.0) && self.has_instance(input_id.0) ==> ({
                let fwd = self.forward_record(output_id.0, output_arg@, input_id.0, input_arg@);
                let bwd = self.backward_record(output_id.0, output_arg@, input_id.0, input_arg@);
                &&& fwd && bwd ==> r == Ok::<bool, TaskError>(true)
                &&& !fwd && !bwd ==> r == Ok::<bool, TaskError>(false)
                &&& fwd != bwd ==> r == Err::<bool, TaskError>(TaskError::CorruptedConnection)
            }),
    {
        let oc = self.get_node_out_connection(output_id, output_arg)?;
        let ic = self.get_node_in_connection(input_id, input_arg)?;
        let input_name = input_arg.to_owned();
        let output_name = output_arg.to_owned();
        let fwd = match oc {
            Some(c) => c.instance.0 == input_id.0 && c.arg_name == input_name,
            None => false,
        };
        let bwd = match ic {
            Some(c) => c.instance.0 == output_id.0 && c.arg_name == output_name,
            None => false,
        };
        if fwd && bwd {
            Ok(true)
        } else if !fwd && !bwd {
            Ok(false)
        } else {
            Err(TaskError::CorruptedConnection)
        }
    }

    /// Sets memory slot `name` of instance `id` to `val`.
    pub fn set_instance_memory<T: ValueTrait>(&mut self, id: NodeInstanceId, name: &str, val: T) -> (r: Result<
        (),
        TaskError,
    >)
        requires
            old(self).wf(),
        ensures
            final(self).wf(),
            old(self).acyclic() ==> final(self).acyclic(),
            !old(self).has_instance(id.0) ==> r == Err::<(), TaskError>(TaskError::InstanceNotFound)
                && *final(self) == *old(self),
            old(self).has_instance(id.0) ==> r == Ok::<(), TaskError>(()) && old(self).memory_set(
                *final(self),
                id.0,
                name@,
                val.spec_wrap(),
            ),
    {
        self.get_instance(id)?;
        let ghost pre = *self;
        let k = (id.0 - START_ID) as usize;
        let mut inst = self.instances.remove(k);
        proof {
            assert(pre.instances@[k as int].wf());
        }
        inst.set_memory(name.to_owned(), val);
        self.instances.insert(k, inst);
        proof {
            assert forall|x: u32| #[trigger] pre.has_instance(x) && x != id.0 implies self.inst(x) == pre.inst(x) by {}
            assert forall|i: int| 0 <= i < self.instances@.len() implies #[trigger] self.instance_ok(i) by {
                assert(pre.instances@[i].wf());
                assert(pre.has_node(pre.instances@[i].node_id.0@));
                let k = choose|k: int| 0 <= k < pre.nodes@.len() && (#[trigger] pre.nodes@[k]).meta.id.0@
                    == pre.instances@[i].node_id.0@;
                assert(self.nodes@[k] == pre.nodes@[k]);
                assert(self.instances@[i].node_id == pre.instances@[i].node_id);
            }
        }
        proof {
            assert forall|x: u32, y: u32| #[trigger] self.depends_directly(x, y) implies pre.depends_directly(x, y) by {
                let p = choose|p: Seq<char>| #[trigger] self.inst(x).input_connections@.contains_key(p)
                    && self.inst(x).input_connections@[p].instance.0 == y;
                assert(pre.has_instance(x));
                assert(pre.inst(x).input_connections@.contains_key(p));
            }
            if pre.acyclic() {
                crate::laws::lemma_fewer_edges_acyclic(pre, *self);
            }
        }
        Ok(())
    }
}

} // verus!
