use vstd::prelude::*;
use crate::error::TaskError;
use crate::table::Table;
use crate::value::{ValueTrait, ValueType};

verus! {

/// The identifier of a template, unique within a task.
#[derive(Debug, PartialEq, Eq, Hash, PartialOrd, Ord)]
pub struct NodeId(pub String);

impl NodeId {
    pub fn new(id: &str) -> (r: NodeId)
        ensures
            r.0@ == id@,
    {
        NodeId(id.to_owned())
    }

    /// Whether the two identifiers are the same string.
    pub fn same(&self, other: &NodeId) -> (r: bool)
        ensures
            r == (self.0@ == other.0@),
    {
        self.0 == other.0
    }
}

impl Clone for NodeId {
    fn clone(&self) -> (r: NodeId)
        ensures
            r == *self,
    {
        NodeId(self.0.clone())
    }
}

/// The declared type of an output port.
#[derive(Clone, Copy, Debug, PartialEq, Eq, Structural)]
pub struct OutputArgMeta {
    pub value_type: ValueType,
}

impl OutputArgMeta {
    pub fn new<T: ValueTrait>() -> (r: OutputArgMeta)
        ensures
            r.value_type == T::spec_type(),
    {
        OutputArgMeta { value_type: ValueType::new::<T>() }
    }
}

/// The declared type of an input port, and whether it may stay unconnected.
#[derive(Clone, Copy, Debug, PartialEq, Eq, Structural)]
pub struct InputArgMeta {
    pub value_type: ValueType,
    pub is_optional: bool,
}

impl InputArgMeta {
    pub fn new<T: ValueTrait>() -> (r: InputArgMeta)
        ensures
            r.value_type == T::spec_type(),
            !r.is_optional,
    {
        InputArgMeta { value_type: ValueType::new::<T>(), is_optional: false }
    }

    pub fn with_optional(self, is_optional: bool) -> (r: InputArgMeta)
        ensures
            r.value_type == self.value_type,
            r.is_optional == is_optional,
    {
        InputArgMeta { value_type: self.value_type, is_optional }
    }
}

/// What a template declares: its id, version and typed ports.
pub struct NodeMeta {
    pub id: NodeId,
    pub version: String,
    pub input_args: Table<InputArgMeta>,
    pub output_args: Table<OutputArgMeta>,
}

/// What a `NodeMeta` declares, as plain values.
pub ghost struct NodeMetaView {
    pub id: Seq<char>,
    pub version: Seq<char>,
    pub input_args: Map<Seq<char>, InputArgMeta>,
    pub output_args: Map<Seq<char>, OutputArgMeta>,
}

impl View for NodeMeta {
    type V = NodeMetaView;

    open spec fn view(&self) -> NodeMetaView {
        NodeMetaView {
            id: self.id.0@,
            version: self.version@,
            input_args: self.input_args@,
            output_args: self.output_args@,
        }
    }
}

impl NodeMeta {
    pub open spec fn wf(&self) -> bool {
        self.input_args.wf() && self.output_args.wf()
    }

    pub fn new(id: NodeId, version: String) -> (r: NodeMeta)
        ensures
            r.wf(),
            r.id == id,
            r.version == version,
            r.input_args@ == Map::<Seq<char>, InputArgMeta>::empty(),
            r.output_args@ == Map::<Seq<char>, OutputArgMeta>::empty(),
    {
        NodeMeta { id, version, input_args: Table::new(), output_args: Table::new() }
    }

    /// Declares the input port `key`, replacing an earlier declaration.
    pub fn with_input_arg(self, key: String, value: InputArgMeta) -> (r: NodeMeta)
        requires
            self.wf(),
        ensures
            r.wf(),
            r.id == self.id,
            r.version == self.version,
            r.input_args@ == self.input_args@.insert(key@, value),
            r.output_args@ == self.output_args@,
    {
        let mut s = self;
        s.input_args.insert(key, value);
        s
    }

    /// Declares the output port `key`, replacing an earlier declaration.
    pub fn with_output_arg(self, key: String, value: OutputArgMeta) -> (r: NodeMeta)
        requires
            self.wf(),
        ensures
            r.wf(),
            r.id == self.id,
            r.version == self.version,
            r.input_args@ == self.input_args@,
            r.output_args@ == self.output_args@.insert(key@, value),
    {
        let mut s = self;
        s.output_args.insert(key, value);
        s
    }
}

/// A kind of node that can describe itself.
pub trait NodeMetaTrait {
    /// The declaration of this kind of node.
    spec fn spec_meta(&self) -> NodeMetaView;

    fn get_meta(&self) -> (r: NodeMeta)
        ensures
            r.wf(),
            r@ == self.spec_meta(),
    ;
}

/// A registered template: the declaration of one kind of computation.
pub struct Node {
    pub meta: NodeMeta,
}

impl Node {
    pub open spec fn wf(&self) -> bool {
        self.meta.wf()
    }

    pub fn new_with_meta(meta: NodeMeta) -> (r: Node)
        ensures
            r.meta == meta,
    {
        Node { meta }
    }

    pub fn new<T: NodeMetaTrait>(node: T) -> (r: Node)
        ensures
            r.wf(),
            r.meta@ == node.spec_meta(),
    {
        Node::new_with_meta(node.get_meta())
    }

    pub fn get_meta(&self) -> (r: &NodeMeta)
        ensures
            *r == self.meta,
    {
        &self.meta
    }

    pub fn id(&self) -> (r: &NodeId)
        ensures
            *r == self.meta.id,
    {
        &self.meta.id
    }

    pub fn get_input_arg(&self, key: &String) -> (r: Result<InputArgMeta, TaskError>)
        requires
            self.wf(),
        ensures
            self.meta.input_args@.contains_key(key@) ==> r == Ok::<InputArgMeta, TaskError>(
                self.meta.input_args@[key@],
            ),
            !self.meta.input_args@.contains_key(key@) ==> r == Err::<InputArgMeta, TaskError>(
                TaskError::InputArgNotFound,
            ),
    {
        match self.meta.input_args.get(key) {
            Some(m) => Ok(*m),
            None => Err(TaskError::InputArgNotFound),
        }
    }

    pub fn get_out_arg(&self, key: &String) -> (r: Result<OutputArgMeta, TaskError>)
        requires
            self.wf(),
        ensures
            self.meta.output_args@.contains_key(key@) ==> r == Ok::<OutputArgMeta, TaskError>(
                self.meta.output_args@[key@],
            ),
            !self.meta.output_args@.contains_key(key@) ==> r == Err::<OutputArgMeta, TaskError>(
                TaskError::OutputArgNotFound,
            ),
    {
        match self.meta.output_args.get(key) {
            Some(m) => Ok(*m),
            None => Err(TaskError::OutputArgNotFound),
        }
    }

    pub fn input_args(&self) -> (r: &Table<InputArgMeta>)
        ensures
            *r == self.meta.input_args,
    {
        &self.meta.input_args
    }

    pub fn output_args(&self) -> (r: &Table<OutputArgMeta>)
        ensures
            *r == self.meta.output_args,
    {
        &self.meta.output_args
    }

    /// A template without input ports is a root.
    pub open spec fn spec_is_root(&self) -> bool {
        self.meta.input_args@.dom() == Set::<Seq<char>>::empty()
    }

    pub fn is_root(&self) -> (r: bool)
        requires
            self.wf(),
        ensures
            r == self.spec_is_root(),
    {
        self.meta.input_args.is_empty()
    }
}

} // verus!
