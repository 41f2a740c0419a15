use vstd::prelude::*;
use crate::error::TaskError;
use crate::node_data::{InputArgMeta, NodeId, NodeMeta, NodeMetaTrait, NodeMetaView, OutputArgMeta};
use crate::node_instance::NodeInstance;
use crate::table::Table;
use crate::value::{Value, ValueError, ValueType};

verus! {

/// A source of text: outputs the text held in its memory.
pub struct NodeText;

impl NodeText {
    pub const OUT_ARG_TEXT: &'static str = "text";

    pub const MEMORY_TEXT: &'static str = "text";

    /// The outputs of a text instance: port `text` holds the memory slot
    /// `text`, or the empty string when the slot is empty.
    pub fn evaluate(instance: &NodeInstance) -> (r: Result<Table<Value>, TaskError>)
        requires
            instance.wf(),
        ensures
            ({
                let mem = instance.memory@;
                let k = Self::MEMORY_TEXT@;
                match r {
                    Ok(t) => t.wf() && t@.dom() == set![Self::OUT_ARG_TEXT@] && t@[Self::OUT_ARG_TEXT@] is Text
                        && t@[Self::OUT_ARG_TEXT@]->Text_0@ == (if mem.contains_key(k) {
                        mem[k]->Text_0@
                    } else {
                        Seq::<char>::empty()
                    }) && (mem.contains_key(k) ==> mem[k] is Text),
                    Err(e) => mem.contains_key(k) && !(mem[k] is Text) && e is Value,
                }
            }),
    {
        let text = match instance.get_memory::<String>(&Self::MEMORY_TEXT.to_owned()) {
            Ok(Some(s)) => s.clone(),
            Ok(None) => String::new(),
            Err(e) => return Err(e),
        };
        let mut out: Table<Value> = Table::new();
        out.insert(Self::OUT_ARG_TEXT.to_owned(), Value::new(text));
        proof {
            assert(out@.dom() =~= set![Self::OUT_ARG_TEXT@]);
        }
        Ok(out)
    }
}

impl NodeMetaTrait for NodeText {
    /// Template `text`, version `0.1.0`: no inputs, one text output `text`.
    open spec fn spec_meta(&self) -> NodeMetaView {
        NodeMetaView {
            id: "text"@,
            version: "0.1.0"@,
            input_args: Map::empty(),
            output_args: map![Self::OUT_ARG_TEXT@ => OutputArgMeta { value_type: ValueType::Text }],
        }
    }

    fn get_meta(&self) -> (r: NodeMeta) {
        NodeMeta::new(NodeId::new("text"), "0.1.0".to_owned()).with_output_arg(
            Self::OUT_ARG_TEXT.to_owned(),
            OutputArgMeta::new::<String>(),
        )
    }
}

/// A sink that shows the text it receives.
pub struct NodePrint;

impl NodePrint {
    pub const INPUT_ARG_TEXT: &'static str = "text";

    /// The text that a print instance shows: its `text` input.
    pub fn evaluate(inputs: &Table<Value>) -> (r: Result<String, TaskError>)
        requires
            inputs.wf(),
        ensures
            !inputs@.contains_key(Self::INPUT_ARG_TEXT@) ==> r == Err::<String, TaskError>(TaskError::MissingInput),
            inputs@.contains_key(Self::INPUT_ARG_TEXT@) && !(inputs@[Self::INPUT_ARG_TEXT@] is Text) ==> r == Err::<
                String,
                TaskError,
            >(
                TaskError::Value(
                    ValueError::TypeMismatch {
                        expected: ValueType::Text,
                        found: inputs@[Self::INPUT_ARG_TEXT@].spec_type(),
                    },
                ),
            ),
            inputs@.contains_key(Self::INPUT_ARG_TEXT@) && inputs@[Self::INPUT_ARG_TEXT@] is Text ==> r is Ok
                && r->Ok_0@ == inputs@[Self::INPUT_ARG_TEXT@]->Text_0@,
    {
        match inputs.get(&Self::INPUT_ARG_TEXT.to_owned()) {
            None => Err(TaskError::MissingInput),
            Some(v) => match v.downcast::<String>() {
                Ok(s) => Ok(s.clone()),
                Err(e) => Err(TaskError::Value(e)),
            },
        }
    }
}

impl NodeMetaTrait for NodePrint {
    /// Template `print`, version `0.1.0`: one required text input `text`, no
    /// outputs.
    open spec fn spec_meta(&self) -> NodeMetaView {
        NodeMetaView {
            id: "print"@,
            version: "0.1.0"@,
            input_args: map![Self::INPUT_ARG_TEXT@ => InputArgMeta { value_type: ValueType::Text, is_optional: false }],
            output_args: Map::empty(),
        }
    }

    fn get_meta(&self) -> (r: NodeMeta) {
        NodeMeta::new(NodeId::new("print"), "0.1.0".to_owned()).with_input_arg(
            Self::INPUT_ARG_TEXT.to_owned(),
            InputArgMeta::new::<String>(),
        )
    }
}

/// A call to a language model: reads a context, produces text.
pub struct NodeLLM {}

impl NodeLLM {
    pub const INPUT_ARG_CONTEXT: &'static str = "context";

    pub const OUTPUT_ARG_TEXT: &'static str = "text";

    /// The outputs of a language-model instance: none yet. Fails without a
    /// `context` input.
    pub fn evaluate(inputs: &Table<Value>) -> (r: Result<Table<Value>, TaskError>)
        requires
            inputs.wf(),
        ensures
            !inputs@.contains_key(Self::INPUT_ARG_CONTEXT@) ==> r == Err::<Table<Value>, TaskError>(
                TaskError::MissingInput,
            ),
            inputs@.contains_key(Self::INPUT_ARG_CONTEXT@) ==> r is Ok && r->Ok_0.wf() && r->Ok_0@
                == Map::<Seq<char>, Value>::empty(),
    {
        if !inputs.contains_key(&Self::INPUT_ARG_CONTEXT.to_owned()) {
            return Err(TaskError::MissingInput);
        }
        Ok(Table::new())
    }
}

impl NodeMetaTrait for NodeLLM {
    /// Template `llm`, version `0.1.0`: one required text input `context`,
    /// one text output `text`.
    open spec fn spec_meta(&self) -> NodeMetaView {
        NodeMetaView {
            id: "llm"@,
            version: "0.1.0"@,
            input_args: map![Self::INPUT_ARG_CONTEXT@ => InputArgMeta { value_type: ValueType::Text, is_optional: false }],
            output_args: map![Self::OUTPUT_ARG_TEXT@ => OutputArgMeta { value_type: ValueType::Text }],
        }
    }

    fn get_meta(&self) -> (r: NodeMeta) {
        NodeMeta::new(NodeId::new("llm"), "0.1.0".to_owned()).with_input_arg(
            Self::INPUT_ARG_CONTEXT.to_owned(),
            InputArgMeta::new::<String>(),
        ).with_output_arg(Self::OUTPUT_ARG_TEXT.to_owned(), OutputArgMeta::new::<String>())
    }
}

} // verus!
