//! Node inputs.

pub mod flags;

use vstd::prelude::*;

use crate::value::{NodeValue, ValueModel, ValueType};

verus! {

/// One declared input of a node.
#[derive(PartialEq, Debug)]
pub struct Input {
    /// The input's id.
    pub id: String,
    /// The type of its values.
    pub value_type: ValueType,
    /// The value it has until one is set.
    pub default: NodeValue,
    /// Flag bits, see [`flags`].
    pub flags: u32,
    /// Display properties by name.
    pub properties: Vec<(String, NodeValue)>,
}

/// What an [`Input`] declares.
#[verifier::ext_equal]
pub struct InputModel {
    pub id: Seq<char>,
    pub value_type: ValueType,
    pub default: ValueModel,
    pub flags: u32,
    pub properties: Seq<(Seq<char>, ValueModel)>,
}

/// What a list of properties says.
pub open spec fn properties_model(properties: Seq<(String, NodeValue)>) -> Seq<
    (Seq<char>, ValueModel),
> {
    properties.map_values(|p: (String, NodeValue)| (p.0@, p.1@))
}

/// An input without flags and properties.
pub open spec fn plain_input(
    id: Seq<char>,
    value_type: ValueType,
    default: ValueModel,
) -> InputModel {
    InputModel { id, value_type, default, flags: 0, properties: Seq::empty() }
}

impl InputModel {
    /// The same input with other flags.
    pub open spec fn flagged(self, flags: u32) -> InputModel {
        InputModel { flags, ..self }
    }

    /// The same input with other properties.
    pub open spec fn described(self, properties: Seq<(Seq<char>, ValueModel)>) -> InputModel {
        InputModel { properties, ..self }
    }
}

/// The first input called `id`.
pub open spec fn find_input(inputs: Seq<InputModel>, id: Seq<char>) -> Option<InputModel>
    decreases inputs.len(),
{
    if inputs.len() == 0 {
        None
    } else if inputs[0].id == id {
        Some(inputs[0])
    } else {
        find_input(inputs.skip(1), id)
    }
}

impl Input {
    /// What this input declares.
    pub open spec fn view(&self) -> InputModel {
        InputModel {
            id: self.id@,
            value_type: self.value_type,
            default: self.default@,
            flags: self.flags,
            properties: properties_model(self.properties@),
        }
    }

    /// An input without flags and properties.
    pub fn new(id: &str, value_type: ValueType, default: NodeValue) -> (r: Input)
        ensures
            r@ == plain_input(id@, value_type, default@),
    {
        let r = Input {
            id: id.to_string(),
            value_type,
            default,
            flags: 0,
            properties: Vec::new(),
        };
        assert(r@ =~= plain_input(id@, value_type, default@));
        r
    }

    /// This input with its flags set to `flags`.
    pub fn with_flags(self, flags: u32) -> (r: Input)
        ensures
            r@ == self@.flagged(flags),
    {
        Input { flags, ..self }
    }

    /// This input with one more property.
    pub fn with_property(self, name: &str, value: NodeValue) -> (r: Input)
        ensures
            r@ == self@.described(self@.properties.push((name@, value@))),
    {
        let ghost before = self@;
        let mut r = self;
        r.properties.push((name.to_string(), value));
        assert(r@.properties =~= before.properties.push((name@, value@)));
        r
    }

    /// Whether an edge may end here.
    pub fn is_connectable(&self) -> (r: bool)
        ensures
            r == (self@.flags & flags::NOT_CONNECTABLE == 0),
    {
        self.flags & flags::NOT_CONNECTABLE == 0
    }
}

} // verus!
