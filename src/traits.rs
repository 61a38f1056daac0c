//! Lookups by name on nodes.

use vstd::prelude::*;
use crate::node::{DeviceTreeNode, NodeModel};
use crate::prop::{NodeProperty, PropertyModel, PropertyValue};

verus! {

/// Index of the first node named `name` at or after `from`, or the length when there is none.
pub open spec fn child_index(nodes: Seq<NodeModel>, name: Seq<char>, from: int) -> int
    decreases nodes.len() - from,
{
    if from < 0 || from >= nodes.len() {
        nodes.len() as int
    } else if nodes[from].name == name {
        from
    } else {
        child_index(nodes, name, from + 1)
    }
}

/// The first node named `name`, if any.
pub open spec fn named_child(nodes: Seq<NodeModel>, name: Seq<char>) -> Option<NodeModel> {
    let i = child_index(nodes, name, 0);
    if i < nodes.len() {
        Some(nodes[i])
    } else {
        None
    }
}

/// Index of the first property named `name` at or after `from`, or the length when there is
/// none.
pub open spec fn prop_index(props: Seq<PropertyModel>, name: Seq<char>, from: int) -> int
    decreases props.len() - from,
{
    if from < 0 || from >= props.len() {
        props.len() as int
    } else if props[from].name == name {
        from
    } else {
        prop_index(props, name, from + 1)
    }
}

/// The first property named `name`, if any.
pub open spec fn named_prop(props: Seq<PropertyModel>, name: Seq<char>) -> Option<PropertyModel> {
    let i = prop_index(props, name, 0);
    if i < props.len() {
        Some(props[i])
    } else {
        None
    }
}

/// Something that holds properties and can be searched by property name.
pub trait HasNamedProperty {
    /// The properties held, in order.
    spec fn named_props(&self) -> Seq<PropertyModel>;

    /// Whether there is any property.
    fn has_props(&self) -> (r: bool)
        ensures
            r == (self.named_props().len() > 0),
    ;

    /// The first property named `name`.
    fn find_prop(&self, name: &str) -> (r: Option<&NodeProperty>)
        ensures
            r is Some <==> named_prop(self.named_props(), name@) is Some,
            r matches Some(p) ==> named_prop(self.named_props(), name@) == Some(p@),
    ;

    /// The value of the first property named `name`.
    fn of_value(&self, name: &str) -> (r: Option<&PropertyValue>)
        ensures
            r is Some <==> named_prop(self.named_props(), name@) is Some,
            r matches Some(v) ==> named_prop(self.named_props(), name@)->0.value == v@,
    ;
}

/// Something that holds child nodes and can be searched by child name.
pub trait HasNamedChildNode {
    /// The children held, in order.
    spec fn named_children(&self) -> Seq<NodeModel>;

    /// Whether there is any child.
    fn has_children(&self) -> (r: bool)
        ensures
            r == (self.named_children().len() > 0),
    ;

    /// The first child named `name`.
    fn find_child(&self, name: &str) -> (r: Option<&DeviceTreeNode>)
        ensures
            r is Some <==> named_child(self.named_children(), name@) is Some,
            r matches Some(n) ==> named_child(self.named_children(), name@) == Some(n@),
    ;
}

/// The value of a property found by name, in one call.
pub trait FindPropertyValue: HasNamedProperty {
    /// The value of the first property named `prop_name`.
    fn value(&self, prop_name: &str) -> (r: Option<&PropertyValue>)
        ensures
            r is Some <==> named_prop(self.named_props(), prop_name@) is Some,
            r matches Some(v) ==> named_prop(self.named_props(), prop_name@)->0.value == v@,
    ;
}

impl<T: HasNamedProperty> FindPropertyValue for T {
    fn value(&self, prop_name: &str) -> (r: Option<&PropertyValue>) {
        match self.find_prop(prop_name) {
            Some(p) => Some(p.value()),
            None => None,
        }
    }
}

} // verus!
