//! Helper functions for use by semantic analysis passes to deal with [`NodeId`] bugs.

use crate::pos::{Sp, Span};
use crate::resolve::NodeId;
use std::collections::HashMap;
use vstd::prelude::*;

verus! {

broadcast use vstd::std_specs::hash::group_hash_axioms;

/// Something is wrong with the ids of a syntax tree.
#[derive(Debug, Copy, Clone, PartialEq, Eq, Structural)]
pub enum NodeIdBug {
    /// "AST node missing node ID!"
    Missing { span: Span },
    /// "AST node has duplicate node ID!"  It was probably cloned without refreshing ids.
    Duplicate { span: Span },
}

/// Data about nodes, by the numbers of their ids.
pub type IdMap<V> = HashMap<u32, V>;

/// Report a bug if an AST node doesn't have a [`NodeId`].
pub fn expect_node_id<A>(node: &Sp<A>, node_id: Option<NodeId>) -> (r: Result<NodeId, NodeIdBug>)
    ensures
        match node_id {
            Some(id) => r == Ok::<NodeId, NodeIdBug>(id),
            None => r == Err::<NodeId, NodeIdBug>(NodeIdBug::Missing { span: node.span }),
        },
{
    match node_id {
        Some(id) => Ok(id),
        None => Err(NodeIdBug::Missing { span: node.span }),
    }
}

/// Insert into an [`IdMap`] and report a bug if the key is already present.
pub fn id_map_insert<A, V>(
    id_map: &mut IdMap<V>,
    node: &Sp<A>,
    node_id: Option<NodeId>,
    value: V,
) -> (r: Result<(), NodeIdBug>)
    ensures
        match node_id {
            Some(id) => {
                &&& final(id_map)@ == old(id_map)@.insert(id.0, value)
                &&& r == if old(id_map)@.contains_key(id.0) {
                    Err::<(), NodeIdBug>(NodeIdBug::Duplicate { span: node.span })
                } else {
                    Ok(())
                }
            },
            None => {
                &&& final(id_map)@ == old(id_map)@
                &&& r == Err::<(), NodeIdBug>(NodeIdBug::Missing { span: node.span })
            },
        },
{
    match expect_node_id(node, node_id) {
        Err(e) => Err(e),
        Ok(id) => match id_map.insert(id.0, value) {
            Some(_) => Err(NodeIdBug::Duplicate { span: node.span }),
            None => Ok(()),
        },
    }
}

} // verus!
