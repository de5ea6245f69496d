//! The source files under check together with the types the checker has
//! attached to their nodes, by node identifier.
use vstd::prelude::*;

use std::collections::HashMap;

use crate::ast::SourceFile;
use crate::type_info::{TypeInfo, TypeModel};

verus! {

broadcast use vstd::std_specs::hash::group_hash_axioms;

/// The types attached to nodes, by node identifier.
#[derive(Debug)]
pub struct NodeTypes {
    pub map: HashMap<u32, TypeInfo>,
}

impl NodeTypes {
    /// The type attached to node `id`, if any.
    pub open spec fn type_of_node(&self, id: u32) -> Option<TypeModel> {
        if self.map@.contains_key(id) {
            Some(self.map@[id]@)
        } else {
            None
        }
    }

    /// Every node keeps its type except `id`, which now has type `t`.
    pub open spec fn updated(&self, old: &NodeTypes, id: u32, t: TypeModel) -> bool {
        &&& self.type_of_node(id) == Some(t)
        &&& forall|k: u32| k != id ==> #[trigger] self.type_of_node(k) == old.type_of_node(k)
    }

    /// No node has a type.
    pub fn new() -> (r: NodeTypes)
        ensures
            forall|k: u32| #[trigger] r.type_of_node(k) is None,
    {
        NodeTypes { map: HashMap::new() }
    }

    /// Attaches type `t` to node `id`, replacing what it had.
    pub fn set_node_typeinfo(&mut self, id: u32, t: TypeInfo)
        ensures
            final(self).updated(old(self), id, t@),
    {
        self.map.insert(id, t);
    }

    /// The type attached to node `id`, if any.
    pub fn get_node_typeinfo(&self, id: u32) -> (r: Option<TypeInfo>)
        ensures
            match r {
                Some(t) => self.type_of_node(id) == Some(t@),
                None => self.type_of_node(id) is None,
            },
    {
        match self.map.get(&id) {
            Some(t) => Some(t.duplicate()),
            None => None,
        }
    }
}

/// Source files and the types attached to their nodes.
#[derive(Debug)]
pub struct TypedContext {
    pub source_files: Vec<SourceFile>,
    pub node_types: NodeTypes,
}

impl TypedContext {
    /// The given files, with no types attached yet.
    pub fn new(source_files: Vec<SourceFile>) -> (r: TypedContext)
        ensures
            r.source_files == source_files,
            forall|k: u32| #[trigger] r.node_types.type_of_node(k) is None,
    {
        TypedContext { source_files, node_types: NodeTypes::new() }
    }

    /// The source files under check.
    pub fn source_files(&self) -> (r: &Vec<SourceFile>)
        ensures
            *r == self.source_files,
    {
        &self.source_files
    }

    /// The type attached to node `id`, if any.
    pub fn get_node_typeinfo(&self, id: u32) -> (r: Option<TypeInfo>)
        ensures
            match r {
                Some(t) => self.node_types.type_of_node(id) == Some(t@),
                None => self.node_types.type_of_node(id) is None,
            },
    {
        self.node_types.get_node_typeinfo(id)
    }

    /// Attaches type `t` to node `id`.
    pub fn set_node_typeinfo(&mut self, id: u32, t: TypeInfo)
        ensures
            final(self).node_types.updated(&old(self).node_types, id, t@),
            final(self).source_files == old(self).source_files,
    {
        self.node_types.set_node_typeinfo(id, t);
    }
}

} // verus!
