use vstd::prelude::*;

verus! {

/// A generic symbolic-list tree: an atom, holding its token text verbatim,
/// or an ordered list of trees.
pub enum Node {
    Symbol(String),
    List(Vec<Node>),
}

impl Node {
    /// A symbol atom holding `s`.
    pub fn symbol(s: &str) -> (r: Node)
        ensures
            r matches Node::Symbol(t) && t@ == s@,
    {
        Node::Symbol(String::from_str(s))
    }

    /// A list of the given trees.
    pub fn list(items: Vec<Node>) -> (r: Node)
        ensures
            r == Node::List(items),
    {
        Node::List(items)
    }
}

} // verus!
