//! Diagram object model: the node kinds of an entity-relationship diagram
//! and the links drawn between them.

use vstd::prelude::*;

use crate::bminustree::built_from;
use crate::bminustree::views_of;
use crate::bminustree::BMinusNode;
use crate::bminustree::MAX_KEYS;

verus! {

/// Cardinality of a relationship node.
#[derive(Clone, Debug, PartialEq, Eq, Structural)]
pub enum CardType {
    OneToOne,
    OneToMany,
    ManyToOne,
    ManyToMany,
}

/// Kind of a polymorphic (specialisation) node.
#[derive(Clone, Debug, PartialEq, Eq, Structural)]
pub enum Polymorph {
    Union,
    Disjoint,
    Overlapping,
}

/// Kind of a diagram node.
#[derive(Clone, Debug, PartialEq, Eq, Structural)]
pub enum ObjectType {
    Entity,
    Relationship { card: CardType },
    Parameter { is_id: bool },
    EntityDependent,
    RelationshipDependent { card: CardType },
    FunctionParameter { is_id: bool },
    Polymorph { poly: Polymorph },
}

impl ObjectType {
    /// Whether a link touching a node of this kind is drawn as a double line.
    pub fn use_double_link(&self) -> (r: bool)
        ensures
            r == (self is EntityDependent || self is RelationshipDependent),
    {
        match self {
            ObjectType::Entity => false,
            ObjectType::Relationship { .. } => false,
            ObjectType::Parameter { .. } => false,
            ObjectType::EntityDependent => true,
            ObjectType::RelationshipDependent { .. } => true,
            ObjectType::FunctionParameter { .. } => false,
            ObjectType::Polymorph { .. } => false,
        }
    }

    /// Whether a node of this kind forbids double lines on its links,
    /// even when the node at the other end would ask for one.
    pub fn force_not_double(&self) -> (r: bool)
        ensures
            r == (self is Parameter || self is FunctionParameter || self is Polymorph),
    {
        match self {
            ObjectType::Entity => false,
            ObjectType::Relationship { .. } => false,
            ObjectType::Parameter { .. } => true,
            ObjectType::EntityDependent => false,
            ObjectType::RelationshipDependent { .. } => false,
            ObjectType::FunctionParameter { .. } => true,
            ObjectType::Polymorph { .. } => true,
        }
    }
}

/// A link between the two diagram nodes with identifiers `a` and `b`,
/// labelled with a free-form cardinality annotation.
#[derive(Clone, Debug)]
pub struct Link {
    pub a: u32,
    pub b: u32,
    pub minmax: String,
}

/// `link` joins exactly the nodes `a` and `b`, in either orientation.
pub open spec fn joins(link: Link, a: u32, b: u32) -> bool {
    (link.a == a || link.a == b) && (link.b == a || link.b == b)
}

/// `link` has the node `node` at one of its two ends.
pub open spec fn touches(link: Link, node: u32) -> bool {
    link.a == node || link.b == node
}

/// `i` is the position of the first link in `links` that joins `a` and `b`.
pub open spec fn first_joining(links: Seq<Link>, a: u32, b: u32, i: int) -> bool {
    &&& 0 <= i < links.len()
    &&& joins(links[i], a, b)
    &&& forall|j: int| 0 <= j < i ==> !joins(links[j], a, b)
}

/// `i` is the position of the first link in `links` that touches `node`.
pub open spec fn first_touching(links: Seq<Link>, node: u32, i: int) -> bool {
    &&& 0 <= i < links.len()
    &&& touches(links[i], node)
    &&& forall|j: int| 0 <= j < i ==> !touches(links[j], node)
}

/// Appends a new link joining `a` and `b`, with an empty annotation.
pub fn link(links: &mut Vec<Link>, a: u32, b: u32)
    ensures
        final(links)@.len() == old(links)@.len() + 1,
        final(links)@.subrange(0, old(links)@.len() as int) == old(links)@,
        final(links)@.last().a == a,
        final(links)@.last().b == b,
        final(links)@.last().minmax@ == Seq::<char>::empty(),
{
    links.push(Link { a, b, minmax: String::new() });
    proof {
        assert(links@.subrange(0, old(links)@.len() as int) =~= old(links)@);
    }
}

/// Removes the first link joining `a` and `b`, and reports whether any link
/// joined them at all.
pub fn remove_link(links: &mut Vec<Link>, a: u32, b: u32) -> (removed: bool)
    ensures
        removed == exists|i: int| first_joining(old(links)@, a, b, i),
        forall|i: int|
            first_joining(old(links)@, a, b, i) ==> final(links)@ == old(links)@.remove(i),
        !removed ==> final(links)@ == old(links)@,
{
    let n = links.len();
    let mut i: usize = 0;
    while i < n
        invariant
            i <= n == links@.len(),
            links@ == old(links)@,
            forall|j: int| 0 <= j < i ==> !joins(links@[j], a, b),
        decreases n - i,
    {
        if (links[i].a == a || links[i].a == b) && (links[i].b == a || links[i].b == b) {
            assert(first_joining(links@, a, b, i as int));
            links.remove(i);
            return true;
        }
        i = i + 1;
    }
    false
}

/// The first link touching `node`, if any link does.
pub fn get_link(links: &Vec<Link>, node: u32) -> (r: Option<&Link>)
    ensures
        match r {
            Some(l) => exists|i: int| first_touching(links@, node, i) && *l == links@[i],
            None => forall|i: int| 0 <= i < links@.len() ==> !touches(links@[i], node),
        },
{
    let n = links.len();
    let mut i: usize = 0;
    while i < n
        invariant
            i <= n == links@.len(),
            forall|j: int| 0 <= j < i ==> !touches(links@[j], node),
        decreases n - i,
    {
        if links[i].a == node || links[i].b == node {
            assert(first_touching(links@, node, i as int));
            return Some(&links[i]);
        }
        i = i + 1;
    }
    None
}

/// The position of the first link touching `node`, if any link does.  Callers
/// that edit the link in place index the list with it.
pub fn get_link_mut(links: &mut Vec<Link>, node: u32) -> (r: Option<usize>)
    ensures
        final(links)@ == old(links)@,
        match r {
            Some(i) => first_touching(old(links)@, node, i as int),
            None => forall|i: int| 0 <= i < old(links)@.len() ==> !touches(old(links)@[i], node),
        },
{
    let n = links.len();
    let mut i: usize = 0;
    while i < n
        invariant
            i <= n == links@.len(),
            links@ == old(links)@,
            forall|j: int| 0 <= j < i ==> !touches(links@[j], node),
        decreases n - i,
    {
        if links[i].a == node || links[i].b == node {
            return Some(i);
        }
        i = i + 1;
    }
    None
}

/// Builds the search tree for `keys` and appends it to `trees`; an empty key
/// list leaves `trees` unchanged.  The caller keeps `keys` within the lengths
/// the split table covers.
pub fn create_tree(trees: &mut Vec<BMinusNode>, keys: Vec<String>)
    requires
        keys@.len() <= MAX_KEYS,
    ensures
        keys@.len() == 0 ==> final(trees)@ == old(trees)@,
        keys@.len() > 0 ==> {
            &&& final(trees)@.len() == old(trees)@.len() + 1
            &&& final(trees)@.subrange(0, old(trees)@.len() as int) == old(trees)@
            &&& built_from(final(trees)@.last(), views_of(keys@))
        },
{
    if keys.len() == 0 {
        return ;
    }
    let created = BMinusNode::create(keys);
    trees.push(created);
    proof {
        assert(trees@.subrange(0, old(trees)@.len() as int) =~= old(trees)@);
    }
}

} // verus!
