//! Bulk loading of a bounded-fanout balanced search tree from a sorted key
//! sequence.
//!
//! A node holds at most [`NODE_COUNT`] separator keys; an internal node has
//! exactly one more child than it has keys.  The tree is built once, from the
//! whole input, by a fixed per-length split table that handles 1 to 11 keys;
//! there is no insertion or deletion afterwards.

use vstd::prelude::*;
use vstd::std_specs::iter::IteratorSpec;
use vstd::string::StringExecFns;

verus! {

/// Most separator keys a single node may hold.
pub const NODE_COUNT: usize = 3;

/// Largest input length the split table covers.
pub const MAX_KEYS: usize = 11;

/// Why no tree could be built: the input length has no entry in the split
/// table.  The offending length is carried for the caller's diagnostic.
#[derive(Clone, Copy, Debug, PartialEq, Eq, Structural)]
pub enum BuildError {
    /// The input held no keys at all.
    EmptyInput,
    /// The input held more keys than the split table covers.
    TooManyKeys { len: usize },
}

/// One node of the tree: separator keys, and the child subtrees between them.
/// `children` is empty for a leaf; otherwise it holds `keys.len() + 1` nodes.
#[derive(Debug)]
pub struct BMinusNode {
    pub keys: Vec<String>,
    pub children: Vec<BMinusNode>,
}

/// The character sequences of a list of keys.
pub open spec fn views_of(keys: Seq<String>) -> Seq<Seq<char>> {
    keys.map_values(|k: String| k@)
}

/// Index of the single separator for inputs of 4 to 7 keys: the middle,
/// shifted one left when the length is even.
pub open spec fn mid_split(n: int) -> int {
    if n % 2 == 0 {
        n / 2 - 1
    } else {
        n / 2
    }
}

/// Separator indices for inputs of 8 to 10 keys.
pub open spec fn pair_split(n: int) -> (int, int) {
    if n == 8 {
        (1, 4)
    } else if n == 9 {
        (1, 5)
    } else {
        (2, 6)
    }
}

/// `node` is exactly the tree that bulk loading yields on `input`.
/// No node at all is built from an empty input or from more than 11 keys.
pub open spec fn built_from(node: BMinusNode, input: Seq<Seq<char>>) -> bool
    decreases input.len(),
{
    let n = input.len() as int;
    if 1 <= n <= 3 {
        &&& views_of(node.keys@) == input
        &&& node.children@.len() == 0
    } else if 4 <= n <= 7 {
        let mid = mid_split(n);
        &&& views_of(node.keys@) == seq![input[mid]]
        &&& node.children@.len() == 2
        &&& built_from(node.children@[0], input.subrange(0, mid))
        &&& built_from(node.children@[1], input.subrange(mid + 1, n))
    } else if 8 <= n <= 10 {
        let (a, b) = pair_split(n);
        &&& views_of(node.keys@) == seq![input[a], input[b]]
        &&& node.children@.len() == 3
        &&& built_from(node.children@[0], input.subrange(0, a))
        &&& built_from(node.children@[1], input.subrange(a + 1, b))
        &&& built_from(node.children@[2], input.subrange(b + 1, n))
    } else if n == 11 {
        &&& views_of(node.keys@) == seq![input[1], input[3], input[6]]
        &&& node.children@.len() == 4
        &&& built_from(node.children@[0], input.subrange(0, 1))
        &&& built_from(node.children@[1], input.subrange(2, 3))
        &&& built_from(node.children@[2], input.subrange(4, 6))
        &&& built_from(node.children@[3], input.subrange(7, 11))
    } else {
        false
    }
}

/// Shape invariant of a node: it holds between 1 and [`NODE_COUNT`] separator
/// keys, it is either a leaf or has exactly one child more than it has keys,
/// and every child is well formed in turn.
pub open spec fn well_formed(node: BMinusNode) -> bool
    decreases node,
{
    &&& 1 <= node.keys@.len() <= NODE_COUNT
    &&& (node.children@.len() == 0 || node.children@.len() == node.keys@.len() + 1)
    &&& forall|i: int|
        0 <= i < node.children@.len() ==> well_formed(#[trigger] node.children@[i])
}

/// In-order traversal of the subtree from child `i` on: child `i`, then
/// separator `i`, then the rest, ending with the last child.
pub open spec fn in_order_from(node: BMinusNode, i: int) -> Seq<Seq<char>>
    decreases node, node.children@.len() - i,
{
    if 0 <= i < node.children@.len() {
        if i + 1 < node.children@.len() {
            in_order(node.children@[i]) + (if i < node.keys@.len() {
                seq![node.keys@[i]@]
            } else {
                Seq::<Seq<char>>::empty()
            }) + in_order_from(node, i + 1)
        } else {
            in_order(node.children@[i])
        }
    } else {
        Seq::<Seq<char>>::empty()
    }
}

/// In-order traversal of a whole node: child, key, child, key, ..., child for
/// an internal node, just the keys for a leaf.
pub open spec fn in_order(node: BMinusNode) -> Seq<Seq<char>>
    decreases node, node.children@.len() + 1,
{
    if node.children@.len() == 0 {
        views_of(node.keys@)
    } else {
        in_order_from(node, 0)
    }
}

/// Number of keys stored in the children of `node` from child `i` on.
pub open spec fn key_count_from(node: BMinusNode, i: int) -> nat
    decreases node, node.children@.len() - i,
{
    if 0 <= i < node.children@.len() {
        key_count(node.children@[i]) + key_count_from(node, i + 1)
    } else {
        0
    }
}

/// Total number of keys stored in a subtree, separators and leaf keys alike.
pub open spec fn key_count(node: BMinusNode) -> nat
    decreases node, node.children@.len() + 1,
{
    node.keys@.len() + key_count_from(node, 0)
}

/// `a` and `b` are the same tree: the same keys, character for character, in
/// the same arrangement of nodes.
pub open spec fn same_tree(a: BMinusNode, b: BMinusNode) -> bool
    decreases a,
{
    &&& views_of(a.keys@) == views_of(b.keys@)
    &&& a.children@.len() == b.children@.len()
    &&& forall|i: int|
        0 <= i < a.children@.len() ==> same_tree(#[trigger] a.children@[i], b.children@[i])
}

/// Law: every tree the builder yields is well formed.  Each of its nodes
/// holds between 1 and [`NODE_COUNT`] keys — leaves and internal nodes alike —
/// and each internal node has exactly `keys.len() + 1` children.
pub proof fn lemma_built_from_well_formed(node: BMinusNode, input: Seq<Seq<char>>)
    requires
        built_from(node, input),
    ensures
        well_formed(node),
    decreases input.len(),
{
    let n = input.len() as int;
    if 1 <= n <= 3 {
        assert(views_of(node.keys@) == input);
    } else if 4 <= n <= 7 {
        let mid = mid_split(n);
        assert(views_of(node.keys@) == seq![input[mid]]);
        lemma_built_from_well_formed(node.children@[0], input.subrange(0, mid));
        lemma_built_from_well_formed(node.children@[1], input.subrange(mid + 1, n));
    } else if 8 <= n <= 10 {
        let (a, b) = pair_split(n);
        assert(views_of(node.keys@) == seq![input[a], input[b]]);
        lemma_built_from_well_formed(node.children@[0], input.subrange(0, a));
        lemma_built_from_well_formed(node.children@[1], input.subrange(a + 1, b));
        lemma_built_from_well_formed(node.children@[2], input.subrange(b + 1, n));
    } else if n == 11 {
        assert(views_of(node.keys@) == seq![input[1], input[3], input[6]]);
        lemma_built_from_well_formed(node.children@[0], input.subrange(0, 1));
        lemma_built_from_well_formed(node.children@[1], input.subrange(2, 3));
        lemma_built_from_well_formed(node.children@[2], input.subrange(4, 6));
        lemma_built_from_well_formed(node.children@[3], input.subrange(7, 11));
    } else {
        assert(false);
    }
}

/// Law: the in-order traversal of the built tree — child, key, child, key,
/// ..., child — reads back the input sequence exactly.  In particular every
/// input key appears exactly once in the tree, and no other key appears.
pub proof fn lemma_built_from_in_order(node: BMinusNode, input: Seq<Seq<char>>)
    requires
        built_from(node, input),
    ensures
        in_order(node) == input,
    decreases input.len(),
{
    reveal_with_fuel(in_order_from, 5);
    let n = input.len() as int;
    if 1 <= n <= 3 {
        assert(views_of(node.keys@) == input);
    } else if 4 <= n <= 7 {
        let mid = mid_split(n);
        assert(views_of(node.keys@) == seq![input[mid]]);
        lemma_built_from_in_order(node.children@[0], input.subrange(0, mid));
        lemma_built_from_in_order(node.children@[1], input.subrange(mid + 1, n));
        assert(node.keys@[0]@ == views_of(node.keys@)[0]);
        assert(in_order_from(node, 1) == in_order(node.children@[1]));
        assert(in_order_from(node, 0) == in_order(node.children@[0]) + seq![node.keys@[0]@]
            + in_order_from(node, 1));
        assert(in_order(node) == in_order_from(node, 0));
        assert(in_order(node) =~= input);
    } else if 8 <= n <= 10 {
        let (a, b) = pair_split(n);
        assert(views_of(node.keys@) == seq![input[a], input[b]]);
        lemma_built_from_in_order(node.children@[0], input.subrange(0, a));
        lemma_built_from_in_order(node.children@[1], input.subrange(a + 1, b));
        lemma_built_from_in_order(node.children@[2], input.subrange(b + 1, n));
        assert(node.keys@[0]@ == views_of(node.keys@)[0]);
        assert(node.keys@[1]@ == views_of(node.keys@)[1]);
        assert(in_order_from(node, 2) == in_order(node.children@[2]));
        assert(in_order_from(node, 1) == in_order(node.children@[1]) + seq![node.keys@[1]@]
            + in_order_from(node, 2));
        assert(in_order_from(node, 0) == in_order(node.children@[0]) + seq![node.keys@[0]@]
            + in_order_from(node, 1));
        assert(in_order(node) == in_order_from(node, 0));
        assert(in_order(node) =~= input);
    } else if n == 11 {
        assert(views_of(node.keys@) == seq![input[1], input[3], input[6]]);
        lemma_built_from_in_order(node.children@[0], input.subrange(0, 1));
        lemma_built_from_in_order(node.children@[1], input.subrange(2, 3));
        lemma_built_from_in_order(node.children@[2], input.subrange(4, 6));
        lemma_built_from_in_order(node.children@[3], input.subrange(7, 11));
        assert(node.keys@[0]@ == views_of(node.keys@)[0]);
        assert(node.keys@[1]@ == views_of(node.keys@)[1]);
        assert(node.keys@[2]@ == views_of(node.keys@)[2]);
        assert(in_order_from(node, 3) == in_order(node.children@[3]));
        assert(in_order_from(node, 2) == in_order(node.children@[2]) + seq![node.keys@[2]@]
            + in_order_from(node, 3));
        assert(in_order_from(node, 1) == in_order(node.children@[1]) + seq![node.keys@[1]@]
            + in_order_from(node, 2));
        assert(in_order_from(node, 0) == in_order(node.children@[0]) + seq![node.keys@[0]@]
            + in_order_from(node, 1));
        assert(in_order(node) == in_order_from(node, 0));
        assert(in_order(node) =~= input);
    } else {
        assert(false);
    }
}

/// Law: the built tree stores exactly as many keys as the input has —
/// separator keys across all nodes and leaf keys together.
pub proof fn lemma_built_from_key_count(node: BMinusNode, input: Seq<Seq<char>>)
    requires
        built_from(node, input),
    ensures
        key_count(node) == input.len(),
    decreases input.len(),
{
    reveal_with_fuel(key_count_from, 6);
    let n = input.len() as int;
    if 1 <= n <= 3 {
        assert(views_of(node.keys@) == input);
    } else if 4 <= n <= 7 {
        let mid = mid_split(n);
        assert(views_of(node.keys@) == seq![input[mid]]);
        lemma_built_from_key_count(node.children@[0], input.subrange(0, mid));
        lemma_built_from_key_count(node.children@[1], input.subrange(mid + 1, n));
        assert(key_count_from(node, 2) == 0);
        assert(key_count_from(node, 1) == key_count(node.children@[1]) + key_count_from(
            node,
            2,
        ));
        assert(key_count_from(node, 0) == key_count(node.children@[0]) + key_count_from(
            node,
            1,
        ));
        assert(key_count(node) == node.keys@.len() + key_count_from(node, 0));
    } else if 8 <= n <= 10 {
        let (a, b) = pair_split(n);
        assert(views_of(node.keys@) == seq![input[a], input[b]]);
        lemma_built_from_key_count(node.children@[0], input.subrange(0, a));
        lemma_built_from_key_count(node.children@[1], input.subrange(a + 1, b));
        lemma_built_from_key_count(node.children@[2], input.subrange(b + 1, n));
        assert(key_count_from(node, 3) == 0);
        assert(key_count_from(node, 2) == key_count(node.children@[2]) + key_count_from(
            node,
            3,
        ));
        assert(key_count_from(node, 1) == key_count(node.children@[1]) + key_count_from(
            node,
            2,
        ));
        assert(key_count_from(node, 0) == key_count(node.children@[0]) + key_count_from(
            node,
            1,
        ));
        assert(key_count(node) == node.keys@.len() + key_count_from(node, 0));
    } else if n == 11 {
        assert(views_of(node.keys@) == seq![input[1], input[3], input[6]]);
        lemma_built_from_key_count(node.children@[0], input.subrange(0, 1));
        lemma_built_from_key_count(node.children@[1], input.subrange(2, 3));
        lemma_built_from_key_count(node.children@[2], input.subrange(4, 6));
        lemma_built_from_key_count(node.children@[3], input.subrange(7, 11));
        assert(key_count_from(node, 4) == 0);
        assert(key_count_from(node, 3) == key_count(node.children@[3]) + key_count_from(
            node,
            4,
        ));
        assert(key_count_from(node, 2) == key_count(node.children@[2]) + key_count_from(
            node,
            3,
        ));
        assert(key_count_from(node, 1) == key_count(node.children@[1]) + key_count_from(
            node,
            2,
        ));
        assert(key_count_from(node, 0) == key_count(node.children@[0]) + key_count_from(
            node,
            1,
        ));
        assert(key_count(node) == node.keys@.len() + key_count_from(node, 0));
    } else {
        assert(false);
    }
}

/// A key as it is printed: every carriage return and line feed removed.
pub open spec fn printable(k: Seq<char>) -> Seq<char>
    decreases k.len(),
{
    if k.len() == 0 {
        Seq::empty()
    } else {
        printable(k.drop_last()) + (if k.last() == '\r' || k.last() == '\n' {
            Seq::<char>::empty()
        } else {
            seq![k.last()]
        })
    }
}

/// The printed key list of one node from key `i` on: each key cleaned, and
/// `", "` after every key whose index lies below `NODE_COUNT - 1` — also after
/// the last key of a node with fewer than `NODE_COUNT` keys.
pub open spec fn keys_text(keys: Seq<Seq<char>>, i: int) -> Seq<char>
    decreases keys.len() - i,
{
    if 0 <= i < keys.len() {
        printable(keys[i]) + (if i < NODE_COUNT - 1 {
            seq![',', ' ']
        } else {
            Seq::<char>::empty()
        }) + keys_text(keys, i + 1)
    } else {
        Seq::empty()
    }
}

/// The rendering of the subtree at `node`: one line per node — its header,
/// then its keys in brackets — followed by the lines of its children, whose
/// header grows by `" - "` per level of depth.
pub open spec fn render(node: BMinusNode, header: Seq<char>) -> Seq<char>
    decreases node, node.children@.len() + 1,
{
    header + seq!['['] + keys_text(views_of(node.keys@), 0) + seq![']', '\n'] + render_children(
        node,
        header + seq![' ', '-', ' '],
        0,
    )
}

/// The renderings of the children of `node` from child `i` on, one after the
/// other, each under the header `child_header`.
pub open spec fn render_children(node: BMinusNode, child_header: Seq<char>, i: int) -> Seq<char>
    decreases node, node.children@.len() - i,
{
    if 0 <= i < node.children@.len() {
        render(node.children@[i], child_header) + render_children(node, child_header, i + 1)
    } else {
        Seq::empty()
    }
}

/// Relies on `String::push`: appends exactly the one character `c`.
#[verifier::external_body]
fn push_char(out: &mut String, c: char)
    ensures
        final(out)@ == old(out)@ + seq![c],
{
    out.push(c)
}

/// Appends `k` to `out` with every carriage return and line feed removed.
fn append_printable(out: &mut String, k: &String)
    ensures
        final(out)@ == old(out)@ + printable(k@),
{
    let mut it = k.as_str().chars();
    let ghost mut seen: Seq<char> = Seq::empty();
    assert(printable(seen) =~= Seq::<char>::empty());
    assert(out@ =~= old(out)@ + printable(seen));
    loop
        invariant
            it.obeys_prophetic_iter_laws(),
            it.decrease() is Some,
            seen + it.remaining() == k@,
            out@ == old(out)@ + printable(seen),
        ensures
            out@ == old(out)@ + printable(k@),
        decreases it.decrease()->0,
    {
        match it.next() {
            Some(c) => {
                let ghost prev_seen = seen;
                proof {
                    seen = seen.push(c);
                    assert(seen.drop_last() =~= prev_seen);
                    assert(seen + it.remaining() =~= k@);
                }
                if !(c == '\r' || c == '\n') {
                    push_char(out, c);
                }
                proof {
                    assert(out@ =~= old(out)@ + printable(seen));
                }
            },
            None => {
                proof {
                    assert(it.remaining().len() == 0);
                    assert(seen =~= k@);
                }
                break ;
            },
        }
    }
}

/// Clones the keys `v[from..to]` into a fresh list.
fn subvec(v: &Vec<String>, from: usize, to: usize) -> (r: Vec<String>)
    requires
        from <= to <= v@.len(),
    ensures
        r@.len() == to - from,
        views_of(r@) == views_of(v@).subrange(from as int, to as int),
{
    let mut r: Vec<String> = Vec::new();
    let mut i: usize = from;
    while i < to
        invariant
            from <= i <= to <= v@.len(),
            r@.len() == i - from,
            forall|j: int| 0 <= j < r@.len() ==> #[trigger] r@[j]@ == v@[from + j]@,
        decreases to - i,
    {
        r.push(v[i].clone());
        i = i + 1;
    }
    assert(views_of(r@) =~= views_of(v@).subrange(from as int, to as int));
    r
}

impl Clone for BMinusNode {
    /// A deep copy: the same keys, character for character, in the same
    /// arrangement of nodes.
    fn clone(&self) -> (res: BMinusNode)
        ensures
            same_tree(*self, res),
        decreases *self,
    {
        let keys = subvec(&self.keys, 0, self.keys.len());
        proof {
            assert(views_of(self.keys@).subrange(0, self.keys@.len() as int) =~= views_of(
                self.keys@,
            ));
        }
        let mut children: Vec<BMinusNode> = Vec::new();
        let mut i: usize = 0;
        while i < self.children.len()
            invariant
                i <= self.children@.len(),
                children@.len() == i,
                forall|j: int|
                    0 <= j < i ==> same_tree(#[trigger] self.children@[j], children@[j]),
            decreases self.children@.len() - i,
        {
            children.push(self.children[i].clone());
            i = i + 1;
        }
        BMinusNode { keys, children }
    }
}

impl BMinusNode {
    /// Bulk loads the tree for `input`, following the fixed split table.
    ///
    /// The caller must hand over between 1 and 11 keys: outside that range the
    /// table has no entry.  Callers that cannot promise this use
    /// [`BMinusNode::build`], which checks the length and reports the failure.
    pub fn create(input: Vec<String>) -> (r: BMinusNode)
        requires
            1 <= input@.len() <= MAX_KEYS,
        ensures
            built_from(r, views_of(input@)),
        decreases input@.len(),
    {
        let n = input.len();
        if n <= 3 {
            BMinusNode { keys: input, children: Vec::new() }
        } else if n <= 7 {
            let mut mid = n / 2;
            if n % 2 == 0 {
                mid = mid - 1;
            }
            assert(mid == mid_split(n as int));
            let key = input[mid].clone();
            let left = BMinusNode::create(subvec(&input, 0, mid));
            let right = BMinusNode::create(subvec(&input, mid + 1, n));
            let mut keys: Vec<String> = Vec::new();
            keys.push(key);
            let mut children: Vec<BMinusNode> = Vec::new();
            children.push(left);
            children.push(right);
            let r = BMinusNode { keys, children };
            assert(views_of(r.keys@) =~= seq![views_of(input@)[mid as int]]);
            r
        } else if n <= 10 {
            let (a, b): (usize, usize) = if n == 8 {
                (1, 4)
            } else if n == 9 {
                (1, 5)
            } else {
                (2, 6)
            };
            assert((a as int, b as int) == pair_split(n as int));
            let mut keys: Vec<String> = Vec::new();
            keys.push(input[a].clone());
            keys.push(input[b].clone());
            let mut children: Vec<BMinusNode> = Vec::new();
            children.push(BMinusNode::create(subvec(&input, 0, a)));
            children.push(BMinusNode::create(subvec(&input, a + 1, b)));
            children.push(BMinusNode::create(subvec(&input, b + 1, n)));
            let r = BMinusNode { keys, children };
            assert(views_of(r.keys@) =~= seq![
                views_of(input@)[a as int],
                views_of(input@)[b as int],
            ]);
            r
        } else {
            let mut keys: Vec<String> = Vec::new();
            keys.push(input[1].clone());
            keys.push(input[3].clone());
            keys.push(input[6].clone());
            let mut children: Vec<BMinusNode> = Vec::new();
            children.push(BMinusNode::create(subvec(&input, 0, 1)));
            children.push(BMinusNode::create(subvec(&input, 2, 3)));
            children.push(BMinusNode::create(subvec(&input, 4, 6)));
            children.push(BMinusNode::create(subvec(&input, 7, 11)));
            let r = BMinusNode { keys, children };
            assert(views_of(r.keys@) =~= seq![
                views_of(input@)[1],
                views_of(input@)[3],
                views_of(input@)[6],
            ]);
            r
        }
    }

    /// Renders the tree for inspection: one line per node with the node's
    /// keys between brackets, nesting shown by a header that grows by
    /// `" - "` for each level of depth.
    pub fn debug(&self) -> (r: String)
        ensures
            r@ == render(*self, Seq::<char>::empty()),
    {
        let mut out = String::new();
        let header = String::new();
        self.debug_internal(&mut out, &header);
        proof {
            assert(Seq::<char>::empty() + render(*self, Seq::<char>::empty()) =~= render(
                *self,
                Seq::<char>::empty(),
            ));
        }
        out
    }

    /// Appends the rendering of the subtree at `self` under `header` to `out`.
    fn debug_internal(&self, out: &mut String, header: &String)
        ensures
            final(out)@ == old(out)@ + render(*self, header@),
        decreases *self,
    {
        let ghost kviews = views_of(self.keys@);
        out.append(header.as_str());
        push_char(out, '[');
        proof {
            assert(out@ =~= old(out)@ + header@ + seq!['[']);
        }
        let mut i: usize = 0;
        while i < self.keys.len()
            invariant
                i <= self.keys@.len(),
                kviews == views_of(self.keys@),
                out@ + keys_text(kviews, i as int) == old(out)@ + header@ + seq!['[']
                    + keys_text(kviews, 0),
            decreases self.keys@.len() - i,
        {
            let ghost before = out@;
            append_printable(out, &self.keys[i]);
            if i < NODE_COUNT - 1 {
                push_char(out, ',');
                push_char(out, ' ');
                proof {
                    assert(out@ =~= before + printable(kviews[i as int]) + seq![',', ' ']);
                }
            }
            proof {
                assert(keys_text(kviews, i as int) == printable(kviews[i as int]) + (if i
                    < NODE_COUNT - 1 {
                    seq![',', ' ']
                } else {
                    Seq::<char>::empty()
                }) + keys_text(kviews, i + 1));
                assert(out@ + keys_text(kviews, i + 1) =~= before + keys_text(kviews, i as int));
            }
            i = i + 1;
        }
        proof {
            assert(keys_text(kviews, self.keys@.len() as int) == Seq::<char>::empty());
            assert(out@ =~= old(out)@ + header@ + seq!['['] + keys_text(kviews, 0));
        }
        push_char(out, ']');
        push_char(out, '\n');
        let mut child_header = header.clone();
        child_header.append(" - ");
        proof {
            reveal_strlit(" - ");
            assert(" - "@ =~= seq![' ', '-', ' ']);
            assert(child_header@ == header@ + seq![' ', '-', ' ']);
            assert(out@ + render_children(*self, child_header@, 0) =~= old(out)@ + render(
                *self,
                header@,
            ));
        }
        let mut j: usize = 0;
        while j < self.children.len()
            invariant
                j <= self.children@.len(),
                child_header@ == header@ + seq![' ', '-', ' '],
                out@ + render_children(*self, child_header@, j as int) == old(out)@ + render(
                    *self,
                    header@,
                ),
            decreases self.children@.len() - j,
        {
            let ghost before = out@;
            self.children[j].debug_internal(out, &child_header);
            proof {
                assert(render_children(*self, child_header@, j as int) == render(
                    self.children@[j as int],
                    child_header@,
                ) + render_children(*self, child_header@, j + 1));
                assert(out@ + render_children(*self, child_header@, j + 1) =~= before
                    + render_children(*self, child_header@, j as int));
            }
            j = j + 1;
        }
        proof {
            assert(render_children(*self, child_header@, self.children@.len() as int)
                == Seq::<char>::empty());
            assert(out@ =~= out@ + Seq::<char>::empty());
        }
    }

    /// Bulk loads the tree for `input` after checking that its length is one
    /// the split table covers, and reports the length otherwise.  This is the
    /// whole-length gate: between 1 and [`MAX_KEYS`] keys give a tree, an
    /// empty input and an oversized one give an error naming the fault.
    pub fn build(input: Vec<String>) -> (r: Result<BMinusNode, BuildError>)
        ensures
            r is Ok <==> 1 <= input@.len() <= MAX_KEYS,
            r is Ok ==> built_from(r->Ok_0, views_of(input@)),
            input@.len() == 0 ==> r == Err::<BMinusNode, BuildError>(BuildError::EmptyInput),
            input@.len() > MAX_KEYS ==> r == Err::<BMinusNode, BuildError>(
                BuildError::TooManyKeys { len: input.len() },
            ),
    {
        let n = input.len();
        if n == 0 {
            Err(BuildError::EmptyInput)
        } else if n > MAX_KEYS {
            Err(BuildError::TooManyKeys { len: n })
        } else {
            Ok(BMinusNode::create(input))
        }
    }
}

} // verus!
