//! The document tree model: node records, the well-formedness invariant,
//! and the single growth operation that every construction path uses.
//!
//! Nodes live in one arena (`DocTree::nodes`) and refer to each other by
//! index.  Links always point from lower to higher indices along `first_child`
//! and `next`, and from higher to lower along `parent` and `prev`; nodes are
//! appended in document order, so index order is document order.

use vstd::prelude::*;

verus! {

/// Classification of a node, mirroring the closed DOM node-kind set.
#[derive(Clone, Copy, PartialEq, Eq, Structural, Debug)]
pub enum NodeType {
    Element,
    Attribute,
    Text,
    CDataSection,
    EntityReference,
    Entity,
    ProcessingInstruction,
    Comment,
    Document,
    DocumentType,
    DocumentFragment,
    Notation,
    LastEntry,
    Undefined,
}

/// One attribute of an element: a name and a value, both as character data.
pub struct Attr {
    pub name: Vec<char>,
    pub value: Vec<char>,
}

/// One node of the document tree.  Link fields hold arena indices.
pub struct NodeData {
    pub kind: NodeType,
    /// Node name: the lowercased tag for elements, `#text`, `#comment` or
    /// `#document` for the corresponding kinds, the doctype name otherwise.
    pub name: Vec<char>,
    /// Character data of text and comment nodes; empty for the rest.
    pub value: Vec<char>,
    pub attrs: Vec<Attr>,
    pub parent: Option<usize>,
    pub first_child: Option<usize>,
    pub last_child: Option<usize>,
    pub prev: Option<usize>,
    pub next: Option<usize>,
}

/// The arena that owns every node of one parsed document.
/// Index 0 is always the document node.
pub struct DocTree {
    pub nodes: Vec<NodeData>,
}

impl View for DocTree {
    type V = Seq<NodeData>;

    open spec fn view(&self) -> Seq<NodeData> {
        self.nodes@
    }
}

/// Whether the optional link `o` points at index `v`.
pub open spec fn link_is(o: Option<usize>, v: int) -> bool {
    match o {
        Some(x) => x == v,
        None => false,
    }
}

/// Link conditions of the node at index `i`.
pub open spec fn wf_at(t: Seq<NodeData>, i: int) -> bool {
    &&& match t[i].parent {
        Some(p) => p < i,
        None => true,
    }
    &&& match t[i].first_child {
        Some(c) => i < c < t.len() && link_is(t[c as int].parent, i) && t[c as int].prev is None,
        None => true,
    }
    &&& match t[i].last_child {
        Some(c) => i < c < t.len() && link_is(t[c as int].parent, i) && t[c as int].next is None,
        None => true,
    }
    &&& (t[i].first_child is Some <==> t[i].last_child is Some)
    &&& match t[i].next {
        Some(j) => i < j < t.len() && link_is(t[j as int].prev, i) && t[j as int].parent == t[i].parent,
        None => true,
    }
    &&& match t[i].prev {
        Some(j) => j < i && link_is(t[j as int].next, i),
        None => true,
    }
}

/// The whole-tree invariant: a document node at index 0, and consistent,
/// index-ordered links everywhere.
pub open spec fn tree_wf(t: Seq<NodeData>) -> bool {
    &&& t.len() >= 1
    &&& t[0].kind == NodeType::Document
    &&& t[0].parent is None
    &&& t[0].prev is None
    &&& t[0].next is None
    &&& forall|i: int| 0 <= i < t.len() ==> #[trigger] wf_at(t, i)
}

/// Two node records that agree on everything except the `next` link.
pub open spec fn eq_but_next(a: NodeData, b: NodeData) -> bool {
    &&& a.kind == b.kind
    &&& a.name == b.name
    &&& a.value == b.value
    &&& a.attrs == b.attrs
    &&& a.parent == b.parent
    &&& a.first_child == b.first_child
    &&& a.last_child == b.last_child
    &&& a.prev == b.prev
}

impl DocTree {
    /// A fresh document: one root node of kind `Document` and nothing else.
    pub fn new_document(name: Vec<char>) -> (t: DocTree)
        ensures
            tree_wf(t@),
            t@.len() == 1,
            t@[0].kind == NodeType::Document,
            t@[0].name == name,
            t@[0].value@.len() == 0,
            t@[0].attrs@.len() == 0,
            t@[0].first_child is None,
            t@[0].last_child is None,
    {
        let root = NodeData {
            kind: NodeType::Document,
            name,
            value: Vec::new(),
            attrs: Vec::new(),
            parent: None,
            first_child: None,
            last_child: None,
            prev: None,
            next: None,
        };
        let mut nodes: Vec<NodeData> = Vec::new();
        nodes.push(root);
        let t = DocTree { nodes };
        proof {
            assert(forall|i: int| 0 <= i < t@.len() ==> #[trigger] wf_at(t@, i));
        }
        t
    }

    /// Appends a fresh node as the last child of `p` and returns its index.
    /// Every other node keeps its record, except that the former last child
    /// of `p` (if any) gains the new node as its `next` sibling.
    pub fn append_child_node(
        &mut self,
        p: usize,
        kind: NodeType,
        name: Vec<char>,
        value: Vec<char>,
        attrs: Vec<Attr>,
    ) -> (c: usize)
        requires
            tree_wf(old(self)@),
            p < old(self)@.len(),
        ensures
            ({
                let t0 = old(self)@;
                let t1 = final(self)@;
                let ci = t0.len() as int;
                &&& c == t0.len()
                &&& t1.len() == t0.len() + 1
                &&& tree_wf(t1)
                &&& t1[ci].kind == kind
                &&& t1[ci].name == name
                &&& t1[ci].value == value
                &&& t1[ci].attrs == attrs
                &&& link_is(t1[ci].parent, p as int)
                &&& t1[ci].first_child is None
                &&& t1[ci].last_child is None
                &&& t1[ci].next is None
                &&& t1[ci].prev == t0[p as int].last_child
                &&& link_is(t1[p as int].last_child, ci)
                &&& (t0[p as int].last_child is None ==> link_is(t1[p as int].first_child, ci))
                &&& (t0[p as int].last_child is Some ==> t1[p as int].first_child == t0[
                    p as int
                ].first_child)
                &&& t1[p as int].kind == t0[p as int].kind
                &&& t1[p as int].name == t0[p as int].name
                &&& t1[p as int].value == t0[p as int].value
                &&& t1[p as int].attrs == t0[p as int].attrs
                &&& t1[p as int].parent == t0[p as int].parent
                &&& t1[p as int].prev == t0[p as int].prev
                &&& t1[p as int].next == t0[p as int].next
                &&& match t0[p as int].last_child {
                    Some(s) => eq_but_next(t1[s as int], t0[s as int]) && link_is(
                        t1[s as int].next,
                        ci,
                    ),
                    None => true,
                }
                &&& forall|j: int|
                    0 <= j < t0.len() && j != p && !link_is(t0[p as int].last_child, j)
                        ==> t1[j] == t0[j]
            }),
    {
        let c = self.nodes.len();
        let ol = self.nodes[p].last_child;
        proof {
            assert(wf_at(old(self)@, p as int));
        }
        self.nodes.push(
            NodeData {
                kind,
                name,
                value,
                attrs,
                parent: Some(p),
                first_child: None,
                last_child: None,
                prev: ol,
                next: None,
            },
        );
        self.nodes[p].last_child = Some(c);
        if let Some(s) = ol {
            self.nodes[s].next = Some(c);
        } else {
            self.nodes[p].first_child = Some(c);
        }
        proof {
            let t0 = old(self)@;
            let t1 = self@;
            let ci = t0.len() as int;
            assert forall|i: int| 0 <= i < t1.len() implies #[trigger] wf_at(t1, i) by {
                assert(wf_at(t0, p as int));
                if let Some(s) = t0[p as int].last_child {
                    assert(wf_at(t0, s as int));
                }
                if i < ci {
                    assert(wf_at(t0, i));
                }
            }
            assert(tree_wf(t1));
        }
        c
    }
}

/// The sibling chain starting at `o`: the indices reached by following
/// `next` links.
pub open spec fn chain_from(t: Seq<NodeData>, o: Option<usize>) -> Seq<usize>
    decreases (match o {
        Some(i) => t.len() - i,
        None => 0,
    })
    when (match o {
        Some(i) => i < t.len() && tree_wf(t),
        None => true,
    })
    via chain_from_dec
{
    match o {
        None => Seq::empty(),
        Some(i) => seq![i] + chain_from(t, t[i as int].next),
    }
}

#[via_fn]
proof fn chain_from_dec(t: Seq<NodeData>, o: Option<usize>) {
    if let Some(i) = o {
        if i < t.len() && tree_wf(t) {
            assert(wf_at(t, i as int));
        }
    }
}

/// The child chain of node `i`: its children in document order.
pub open spec fn child_indices(t: Seq<NodeData>, i: int) -> Seq<usize> {
    chain_from(t, t[i].first_child)
}

/// The reversed sibling chain starting at `o`: the indices reached by
/// following `prev` links.
pub open spec fn back_chain_from(t: Seq<NodeData>, o: Option<usize>) -> Seq<usize>
    decreases (match o {
        Some(i) => i + 1,
        None => 0,
    })
    when (match o {
        Some(i) => i < t.len() && tree_wf(t),
        None => true,
    })
    via back_chain_from_dec
{
    match o {
        None => Seq::empty(),
        Some(i) => seq![i] + back_chain_from(t, t[i as int].prev),
    }
}

#[via_fn]
proof fn back_chain_from_dec(t: Seq<NodeData>, o: Option<usize>) {
    if let Some(i) = o {
        if i < t.len() && tree_wf(t) {
            assert(wf_at(t, i as int));
        }
    }
}

/// Whether node `j` of `t` is an element.
pub open spec fn is_elem_at(t: Seq<NodeData>, j: usize) -> bool {
    t[j as int].kind == NodeType::Element
}

/// The indices of the element nodes of `c`, in order.
pub open spec fn elems_of(t: Seq<NodeData>, c: Seq<usize>) -> Seq<usize> {
    c.filter(|j: usize| is_elem_at(t, j))
}

/// The indices `0` to `n-1`, in order.
pub open spec fn index_seq(n: int) -> Seq<usize> {
    Seq::new(
        if n < 0 {
            0
        } else {
            n as nat
        },
        |k: int| k as usize,
    )
}

/// The element nodes of the subtree rooted at `root` among the first `n`
/// indices, in document order.
pub open spec fn subtree_elems_upto(t: Seq<NodeData>, root: int, n: int) -> Seq<usize> {
    index_seq(n).filter(|j: usize| in_subtree(t, j as int, root) && is_elem_at(t, j))
}

/// The element nodes of the subtree rooted at `root`, in document order.
pub open spec fn subtree_elements(t: Seq<NodeData>, root: int) -> Seq<usize> {
    subtree_elems_upto(t, root, t.len() as int)
}

/// The index of the first element node named `name` at position `from` or
/// later, scanning in document order.
pub open spec fn find_elem_from(t: Seq<NodeData>, name: Seq<char>, from: int) -> Option<usize>
    decreases t.len() - from,
{
    if from < 0 || from >= t.len() {
        None
    } else if t[from].kind == NodeType::Element && t[from].name@ == name {
        Some(from as usize)
    } else {
        find_elem_from(t, name, from + 1)
    }
}

/// Whether node `i` lies in the subtree rooted at `root` (the root itself
/// included), following parent links.
pub open spec fn in_subtree(t: Seq<NodeData>, i: int, root: int) -> bool
    decreases i,
    when 0 <= i < t.len() && tree_wf(t)
    via in_subtree_dec
{
    if i == root {
        true
    } else {
        match t[i].parent {
            Some(p) => in_subtree(t, p as int, root),
            None => false,
        }
    }
}

#[via_fn]
proof fn in_subtree_dec(t: Seq<NodeData>, i: int, root: int) {
    if 0 <= i < t.len() && tree_wf(t) {
        assert(wf_at(t, i));
    }
}

/// The value of the first attribute named `name` at position `i` or later;
/// `None` when there is none.
pub open spec fn attr_from(attrs: Seq<Attr>, name: Seq<char>, i: int) -> Option<Seq<char>>
    decreases attrs.len() - i,
{
    if i < 0 || i >= attrs.len() {
        None
    } else if attrs[i].name@ == name {
        Some(attrs[i].value@)
    } else {
        attr_from(attrs, name, i + 1)
    }
}

/// The value of the attribute named `name` of node `i`, if present.
pub open spec fn attr_value_of(t: Seq<NodeData>, i: int, name: Seq<char>) -> Option<Seq<char>> {
    attr_from(t[i].attrs@, name, 0)
}

impl DocTree {
    /// Whether node `i` lies in the subtree rooted at `root`.
    pub fn is_in_subtree(&self, i: usize, root: usize) -> (r: bool)
        requires
            tree_wf(self@),
            i < self@.len(),
            root < self@.len(),
        ensures
            r == in_subtree(self@, i as int, root as int),
    {
        let mut cur: usize = i;
        loop
            invariant
                tree_wf(self@),
                cur < self@.len(),
                root < self@.len(),
                in_subtree(self@, i as int, root as int) == in_subtree(
                    self@,
                    cur as int,
                    root as int,
                ),
            decreases cur,
        {
            if cur == root {
                return true;
            }
            proof {
                assert(wf_at(self@, cur as int));
            }
            match self.nodes[cur].parent {
                Some(p) => {
                    cur = p;
                },
                None => {
                    return false;
                },
            }
        }
    }

    /// The value of the attribute named `name` of node `i`, if present.
    pub fn attr_value(&self, i: usize, name: &Vec<char>) -> (r: Option<Vec<char>>)
        requires
            tree_wf(self@),
            i < self@.len(),
        ensures
            match r {
                Some(v) => attr_value_of(self@, i as int, name@) == Some(v@),
                None => attr_value_of(self@, i as int, name@) is None,
            },
    {
        let attrs = &self.nodes[i].attrs;
        let n = attrs.len();
        let mut k: usize = 0;
        while k < n
            invariant
                attrs@ == self@[i as int].attrs@,
                n == attrs@.len(),
                k <= n,
                attr_from(attrs@, name@, 0) == attr_from(attrs@, name@, k as int),
            decreases n - k,
        {
            if crate::chars::chars_eq(&attrs[k].name, name) {
                let mut out: Vec<char> = Vec::new();
                let m = attrs[k].value.len();
                let mut j: usize = 0;
                while j < m
                    invariant
                        attrs@ == self@[i as int].attrs@,
                        k < n == attrs@.len(),
                        attrs@[k as int].name@ == name@,
                        attr_from(attrs@, name@, 0) == attr_from(attrs@, name@, k as int),
                        m == attrs@[k as int].value@.len(),
                        j <= m,
                        out@ == attrs@[k as int].value@.subrange(0, j as int),
                    decreases m - j,
                {
                    out.push(attrs[k].value[j]);
                    j = j + 1;
                    assert(out@ =~= attrs@[k as int].value@.subrange(0, j as int));
                }
                assert(out@ =~= attrs@[k as int].value@);
                assert(attr_from(attrs@, name@, k as int) == Some(attrs@[k as int].value@));
                assert(attr_value_of(self@, i as int, name@) == Some(out@));
                return Some(out);
            }
            k = k + 1;
        }
        None
    }

    /// Collects the sibling chain starting at `o` into a vector of indices.
    pub fn chain_vec(&self, o: Option<usize>) -> (r: Vec<usize>)
        requires
            tree_wf(self@),
            (o matches Some(j) ==> j < self@.len()),
        ensures
            r@ == chain_from(self@, o),
            forall|k: int| 0 <= k < r@.len() ==> #[trigger] r@[k] < self@.len(),
    {
        let mut r: Vec<usize> = Vec::new();
        let mut cur = o;
        while cur.is_some()
            invariant
                tree_wf(self@),
                (cur matches Some(j) ==> j < self@.len()),
                chain_from(self@, o) == r@ + chain_from(self@, cur),
                forall|k: int| 0 <= k < r@.len() ==> #[trigger] r@[k] < self@.len(),
            decreases (match cur {
                Some(j) => self@.len() - j,
                None => 0,
            }),
        {
            let j = cur.unwrap();
            proof {
                assert(wf_at(self@, j as int));
            }
            r.push(j);
            cur = self.nodes[j].next;
            proof {
                assert(chain_from(self@, o) =~= r@ + chain_from(self@, cur));
            }
        }
        proof {
            assert(r@ =~= chain_from(self@, o));
        }
        r
    }

    /// Collects the reversed sibling chain starting at `o`: the indices
    /// reached by following `prev` links.
    pub fn back_chain_vec(&self, o: Option<usize>) -> (r: Vec<usize>)
        requires
            tree_wf(self@),
            (o matches Some(j) ==> j < self@.len()),
        ensures
            r@ == back_chain_from(self@, o),
            forall|k: int| 0 <= k < r@.len() ==> #[trigger] r@[k] < self@.len(),
    {
        let mut r: Vec<usize> = Vec::new();
        let mut cur = o;
        proof {
            assert(back_chain_from(self@, o) =~= Seq::<usize>::empty() + back_chain_from(self@, o));
        }
        while cur.is_some()
            invariant
                tree_wf(self@),
                (o matches Some(j) ==> j < self@.len()),
                (cur matches Some(j) ==> j < self@.len()),
                back_chain_from(self@, o) == r@ + back_chain_from(self@, cur),
                forall|k: int| 0 <= k < r@.len() ==> #[trigger] r@[k] < self@.len(),
            decreases (match cur {
                Some(j) => j + 1,
                None => 0,
            }),
        {
            let j = cur.unwrap();
            proof {
                assert(wf_at(self@, j as int));
            }
            r.push(j);
            cur = self.nodes[j].prev;
            proof {
                assert(back_chain_from(self@, o) =~= r@ + back_chain_from(self@, cur));
            }
        }
        proof {
            assert(r@ =~= back_chain_from(self@, o));
        }
        r
    }

    /// Keeps the indices of `v` that designate element nodes.
    pub fn filter_elements(&self, v: &Vec<usize>) -> (r: Vec<usize>)
        requires
            tree_wf(self@),
            forall|k: int| 0 <= k < v@.len() ==> #[trigger] v@[k] < self@.len(),
        ensures
            r@ == elems_of(self@, v@),
            forall|k: int| 0 <= k < r@.len() ==> #[trigger] r@[k] < self@.len(),
    {
        let n = v.len();
        let mut r: Vec<usize> = Vec::new();
        let mut i: usize = 0;
        while i < n
            invariant
                tree_wf(self@),
                n == v@.len(),
                i <= n,
                forall|k: int| 0 <= k < v@.len() ==> #[trigger] v@[k] < self@.len(),
                r@ == elems_of(self@, v@.subrange(0, i as int)),
                forall|k: int| 0 <= k < r@.len() ==> #[trigger] r@[k] < self@.len(),
            decreases n - i,
        {
            let j = v[i];
            proof {
                reveal(Seq::filter);
                assert(v@.subrange(0, i + 1).drop_last() =~= v@.subrange(0, i as int));
            }
            if matches!(self.nodes[j].kind, NodeType::Element) {
                r.push(j);
            }
            i = i + 1;
            proof {
                assert(v@.subrange(0, i as int).last() == j);
                assert(r@ =~= elems_of(self@, v@.subrange(0, i as int)));
            }
        }
        proof {
            assert(v@.subrange(0, n as int) =~= v@);
        }
        r
    }

    /// Finds the first element named `name`, scanning in document order.
    pub fn find_element(&self, name: &Vec<char>) -> (r: Option<usize>)
        requires
            tree_wf(self@),
        ensures
            r == find_elem_from(self@, name@, 0),
            (r matches Some(j) ==> j < self@.len()),
    {
        let n = self.nodes.len();
        let mut i: usize = 0;
        while i < n
            invariant
                n == self@.len(),
                i <= n,
                find_elem_from(self@, name@, 0) == find_elem_from(self@, name@, i as int),
            decreases n - i,
        {
            if matches!(self.nodes[i].kind, NodeType::Element) && crate::chars::chars_eq(
                &self.nodes[i].name,
                name,
            ) {
                return Some(i);
            }
            i = i + 1;
        }
        None
    }

    /// Collects the element nodes of the subtree rooted at `root`, in
    /// document order.
    pub fn subtree_element_vec(&self, root: usize) -> (r: Vec<usize>)
        requires
            tree_wf(self@),
            root < self@.len(),
        ensures
            r@ == subtree_elements(self@, root as int),
            forall|k: int| 0 <= k < r@.len() ==> #[trigger] r@[k] < self@.len(),
    {
        let n = self.nodes.len();
        let mut r: Vec<usize> = Vec::new();
        let mut i: usize = 0;
        proof {
            assert(index_seq(0) =~= Seq::<usize>::empty());
            assert(r@ =~= subtree_elems_upto(self@, root as int, 0));
        }
        while i < n
            invariant
                tree_wf(self@),
                root < n == self@.len(),
                i <= n,
                r@ == subtree_elems_upto(self@, root as int, i as int),
                forall|k: int| 0 <= k < r@.len() ==> #[trigger] r@[k] < self@.len(),
            decreases n - i,
        {
            proof {
                reveal(Seq::filter);
                assert(index_seq(i + 1).drop_last() =~= index_seq(i as int));
                assert(index_seq(i + 1).last() == i);
            }
            if self.is_in_subtree(i, root) && matches!(self.nodes[i].kind, NodeType::Element) {
                r.push(i);
            }
            i = i + 1;
            proof {
                assert(r@ =~= subtree_elems_upto(self@, root as int, i as int));
            }
        }
        r
    }
}

/// Element-filtered selection skips exactly the non-element nodes: the
/// first selected element stands in the chain, is an element, and every
/// chain entry before it is not one.
pub proof fn lemma_first_element_skips(t: Seq<NodeData>, c: Seq<usize>)
    requires
        elems_of(t, c).len() > 0,
    ensures
        exists|k: int|
            0 <= k < c.len() && c[k] == elems_of(t, c)[0] && is_elem_at(t, #[trigger] c[k]) && (
            forall|q: int| 0 <= q < k ==> !is_elem_at(t, #[trigger] c[q])),
    decreases c.len(),
{
    broadcast use vstd::seq_lib::group_filter_ensures;

    reveal(Seq::filter);
    let head = c.drop_last();
    if elems_of(t, head).len() > 0 {
        lemma_first_element_skips(t, head);
        let k = choose|k: int|
            0 <= k < head.len() && head[k] == elems_of(t, head)[0] && is_elem_at(t, head[k]) && (
            forall|q: int| 0 <= q < k ==> !is_elem_at(t, #[trigger] head[q]));
        assert(elems_of(t, c)[0] == elems_of(t, head)[0]);
        assert(c[k] == head[k]);
        assert forall|q: int| 0 <= q < k implies !is_elem_at(t, #[trigger] c[q]) by {
            assert(c[q] == head[q]);
        }
    } else {
        assert(is_elem_at(t, c.last()));
        assert(elems_of(t, c) =~= elems_of(t, head).push(c.last()));
        let k = c.len() - 1;
        assert(c[k] == elems_of(t, c)[0]);
        assert forall|q: int| 0 <= q < k implies !is_elem_at(t, #[trigger] c[q]) by {
            if is_elem_at(t, c[q]) {
                assert(head[q] == c[q]);
                assert(elems_of(t, head).contains(head[q]));
            }
        }
    }
}

/// Adjacent siblings point at each other: if `a.next` is `b`, then `b.prev`
/// is `a`, and the other way round.
pub proof fn lemma_sibling_symmetry(t: Seq<NodeData>, a: int, b: int)
    requires
        tree_wf(t),
        0 <= a < t.len(),
        0 <= b < t.len(),
    ensures
        link_is(t[a].next, b) ==> link_is(t[b].prev, a),
        link_is(t[b].prev, a) ==> link_is(t[a].next, b),
{
    assert(wf_at(t, a));
    assert(wf_at(t, b));
}

} // verus!
