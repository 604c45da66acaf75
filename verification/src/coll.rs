//! Collection views: ordered snapshots of node handles produced by
//! traversal and lookup operations.  A view holds a weak tree link plus the
//! indices it was built from; later tree releases only make its element
//! accessors return absence, never change what it holds.

use vstd::prelude::*;

use crate::chars::chars_eq;
use crate::chars::chars_eq_fold;
use crate::chars::chars_to_string;
use crate::chars::copy_range;
use crate::chars::lower_spec;
use crate::chars::lower_vec;
use crate::chars::str_to_chars;
use crate::dom::Attr;
use crate::dom::DocTree;
use crate::dom::NodeData;
use crate::dom::NodeType;
use crate::dom::attr_from;
use crate::dom::attr_value_of;
use crate::dom::child_indices;
use crate::dom::is_elem_at;
use crate::dom::subtree_elements;
use crate::dom::tree_wf;
use crate::dom::wf_at;
use crate::tokens::tokens_of;
use crate::tree::DOMNode;
use crate::tree::TreeRef;
use crate::tree::tree_of;

verus! {

/// A possibly negative position, normalized against `len`: negative
/// positions count from the end.
pub open spec fn normalized_pos(i: int, len: int) -> Option<int> {
    let j = if i < 0 {
        i + len
    } else {
        i
    };
    if 0 <= j < len {
        Some(j)
    } else {
        None
    }
}

/// Normalizes a possibly negative position against `len`.
pub fn normalize_index(i: i64, len: usize) -> (r: Option<usize>)
    ensures
        r matches Some(k) ==> k < len && (i >= 0 ==> k == i) && (i < 0 ==> k == len + i),
        r is None ==> i >= len || len + i < 0,
        (match normalized_pos(i as int, len as int) {
            Some(j) => r matches Some(k) && k == j,
            None => r is None,
        }),
{
    if i >= 0 {
        let u = i as u64;
        if u < len as u64 {
            Some(u as usize)
        } else {
            None
        }
    } else {
        let m1 = (-(i + 1)) as u64;
        if m1 < len as u64 {
            let k = len - ((m1 + 1) as usize);
            Some(k)
        } else {
            None
        }
    }
}

/// A position clamped into `[0, len]` after normalizing a negative value
/// against `len`.
pub open spec fn clamped_pos(i: int, len: int) -> int {
    let j = if i < 0 {
        i + len
    } else {
        i
    };
    if j < 0 {
        0
    } else if j > len {
        len
    } else {
        j
    }
}

/// The positions selected by a half-open range with a positive step:
/// `from`, `from + step`, ... below `stop`.
pub open spec fn stepped_positions(from: int, stop: int, step: int) -> Seq<usize>
    decreases stop - from,
    when step >= 1 && from >= 0
{
    if from >= stop {
        Seq::empty()
    } else if from + step >= stop {
        seq![from as usize]
    } else {
        seq![from as usize] + stepped_positions(from + step, stop, step)
    }
}

/// The magnitude of a slice step.
pub open spec fn step_mag(step: int) -> int {
    if step >= 0 {
        step
    } else {
        -step
    }
}

/// Clamps `i` into `[0, len]`, counting negative values from the end.
fn clamp_index(i: i64, len: usize) -> (r: usize)
    ensures
        r == clamped_pos(i as int, len as int),
{
    if i >= 0 {
        let u = i as u64;
        if u > len as u64 {
            len
        } else {
            u as usize
        }
    } else {
        let m1 = (-(i + 1)) as u64;
        if m1 < len as u64 {
            len - ((m1 + 1) as usize)
        } else {
            0
        }
    }
}

/// The positions a slice of `start..stop` with `step` selects, normalized
/// and clamped against `len`; `None` for the invalid step `0`.
pub fn slice_indices(len: usize, start: i64, stop: i64, step: i64) -> (r: Option<Vec<usize>>)
    ensures
        (r is None <==> step == 0),
        r matches Some(v) ==> ({
            let ns = clamped_pos(start as int, len as int);
            let nstop = clamped_pos(stop as int, len as int);
            &&& v@ == stepped_positions(ns, nstop, step_mag(step as int))
            &&& forall|q: int| 0 <= q < v@.len() ==> #[trigger] v@[q] < len
        }),
{
    if step == 0 {
        return None;
    }
    let mag64: u64 = if step > 0 {
        step as u64
    } else {
        (-(step + 1)) as u64 + 1
    };
    let ns = clamp_index(start, len);
    let nstop = clamp_index(stop, len);
    let ghost mag = step_mag(step as int);
    proof {
        assert(mag64 == mag);
        assert(nstop <= len);
    }
    let mut v: Vec<usize> = Vec::new();
    let mut from = ns;
    proof {
        assert(v@ + stepped_positions(from as int, nstop as int, mag) =~= stepped_positions(
            ns as int,
            nstop as int,
            mag,
        ));
    }
    while from < nstop
        invariant
            step != 0,
            ns == clamped_pos(start as int, len as int),
            nstop == clamped_pos(stop as int, len as int),
            mag == step_mag(step as int),
            mag >= 1,
            mag64 == mag,
            nstop <= len,
            stepped_positions(ns as int, nstop as int, mag) == v@ + stepped_positions(
                from as int,
                nstop as int,
                mag,
            ),
            forall|q: int| 0 <= q < v@.len() ==> #[trigger] v@[q] < len,
        decreases nstop - from,
    {
        v.push(from);
        if mag64 >= (nstop - from) as u64 {
            proof {
                assert(stepped_positions(from as int, nstop as int, mag) =~= seq![from]);
                assert(stepped_positions(ns as int, nstop as int, mag) =~= v@);
            }
            return Some(v);
        }
        let next = from + (mag64 as usize);
        proof {
            assert(stepped_positions(from as int, nstop as int, mag) =~= seq![from]
                + stepped_positions(next as int, nstop as int, mag));
            assert(v@ + stepped_positions(next as int, nstop as int, mag) =~= stepped_positions(
                ns as int,
                nstop as int,
                mag,
            ));
        }
        from = next;
    }
    proof {
        assert(stepped_positions(from as int, nstop as int, mag) =~= Seq::<usize>::empty());
        assert(stepped_positions(ns as int, nstop as int, mag) =~= v@);
    }
    Some(v)
}

/// Which kind of element lookup a selection performs.
#[derive(Clone, Copy, PartialEq, Eq, Structural, Debug)]
pub enum SelKind {
    /// The attribute `name` has the value `value`; with `fold`, compared
    /// after ASCII case folding.
    Attr,
    /// The `class` attribute contains the token `name`.
    Class,
    /// The node's tag is `name` (already lowercased).
    Tag,
}

/// Whether element `j` of `t` meets the selection.
pub open spec fn sel_matches(
    t: Seq<NodeData>,
    j: usize,
    kind: SelKind,
    name: Seq<char>,
    value: Seq<char>,
    fold: bool,
) -> bool {
    match kind {
        SelKind::Attr => match attr_value_of(t, j as int, name) {
            Some(v) => if fold {
                lower_spec(v) == lower_spec(value)
            } else {
                v == value
            },
            None => false,
        },
        SelKind::Class => match attr_value_of(t, j as int, "class"@) {
            Some(v) => tokens_of(v).contains(name),
            None => false,
        },
        SelKind::Tag => t[j as int].name@ == name,
    }
}

/// The first index of `items` (from position `k` on) meeting the
/// selection, if any.
pub open spec fn find_sel_from(
    t: Seq<NodeData>,
    items: Seq<usize>,
    kind: SelKind,
    name: Seq<char>,
    value: Seq<char>,
    fold: bool,
    k: int,
) -> Option<usize>
    decreases items.len() - k,
{
    if k < 0 || k >= items.len() {
        None
    } else if sel_matches(t, items[k], kind, name, value, fold) {
        Some(items[k])
    } else {
        find_sel_from(t, items, kind, name, value, fold, k + 1)
    }
}

/// The indices of `items` (from position `k` on) meeting the selection,
/// in order.
pub open spec fn filter_sel_from(
    t: Seq<NodeData>,
    items: Seq<usize>,
    kind: SelKind,
    name: Seq<char>,
    value: Seq<char>,
    fold: bool,
    k: int,
) -> Seq<usize>
    decreases items.len() - k,
{
    if k < 0 || k >= items.len() {
        Seq::empty()
    } else if sel_matches(t, items[k], kind, name, value, fold) {
        seq![items[k]] + filter_sel_from(t, items, kind, name, value, fold, k + 1)
    } else {
        filter_sel_from(t, items, kind, name, value, fold, k + 1)
    }
}

/// Whether one element meets the selection, decided on the live tree.
fn sel_check(t: &DocTree, j: usize, kind: SelKind, name: &Vec<char>, value: &Vec<char>, fold: bool) -> (r:
    bool)
    requires
        tree_wf(t@),
        j < t@.len(),
    ensures
        r == sel_matches(t@, j, kind, name@, value@, fold),
{
    match kind {
        SelKind::Attr => {
            match t.attr_value(j, name) {
                Some(v) => {
                    if fold {
                        chars_eq_fold(&v, value)
                    } else {
                        chars_eq(&v, value)
                    }
                },
                None => false,
            }
        },
        SelKind::Class => {
            let class_attr = str_to_chars("class");
            match t.attr_value(j, &class_attr) {
                Some(v) => crate::tokens::chars_has_token(&v, name),
                None => false,
            }
        },
        SelKind::Tag => chars_eq(&t.nodes[j].name, name),
    }
}

/// The first index of `items` meeting the selection, on the live tree.
fn find_sel(t: &DocTree, items: &Vec<usize>, kind: SelKind, name: &Vec<char>, value: &Vec<char>, fold: bool) -> (r:
    Option<usize>)
    requires
        tree_wf(t@),
        forall|k: int| 0 <= k < items@.len() ==> #[trigger] items@[k] < t@.len(),
    ensures
        r == find_sel_from(t@, items@, kind, name@, value@, fold, 0),
        (r matches Some(j) ==> j < t@.len()),
{
    let n = items.len();
    let mut k: usize = 0;
    while k < n
        invariant
            tree_wf(t@),
            n == items@.len(),
            k <= n,
            forall|q: int| 0 <= q < items@.len() ==> #[trigger] items@[q] < t@.len(),
            find_sel_from(t@, items@, kind, name@, value@, fold, 0) == find_sel_from(
                t@,
                items@,
                kind,
                name@,
                value@,
                fold,
                k as int,
            ),
        decreases n - k,
    {
        if sel_check(t, items[k], kind, name, value, fold) {
            return Some(items[k]);
        }
        k = k + 1;
    }
    None
}

/// The indices of `items` meeting the selection, on the live tree.
fn filter_sel(t: &DocTree, items: &Vec<usize>, kind: SelKind, name: &Vec<char>, value: &Vec<char>, fold: bool) -> (r:
    Vec<usize>)
    requires
        tree_wf(t@),
        forall|k: int| 0 <= k < items@.len() ==> #[trigger] items@[k] < t@.len(),
    ensures
        r@ == filter_sel_from(t@, items@, kind, name@, value@, fold, 0),
        forall|k: int| 0 <= k < r@.len() ==> #[trigger] r@[k] < t@.len(),
{
    let n = items.len();
    let mut r: Vec<usize> = Vec::new();
    let mut k: usize = 0;
    proof {
        assert(r@ + filter_sel_from(t@, items@, kind, name@, value@, fold, 0) =~= filter_sel_from(
            t@,
            items@,
            kind,
            name@,
            value@,
            fold,
            0,
        ));
    }
    while k < n
        invariant
            tree_wf(t@),
            n == items@.len(),
            k <= n,
            forall|q: int| 0 <= q < items@.len() ==> #[trigger] items@[q] < t@.len(),
            forall|q: int| 0 <= q < r@.len() ==> #[trigger] r@[q] < t@.len(),
            r@ + filter_sel_from(t@, items@, kind, name@, value@, fold, k as int)
                == filter_sel_from(t@, items@, kind, name@, value@, fold, 0),
        decreases n - k,
    {
        if sel_check(t, items[k], kind, name, value, fold) {
            r.push(items[k]);
        }
        k = k + 1;
        proof {
            assert(r@ + filter_sel_from(t@, items@, kind, name@, value@, fold, k as int)
                =~= filter_sel_from(t@, items@, kind, name@, value@, fold, 0));
        }
    }
    proof {
        assert(r@ =~= filter_sel_from(t@, items@, kind, name@, value@, fold, 0));
    }
    r
}

/// An ordered snapshot of nodes, held as indices plus a weak tree link.
pub struct NodeList {
    pub tree: TreeRef,
    pub items: Vec<usize>,
}

impl NodeList {
    /// The document this view was built over.
    pub open spec fn dom(self) -> Seq<NodeData> {
        tree_of(self.tree)
    }

    /// Every held index designates a real node of a well-formed document.
    pub open spec fn wf(self) -> bool {
        &&& tree_wf(self.dom())
        &&& forall|k: int| 0 <= k < self.items@.len() ==> #[trigger] self.items@[k] < self.dom().len()
    }

    /// A snapshot of the child nodes of `node`, in document order; empty
    /// when the tree is already released.
    pub fn of_children(node: &DOMNode) -> (r: NodeList)
        requires
            node.wf(),
        ensures
            r.wf(),
            r.dom() == node.dom(),
            r.items@ == child_indices(node.dom(), node.node as int) || r.items@.len() == 0,
    {
        match node.tree.upgrade() {
            Some(rc) => {
                proof {
                    assert(wf_at(node.dom(), node.node as int));
                }
                let items = (&*rc).chain_vec(rc.nodes[node.node].first_child);
                NodeList { tree: node.tree.dup(), items }
            },
            None => NodeList { tree: node.tree.dup(), items: Vec::new() },
        }
    }

    /// The number of held nodes.  A snapshot: later tree changes or
    /// releases never alter it.
    pub fn len(&self) -> (r: usize)
        ensures
            r == self.items@.len(),
    {
        self.items.len()
    }

    /// The node at `index`; absent when out of range.  Which node this is
    /// depends only on the snapshot, never on the current tree.
    pub fn item(&self, index: usize) -> (r: Option<DOMNode>)
        requires
            self.wf(),
        ensures
            index < self.items@.len() ==> (r matches Some(h) && h.wf() && h.dom() == self.dom()
                && h.node == self.items@[index as int]),
            index >= self.items@.len() ==> r is None,
    {
        if index < self.items.len() {
            Some(DOMNode { tree: self.tree.dup(), node: self.items[index] })
        } else {
            None
        }
    }

    /// The membership test: whether the list holds the node `h`
    /// designates, in the same document.
    pub fn contains_node(&self, h: &DOMNode) -> (r: bool)
        ensures
            r ==> tree_of(self.tree) == h.dom() && self.items@.contains(h.node),
    {
        if !self.tree.same_target(&h.tree) {
            return false;
        }
        let n = self.items.len();
        let mut i: usize = 0;
        while i < n
            invariant
                n == self.items@.len(),
                i <= n,
                tree_of(self.tree) == h.dom(),
            decreases n - i,
        {
            if self.items[i] == h.node {
                assert(self.items@[i as int] == h.node);
                return true;
            }
            i = i + 1;
        }
        false
    }

    /// The node at a possibly negative position, normalized against the
    /// current length; absent when the position is out of range.
    pub fn get_item(&self, index: i64) -> (r: Option<DOMNode>)
        requires
            self.wf(),
        ensures
            match normalized_pos(index as int, self.items@.len() as int) {
                Some(j) => r matches Some(h) && h.wf() && h.dom() == self.dom() && h.node
                    == self.items@[j],
                None => r is None,
            },
    {
        match normalize_index(index, self.items.len()) {
            Some(k) => self.item(k),
            None => None,
        }
    }

    /// A new view of the nodes a half-open range with a step selects,
    /// positions normalized and clamped against the current length;
    /// `None` for the invalid step `0`.
    pub fn get_slice(&self, start: i64, stop: i64, step: i64) -> (r: Option<NodeList>)
        requires
            self.wf(),
        ensures
            (r is None <==> step == 0),
            r matches Some(list) ==> ({
                let ps = stepped_positions(
                    clamped_pos(start as int, self.items@.len() as int),
                    clamped_pos(stop as int, self.items@.len() as int),
                    step_mag(step as int),
                );
                &&& list.wf()
                &&& list.dom() == self.dom()
                &&& list.items@.len() == ps.len()
                &&& forall|q: int|
                    0 <= q < ps.len() ==> #[trigger] list.items@[q] == self.items@[ps[q] as int]
            }),
    {
        let ps = match slice_indices(self.items.len(), start, stop, step) {
            Some(ps) => ps,
            None => {
                return None;
            },
        };
        let n = ps.len();
        let mut items: Vec<usize> = Vec::new();
        let mut q: usize = 0;
        while q < n
            invariant
                self.wf(),
                n == ps@.len(),
                q <= n,
                forall|w: int| 0 <= w < ps@.len() ==> #[trigger] ps@[w] < self.items@.len(),
                items@.len() == q,
                forall|w: int| 0 <= w < q ==> #[trigger] items@[w] == self.items@[ps@[w] as int],
            decreases n - q,
        {
            items.push(self.items[ps[q]]);
            q = q + 1;
        }
        Some(NodeList { tree: self.tree.dup(), items })
    }

    /// Handles to all held nodes, in order.
    pub fn values(&self) -> (r: Vec<DOMNode>)
        requires
            self.wf(),
        ensures
            r@.len() == self.items@.len(),
            forall|k: int|
                0 <= k < r@.len() ==> (#[trigger] r@[k]).wf() && r@[k].dom() == self.dom()
                    && r@[k].node == self.items@[k],
    {
        let n = self.items.len();
        let mut r: Vec<DOMNode> = Vec::new();
        let mut i: usize = 0;
        while i < n
            invariant
                self.wf(),
                n == self.items@.len(),
                i <= n,
                r@.len() == i,
                forall|k: int|
                    0 <= k < i ==> (#[trigger] r@[k]).wf() && r@[k].dom() == self.dom()
                        && r@[k].node == self.items@[k],
            decreases n - i,
        {
            r.push(DOMNode { tree: self.tree.dup(), node: self.items[i] });
            i = i + 1;
        }
        r
    }
}

/// An ordered snapshot of element nodes, supporting id, attribute, class
/// and tag lookups.
pub struct ElementNodeList {
    pub tree: TreeRef,
    pub items: Vec<usize>,
}

impl ElementNodeList {
    /// The document this view was built over.
    pub open spec fn dom(self) -> Seq<NodeData> {
        tree_of(self.tree)
    }

    /// Every held index designates an element of a well-formed document.
    pub open spec fn wf(self) -> bool {
        &&& tree_wf(self.dom())
        &&& forall|k: int| 0 <= k < self.items@.len() ==> #[trigger] self.items@[k] < self.dom().len()
        &&& forall|k: int| 0 <= k < self.items@.len() ==> is_elem_at(self.dom(), #[trigger] self.items@[k])
    }

    /// A snapshot of every element in the subtree of `node` (the node
    /// itself included when it is an element), in document order; empty
    /// when the tree is already released.
    pub fn of_subtree(node: &DOMNode) -> (r: ElementNodeList)
        requires
            node.wf(),
        ensures
            r.wf(),
            r.dom() == node.dom(),
            r.items@ == subtree_elements(node.dom(), node.node as int) || r.items@.len() == 0,
    {
        match node.tree.upgrade() {
            Some(rc) => {
                let items = (&*rc).subtree_element_vec(node.node);
                proof {
                    broadcast use vstd::seq_lib::group_filter_ensures;

                }
                ElementNodeList { tree: node.tree.dup(), items }
            },
            None => ElementNodeList { tree: node.tree.dup(), items: Vec::new() },
        }
    }

    /// A snapshot of the element children of `node`, in document order;
    /// empty when the tree is already released.
    pub fn of_child_elements(node: &DOMNode) -> (r: ElementNodeList)
        requires
            node.wf(),
        ensures
            r.wf(),
            r.dom() == node.dom(),
            r.items@ == crate::dom::elems_of(
                node.dom(),
                child_indices(node.dom(), node.node as int),
            ) || r.items@.len() == 0,
    {
        match node.tree.upgrade() {
            Some(rc) => {
                proof {
                    assert(wf_at(node.dom(), node.node as int));
                }
                let chain = (&*rc).chain_vec(rc.nodes[node.node].first_child);
                let items = (&*rc).filter_elements(&chain);
                proof {
                    broadcast use vstd::seq_lib::group_filter_ensures;

                }
                ElementNodeList { tree: node.tree.dup(), items }
            },
            None => ElementNodeList { tree: node.tree.dup(), items: Vec::new() },
        }
    }

    /// The number of held elements.
    pub fn len(&self) -> (r: usize)
        ensures
            r == self.items@.len(),
    {
        self.items.len()
    }

    /// The element at `index`; absent when out of range.
    pub fn item(&self, index: usize) -> (r: Option<DOMNode>)
        requires
            self.wf(),
        ensures
            index < self.items@.len() ==> (r matches Some(h) && h.wf() && h.dom() == self.dom()
                && h.node == self.items@[index as int]),
            index >= self.items@.len() ==> r is None,
    {
        if index < self.items.len() {
            Some(DOMNode { tree: self.tree.dup(), node: self.items[index] })
        } else {
            None
        }
    }

    /// The element at a possibly negative position, normalized against
    /// the current length; absent when the position is out of range.
    pub fn get_item(&self, index: i64) -> (r: Option<DOMNode>)
        requires
            self.wf(),
        ensures
            match normalized_pos(index as int, self.items@.len() as int) {
                Some(j) => r matches Some(h) && h.wf() && h.dom() == self.dom() && h.node
                    == self.items@[j],
                None => r is None,
            },
    {
        match normalize_index(index, self.items.len()) {
            Some(k) => self.item(k),
            None => None,
        }
    }

    /// The first held element whose `id` attribute is `element_id`;
    /// absent when none matches or the tree is released.
    pub fn get_element_by_id(&self, element_id: &str, case_insensitive: bool) -> (r: Option<
        DOMNode,
    >)
        requires
            self.wf(),
        ensures
            r matches Some(h) ==> h.wf() && h.dom() == self.dom() && find_sel_from(
                self.dom(),
                self.items@,
                SelKind::Attr,
                "id"@,
                element_id@,
                case_insensitive,
                0,
            ) == Some(h.node),
    {
        let rc = self.tree.upgrade()?;
        let name = str_to_chars("id");
        let value = str_to_chars(element_id);
        match find_sel(&rc, &self.items, SelKind::Attr, &name, &value, case_insensitive) {
            Some(j) => Some(DOMNode { tree: self.tree.dup(), node: j }),
            None => None,
        }
    }

    /// A new view of the held elements whose attribute `attr_name` has the
    /// value `attr_value`; empty when the tree is released.
    pub fn get_elements_by_attr(
        &self,
        attr_name: &str,
        attr_value: &str,
        case_insensitive: bool,
    ) -> (r: ElementNodeList)
        requires
            self.wf(),
        ensures
            r.wf(),
            r.dom() == self.dom(),
            r.items@ == filter_sel_from(
                self.dom(),
                self.items@,
                SelKind::Attr,
                attr_name@,
                attr_value@,
                case_insensitive,
                0,
            ) || r.items@.len() == 0,
    {
        let name = str_to_chars(attr_name);
        let value = str_to_chars(attr_value);
        self.filter_view(SelKind::Attr, &name, &value, case_insensitive)
    }

    /// A new view of the held elements whose `class` attribute contains
    /// the token `class_name`; empty when the tree is released.
    pub fn get_elements_by_class_name(&self, class_name: &str) -> (r: ElementNodeList)
        requires
            self.wf(),
        ensures
            r.wf(),
            r.dom() == self.dom(),
            r.items@ == filter_sel_from(
                self.dom(),
                self.items@,
                SelKind::Class,
                class_name@,
                Seq::empty(),
                false,
                0,
            ) || r.items@.len() == 0,
    {
        let name = str_to_chars(class_name);
        let value: Vec<char> = Vec::new();
        self.filter_view(SelKind::Class, &name, &value, false)
    }

    /// A new view of the held elements whose tag is `tag_name`, compared
    /// after ASCII case folding; empty when the tree is released.
    pub fn get_elements_by_tag_name(&self, tag_name: &str) -> (r: ElementNodeList)
        requires
            self.wf(),
        ensures
            r.wf(),
            r.dom() == self.dom(),
            r.items@ == filter_sel_from(
                self.dom(),
                self.items@,
                SelKind::Tag,
                lower_spec(tag_name@),
                Seq::empty(),
                false,
                0,
            ) || r.items@.len() == 0,
    {
        let arg = str_to_chars(tag_name);
        let name = lower_vec(&arg);
        let value: Vec<char> = Vec::new();
        self.filter_view(SelKind::Tag, &name, &value, false)
    }

    /// A new view of the held elements meeting the selection.
    fn filter_view(&self, kind: SelKind, name: &Vec<char>, value: &Vec<char>, fold: bool) -> (r:
        ElementNodeList)
        requires
            self.wf(),
        ensures
            r.wf(),
            r.dom() == self.dom(),
            r.items@ == filter_sel_from(self.dom(), self.items@, kind, name@, value@, fold, 0)
                || r.items@.len() == 0,
    {
        match self.tree.upgrade() {
            Some(rc) => {
                let items = filter_sel(&rc, &self.items, kind, name, value, fold);
                proof {
                    lemma_filter_sel_elems(self.dom(), self.items@, kind, name@, value@, fold, 0);
                }
                ElementNodeList { tree: self.tree.dup(), items }
            },
            None => ElementNodeList { tree: self.tree.dup(), items: Vec::new() },
        }
    }
}

/// What a selection filter returns is drawn from the given indices.
proof fn lemma_filter_sel_elems(
    t: Seq<NodeData>,
    items: Seq<usize>,
    kind: SelKind,
    name: Seq<char>,
    value: Seq<char>,
    fold: bool,
    k: int,
)
    requires
        0 <= k <= items.len(),
    ensures
        forall|q: int|
            0 <= q < filter_sel_from(t, items, kind, name, value, fold, k).len() ==> items.contains(
                #[trigger] filter_sel_from(t, items, kind, name, value, fold, k)[q],
            ),
    decreases items.len() - k,
{
    if k < items.len() {
        lemma_filter_sel_elems(t, items, kind, name, value, fold, k + 1);
        let rest = filter_sel_from(t, items, kind, name, value, fold, k + 1);
        let whole = filter_sel_from(t, items, kind, name, value, fold, k);
        assert forall|q: int| 0 <= q < whole.len() implies items.contains(whole[q]) by {
            if sel_matches(t, items[k], kind, name, value, fold) {
                if q == 0 {
                    assert(items[k] == whole[0]);
                } else {
                    assert(whole[q] == rest[q - 1]);
                    assert(rest.contains(whole[q]));
                }
            } else {
                assert(whole[q] == rest[q]);
                assert(rest.contains(whole[q]));
            }
        }
    }
}

/// A read-only snapshot of one element's attributes, behaving as a node
/// list specialized to attribute name/value pairs.
pub struct NamedNodeMap {
    pub items: Vec<Attr>,
}

impl NamedNodeMap {
    /// A snapshot of the attributes of `node`, in document order; empty
    /// when the tree is already released.
    pub fn of_attributes(node: &DOMNode) -> (r: NamedNodeMap)
        requires
            node.wf(),
        ensures
            ({
                let attrs = node.data().attrs@;
                ||| r.items@.len() == 0
                ||| (r.items@.len() == attrs.len() && forall|k: int|
                    0 <= k < attrs.len() ==> (#[trigger] r.items@[k]).name@ == attrs[k].name@
                        && r.items@[k].value@ == attrs[k].value@)
            }),
    {
        match node.tree.upgrade() {
            Some(rc) => {
                let src = &rc.nodes[node.node].attrs;
                let n = src.len();
                let mut items: Vec<Attr> = Vec::new();
                let mut i: usize = 0;
                while i < n
                    invariant
                        node.wf(),
                        src@ == node.data().attrs@,
                        n == src@.len(),
                        i <= n,
                        items@.len() == i,
                        forall|k: int|
                            0 <= k < i ==> (#[trigger] items@[k]).name@ == src@[k].name@
                                && items@[k].value@ == src@[k].value@,
                    decreases n - i,
                {
                    let name = copy_range(&src[i].name, 0, src[i].name.len());
                    let value = copy_range(&src[i].value, 0, src[i].value.len());
                    items.push(Attr { name, value });
                    i = i + 1;
                }
                NamedNodeMap { items }
            },
            None => NamedNodeMap { items: Vec::new() },
        }
    }

    /// The number of held attributes.
    pub fn len(&self) -> (r: usize)
        ensures
            r == self.items@.len(),
    {
        self.items.len()
    }

    /// The name of the attribute at `index`; absent when out of range.
    pub fn item(&self, index: usize) -> (r: Option<String>)
        ensures
            index < self.items@.len() ==> (r matches Some(s) && s@ == self.items@[
                index as int
            ].name@),
            index >= self.items@.len() ==> r is None,
    {
        if index < self.items.len() {
            Some(chars_to_string(&self.items[index].name))
        } else {
            None
        }
    }

    /// The name of the attribute at a possibly negative position,
    /// normalized against the current length; absent when out of range.
    pub fn get_item(&self, index: i64) -> (r: Option<String>)
        ensures
            match normalized_pos(index as int, self.items@.len() as int) {
                Some(j) => r matches Some(s) && s@ == self.items@[j].name@,
                None => r is None,
            },
    {
        match normalize_index(index, self.items.len()) {
            Some(k) => self.item(k),
            None => None,
        }
    }

    /// The value of the first held attribute named `name`, if any.
    pub fn get_named_item(&self, name: &str) -> (r: Option<String>)
        ensures
            match r {
                Some(s) => attr_from(self.items@, name@, 0) == Some(s@),
                None => attr_from(self.items@, name@, 0) is None,
            },
    {
        let looked = str_to_chars(name);
        let n = self.items.len();
        let mut k: usize = 0;
        while k < n
            invariant
                looked@ == name@,
                n == self.items@.len(),
                k <= n,
                attr_from(self.items@, name@, 0) == attr_from(self.items@, name@, k as int),
            decreases n - k,
        {
            if chars_eq(&self.items[k].name, &looked) {
                proof {
                    assert(attr_from(self.items@, name@, k as int) == Some(
                        self.items@[k as int].value@,
                    ));
                }
                return Some(chars_to_string(&self.items[k].value));
            }
            proof {
                assert(attr_from(self.items@, name@, k as int) == attr_from(
                    self.items@,
                    name@,
                    k + 1,
                ));
            }
            k = k + 1;
        }
        None
    }
}

} // verus!
