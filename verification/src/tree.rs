//! Ownership and handles: `HTMLTree` owns the parsed document through a
//! reference-counted pointer; `DOMNode` keeps a weak link plus a node index
//! and re-validates the link on every access.

use std::rc::Rc;
use vstd::prelude::*;

use crate::chars::bytes_to_string;
use crate::chars::chars_to_string;
use crate::chars::str_to_chars;
use crate::dom::DocTree;
use crate::dom::NodeData;
use crate::dom::NodeType;
use crate::dom::attr_value_of;
use crate::dom::back_chain_from;
use crate::dom::chain_from;
use crate::dom::child_indices;
use crate::dom::elems_of;
use crate::dom::find_elem_from;
use crate::dom::in_subtree;
use crate::dom::link_is;
use crate::dom::tree_wf;
use crate::dom::wf_at;
use crate::parse::parse_chars;
use crate::parse::parsed_first_node;
use crate::parse::plain_text;
use crate::ser::ser_chain;
use crate::ser::ser_node;
use crate::ser::text_of;

verus! {

/// The document a weak link designates.  A `TreeRef` always comes from
/// `TreeRef::downgrade`, and nothing in this crate mutates a document once
/// it is behind an `Rc`, so the designated contents are fixed.
pub uninterp spec fn tree_of(w: TreeRef) -> Seq<NodeData>;

/// A non-owning link back to a shared document tree.
#[verifier::external_body]
pub struct TreeRef {
    inner: std::rc::Weak<DocTree>,
}

impl TreeRef {
    /// Relies on `std::rc::Rc::downgrade`: the weak reference designates
    /// exactly the allocation that `rc` owns.
    #[verifier::external_body]
    pub fn downgrade(rc: &Rc<DocTree>) -> (r: TreeRef)
        ensures
            tree_of(r) == rc@,
    {
        TreeRef { inner: Rc::downgrade(rc) }
    }

    /// Relies on `std::rc::Weak::upgrade`: while the designated allocation
    /// is alive it returns that allocation, afterwards `None`.  Its contents
    /// equal what was seen at `downgrade` time, since no document behind an
    /// `Rc` is ever mutated by this crate.
    #[verifier::external_body]
    pub fn upgrade(&self) -> (r: Option<Rc<DocTree>>)
        ensures
            r matches Some(t) ==> t@ == tree_of(*self),
    {
        self.inner.upgrade()
    }

    /// Relies on `std::rc::Weak::clone`: the copy designates the same
    /// allocation.
    #[verifier::external_body]
    pub fn dup(&self) -> (r: TreeRef)
        ensures
            tree_of(r) == tree_of(*self),
    {
        TreeRef { inner: self.inner.clone() }
    }

    /// Relies on `std::rc::Weak::ptr_eq`: when two weak references share
    /// one allocation, they designate the same contents.
    #[verifier::external_body]
    pub fn same_target(&self, other: &TreeRef) -> (r: bool)
        ensures
            r ==> tree_of(*self) == tree_of(*other),
    {
        self.inner.ptr_eq(&other.inner)
    }
}

/// HTML DOM tree: the sole owner of one parsed document.
pub struct HTMLTree {
    pub tree_rc: Rc<DocTree>,
}

impl View for HTMLTree {
    type V = Seq<NodeData>;

    open spec fn view(&self) -> Seq<NodeData> {
        self.tree_rc@
    }
}

impl HTMLTree {
    /// The owned document is well-formed.
    pub open spec fn wf(self) -> bool {
        tree_wf(self@)
    }

    /// Parses markup into a DOM tree.  Parsing never fails; malformed
    /// markup is recovered from, as HTML demands.  Input without markup
    /// becomes a single text node holding the whole input, and the
    /// document's first node is pinned for every kind of lead token.
    pub fn parse(input: &str) -> (t: HTMLTree)
        ensures
            t.wf(),
            parsed_first_node(t@, input@),
            plain_text(input@) && input@.len() > 0 ==> t@.len() == 2 && t@[1].kind
                == NodeType::Text && t@[1].value@ == input@ && link_is(t@[0].first_child, 1),
    {
        let chars = str_to_chars(input);
        let doc = parse_chars(&chars);
        HTMLTree { tree_rc: Rc::new(doc) }
    }

    /// Decodes a raw HTML byte string (expected to be valid UTF-8) and
    /// parses it into a DOM tree.  For valid UTF-8 input the tree is the
    /// one [`Self::parse`] gives for the decoded characters.
    pub fn parse_bytes(input: &[u8]) -> (t: HTMLTree)
        ensures
            t.wf(),
            vstd::utf8::valid_utf8(input@) ==> ({
                let s = vstd::utf8::decode_utf8(input@);
                &&& (plain_text(s) && s.len() > 0 ==> t@.len() == 2 && t@[1].kind == NodeType::Text
                    && t@[1].value@ == s && link_is(t@[0].first_child, 1))
                &&& parsed_first_node(t@, s)
            }),
    {
        let s = bytes_to_string(input);
        Self::parse(s.as_str())
    }

    /// The document node.  Never absent: every parse yields a root.
    pub fn document(&self) -> (r: Option<DOMNode>)
        requires
            self.wf(),
        ensures
            r matches Some(h) && h.wf() && h.dom() == self@ && h.node == 0,
    {
        DOMNode::new(&self.tree_rc, 0)
    }

    /// The first `head` element of the document, in document order.
    pub fn head(&self) -> (r: Option<DOMNode>)
        requires
            self.wf(),
        ensures
            match r {
                Some(h) => h.wf() && h.dom() == self@ && link_is(
                    find_elem_from(self@, "head"@, 0),
                    h.node as int,
                ),
                None => find_elem_from(self@, "head"@, 0) is None,
            },
    {
        self.named_root_element("head")
    }

    /// The first `body` element of the document, in document order.
    pub fn body(&self) -> (r: Option<DOMNode>)
        requires
            self.wf(),
        ensures
            match r {
                Some(h) => h.wf() && h.dom() == self@ && link_is(
                    find_elem_from(self@, "body"@, 0),
                    h.node as int,
                ),
                None => find_elem_from(self@, "body"@, 0) is None,
            },
    {
        self.named_root_element("body")
    }

    /// The first element named `name`, in document order.
    fn named_root_element(&self, name: &str) -> (r: Option<DOMNode>)
        requires
            self.wf(),
        ensures
            match r {
                Some(h) => h.wf() && h.dom() == self@ && link_is(
                    find_elem_from(self@, name@, 0),
                    h.node as int,
                ),
                None => find_elem_from(self@, name@, 0) is None,
            },
    {
        let looked = str_to_chars(name);
        match (&*self.tree_rc).find_element(&looked) {
            Some(i) => DOMNode::new(&self.tree_rc, i),
            None => None,
        }
    }

    /// The text of the first `title` element; `None` when there is no
    /// `title` element or its text is empty.
    pub fn title(&self) -> (r: Option<String>)
        requires
            self.wf(),
        ensures
            match find_elem_from(self@, "title"@, 0) {
                Some(i) => {
                    if text_of(self@, i as int).len() == 0 {
                        r is None
                    } else {
                        r matches Some(s) && s@ == text_of(self@, i as int)
                    }
                },
                None => r is None,
            },
    {
        let looked = str_to_chars("title");
        match (&*self.tree_rc).find_element(&looked) {
            Some(i) => {
                let text = (&*self.tree_rc).text_content(i);
                if text.len() == 0 {
                    None
                } else {
                    Some(chars_to_string(&text))
                }
            },
            None => None,
        }
    }
}

/// DOM node: a weak link to the owning tree plus one node index.
pub struct DOMNode {
    pub tree: TreeRef,
    pub node: usize,
}

impl DOMNode {
    /// The document this handle belongs to, as seen at creation.
    pub open spec fn dom(self) -> Seq<NodeData> {
        tree_of(self.tree)
    }

    /// The handle designates a real node of a well-formed document.
    pub open spec fn wf(self) -> bool {
        &&& tree_wf(self.dom())
        &&& self.node < self.dom().len()
    }

    /// Whether `other` is a handle into the same document.
    pub open spec fn same_doc(self, other: DOMNode) -> bool {
        self.dom() == other.dom()
    }

    /// The record of the designated node.
    pub open spec fn data(self) -> NodeData {
        self.dom()[self.node as int]
    }

    /// Wraps one node of `tree`; `None` for an out-of-range index.
    pub fn new(tree: &Rc<DocTree>, node: usize) -> (r: Option<DOMNode>)
        requires
            tree_wf(tree@),
        ensures
            node < tree@.len() ==> (r matches Some(h) && h.wf() && h.dom() == tree@ && h.node
                == node),
            node >= tree@.len() ==> r is None,
    {
        if node < tree.nodes.len() {
            Some(DOMNode { tree: TreeRef::downgrade(tree), node })
        } else {
            None
        }
    }

    /// Handle equality: whether the two handles resolve to the same tree
    /// and the same node locator.  Decided by allocation identity, so it
    /// also works on handles whose tree is already released.
    pub fn same_node(&self, other: &DOMNode) -> (r: bool)
        ensures
            r ==> self.same_doc(*other) && self.node == other.node,
    {
        self.tree.same_target(&other.tree) && self.node == other.node
    }

    /// A second handle to the same node of the same document.
    pub fn dup(&self) -> (r: DOMNode)
        ensures
            r.dom() == self.dom(),
            r.node == self.node,
    {
        DOMNode { tree: self.tree.dup(), node: self.node }
    }

    /// DOM node type.  On a released tree the answer degrades to
    /// `Undefined` instead of failing.
    pub fn node_type(&self) -> (r: NodeType)
        ensures
            r == NodeType::Undefined || (self.node < self.dom().len() && r == self.data().kind),
    {
        match self.tree.upgrade() {
            Some(rc) => {
                if self.node < rc.nodes.len() {
                    rc.nodes[self.node].kind
                } else {
                    NodeType::Undefined
                }
            },
            None => NodeType::Undefined,
        }
    }

    /// DOM element tag or node name; `None` on a released tree or when the
    /// name is empty.
    pub fn tag(&self) -> (r: Option<String>)
        ensures
            r matches Some(s) ==> self.node < self.dom().len() && s@ == self.data().name@ && s@.len()
                > 0,
    {
        let rc = self.tree.upgrade()?;
        if self.node >= rc.nodes.len() {
            return None;
        }
        if rc.nodes[self.node].name.len() == 0 {
            return None;
        }
        Some(chars_to_string(&rc.nodes[self.node].name))
    }

    /// DOM node name: same as [`Self::tag`].
    pub fn node_name(&self) -> (r: Option<String>)
        ensures
            r matches Some(s) ==> self.node < self.dom().len() && s@ == self.data().name@ && s@.len()
                > 0,
    {
        self.tag()
    }

    /// DOM node name: same as [`Self::tag`].
    pub fn name(&self) -> (r: Option<String>)
        ensures
            r matches Some(s) ==> self.node < self.dom().len() && s@ == self.data().name@ && s@.len()
                > 0,
    {
        self.tag()
    }

    /// Node character data; `None` on a released tree or when the data is
    /// empty.
    pub fn value(&self) -> (r: Option<String>)
        ensures
            r matches Some(s) ==> self.node < self.dom().len() && s@ == self.data().value@
                && s@.len() > 0,
    {
        let rc = self.tree.upgrade()?;
        if self.node >= rc.nodes.len() {
            return None;
        }
        if rc.nodes[self.node].value.len() == 0 {
            return None;
        }
        Some(chars_to_string(&rc.nodes[self.node].value))
    }

    /// DOM node value: same as [`Self::value`].
    pub fn node_value(&self) -> (r: Option<String>)
        ensures
            r matches Some(s) ==> self.node < self.dom().len() && s@ == self.data().value@
                && s@.len() > 0,
    {
        self.value()
    }

    /// The value of the attribute named `name`; `None` on a released tree,
    /// a non-element node or a missing attribute.
    pub fn attribute(&self, name: &str) -> (r: Option<String>)
        requires
            self.wf(),
        ensures
            r matches Some(s) ==> attr_value_of(self.dom(), self.node as int, name@) == Some(s@),
    {
        let rc = self.tree.upgrade()?;
        let looked = str_to_chars(name);
        match (&*rc).attr_value(self.node, &looked) {
            Some(v) => Some(chars_to_string(&v)),
            None => None,
        }
    }

    /// First child of this DOM node.
    pub fn first_child(&self) -> (r: Option<DOMNode>)
        requires
            self.wf(),
        ensures
            r matches Some(h) ==> h.wf() && h.same_doc(*self) && link_is(
                self.data().first_child,
                h.node as int,
            ),
    {
        let rc = self.tree.upgrade()?;
        proof {
            assert(wf_at(self.dom(), self.node as int));
        }
        match rc.nodes[self.node].first_child {
            Some(c) => Some(DOMNode { tree: self.tree.dup(), node: c }),
            None => None,
        }
    }

    /// Last child of this DOM node.
    pub fn last_child(&self) -> (r: Option<DOMNode>)
        requires
            self.wf(),
        ensures
            r matches Some(h) ==> h.wf() && h.same_doc(*self) && link_is(
                self.data().last_child,
                h.node as int,
            ),
    {
        let rc = self.tree.upgrade()?;
        proof {
            assert(wf_at(self.dom(), self.node as int));
        }
        match rc.nodes[self.node].last_child {
            Some(c) => Some(DOMNode { tree: self.tree.dup(), node: c }),
            None => None,
        }
    }

    /// Parent of this node.
    pub fn parent(&self) -> (r: Option<DOMNode>)
        requires
            self.wf(),
        ensures
            r matches Some(h) ==> h.wf() && h.same_doc(*self) && link_is(
                self.data().parent,
                h.node as int,
            ),
    {
        let rc = self.tree.upgrade()?;
        proof {
            assert(wf_at(self.dom(), self.node as int));
        }
        match rc.nodes[self.node].parent {
            Some(c) => Some(DOMNode { tree: self.tree.dup(), node: c }),
            None => None,
        }
    }

    /// Parent of this node: same as [`Self::parent`].
    pub fn parent_node(&self) -> (r: Option<DOMNode>)
        requires
            self.wf(),
        ensures
            r matches Some(h) ==> h.wf() && h.same_doc(*self) && link_is(
                self.data().parent,
                h.node as int,
            ),
    {
        self.parent()
    }

    /// Parent of this node, if it is an element.
    pub fn parent_element(&self) -> (r: Option<DOMNode>)
        requires
            self.wf(),
        ensures
            r matches Some(h) ==> h.wf() && h.same_doc(*self) && link_is(
                self.data().parent,
                h.node as int,
            ) && h.data().kind == NodeType::Element,
    {
        let rc = self.tree.upgrade()?;
        proof {
            assert(wf_at(self.dom(), self.node as int));
        }
        match rc.nodes[self.node].parent {
            Some(c) => {
                if matches!(rc.nodes[c].kind, NodeType::Element) {
                    Some(DOMNode { tree: self.tree.dup(), node: c })
                } else {
                    None
                }
            },
            None => None,
        }
    }

    /// The owning document node.
    pub fn owner_document(&self) -> (r: Option<DOMNode>)
        requires
            self.wf(),
        ensures
            r matches Some(h) ==> h.wf() && h.same_doc(*self) && h.node == 0,
    {
        let rc = self.tree.upgrade()?;
        proof {
            assert(self.dom().len() >= 1);
        }
        Some(DOMNode { tree: self.tree.dup(), node: 0 })
    }

    /// Next sibling node.
    pub fn next_sibling(&self) -> (r: Option<DOMNode>)
        requires
            self.wf(),
        ensures
            r matches Some(h) ==> h.wf() && h.same_doc(*self) && link_is(
                self.data().next,
                h.node as int,
            ),
    {
        let rc = self.tree.upgrade()?;
        proof {
            assert(wf_at(self.dom(), self.node as int));
        }
        match rc.nodes[self.node].next {
            Some(c) => Some(DOMNode { tree: self.tree.dup(), node: c }),
            None => None,
        }
    }

    /// Previous sibling node.
    pub fn prev_sibling(&self) -> (r: Option<DOMNode>)
        requires
            self.wf(),
        ensures
            r matches Some(h) ==> h.wf() && h.same_doc(*self) && link_is(
                self.data().prev,
                h.node as int,
            ),
    {
        let rc = self.tree.upgrade()?;
        proof {
            assert(wf_at(self.dom(), self.node as int));
        }
        match rc.nodes[self.node].prev {
            Some(c) => Some(DOMNode { tree: self.tree.dup(), node: c }),
            None => None,
        }
    }

    /// Previous sibling node: same as [`Self::prev_sibling`].
    pub fn previous_sibling(&self) -> (r: Option<DOMNode>)
        requires
            self.wf(),
        ensures
            r matches Some(h) ==> h.wf() && h.same_doc(*self) && link_is(
                self.data().prev,
                h.node as int,
            ),
    {
        self.prev_sibling()
    }

    /// Previous sibling node: same as [`Self::prev_sibling`].
    pub fn prev(&self) -> (r: Option<DOMNode>)
        requires
            self.wf(),
        ensures
            r matches Some(h) ==> h.wf() && h.same_doc(*self) && link_is(
                self.data().prev,
                h.node as int,
            ),
    {
        self.prev_sibling()
    }

    /// Next sibling node: same as [`Self::next_sibling`].
    pub fn next(&self) -> (r: Option<DOMNode>)
        requires
            self.wf(),
        ensures
            r matches Some(h) ==> h.wf() && h.same_doc(*self) && link_is(
                self.data().next,
                h.node as int,
            ),
    {
        self.next_sibling()
    }

    /// Whether this node has children; `false` on a released tree.
    pub fn has_child_nodes(&self) -> (r: bool)
        requires
            self.wf(),
        ensures
            r ==> self.data().first_child is Some,
    {
        match self.tree.upgrade() {
            Some(rc) => rc.nodes[self.node].first_child.is_some(),
            None => false,
        }
    }

    /// First element child of this DOM node: the first child that is an
    /// element, skipping exactly the non-element children before it.
    pub fn first_element_child(&self) -> (r: Option<DOMNode>)
        requires
            self.wf(),
        ensures
            r matches Some(h) ==> ({
                let elems = elems_of(self.dom(), child_indices(self.dom(), self.node as int));
                h.wf() && h.same_doc(*self) && elems.len() > 0 && h.node == elems[0]
            }),
    {
        let rc = self.tree.upgrade()?;
        proof {
            assert(wf_at(self.dom(), self.node as int));
        }
        let chain = (&*rc).chain_vec(rc.nodes[self.node].first_child);
        let elems = (&*rc).filter_elements(&chain);
        if elems.len() > 0 {
            Some(DOMNode { tree: self.tree.dup(), node: elems[0] })
        } else {
            None
        }
    }

    /// Last element child of this DOM node.
    pub fn last_element_child(&self) -> (r: Option<DOMNode>)
        requires
            self.wf(),
        ensures
            r matches Some(h) ==> ({
                let elems = elems_of(self.dom(), child_indices(self.dom(), self.node as int));
                h.wf() && h.same_doc(*self) && elems.len() > 0 && h.node == elems[elems.len() - 1]
            }),
    {
        let rc = self.tree.upgrade()?;
        proof {
            assert(wf_at(self.dom(), self.node as int));
        }
        let chain = (&*rc).chain_vec(rc.nodes[self.node].first_child);
        let elems = (&*rc).filter_elements(&chain);
        if elems.len() > 0 {
            Some(DOMNode { tree: self.tree.dup(), node: elems[elems.len() - 1] })
        } else {
            None
        }
    }

    /// Next sibling element node, skipping non-element siblings.
    pub fn next_element_sibling(&self) -> (r: Option<DOMNode>)
        requires
            self.wf(),
        ensures
            r matches Some(h) ==> ({
                let elems = elems_of(self.dom(), chain_from(self.dom(), self.data().next));
                h.wf() && h.same_doc(*self) && elems.len() > 0 && h.node == elems[0]
            }),
    {
        let rc = self.tree.upgrade()?;
        proof {
            assert(wf_at(self.dom(), self.node as int));
        }
        let chain = (&*rc).chain_vec(rc.nodes[self.node].next);
        let elems = (&*rc).filter_elements(&chain);
        if elems.len() > 0 {
            Some(DOMNode { tree: self.tree.dup(), node: elems[0] })
        } else {
            None
        }
    }

    /// Previous sibling element node, skipping non-element siblings.
    pub fn prev_element_sibling(&self) -> (r: Option<DOMNode>)
        requires
            self.wf(),
        ensures
            r matches Some(h) ==> ({
                let elems = elems_of(self.dom(), back_chain_from(self.dom(), self.data().prev));
                h.wf() && h.same_doc(*self) && elems.len() > 0 && h.node == elems[0]
            }),
    {
        let rc = self.tree.upgrade()?;
        proof {
            assert(wf_at(self.dom(), self.node as int));
        }
        let chain = (&*rc).back_chain_vec(rc.nodes[self.node].prev);
        let elems = (&*rc).filter_elements(&chain);
        if elems.len() > 0 {
            Some(DOMNode { tree: self.tree.dup(), node: elems[0] })
        } else {
            None
        }
    }

    /// List of child nodes, in document order; empty on a released tree.
    pub fn child_nodes(&self) -> (r: Vec<DOMNode>)
        requires
            self.wf(),
        ensures
            ({
                let ch = child_indices(self.dom(), self.node as int);
                ||| r@.len() == 0
                ||| (r@.len() == ch.len() && forall|k: int|
                    0 <= k < r@.len() ==> (#[trigger] r@[k]).wf() && r@[k].same_doc(*self)
                        && r@[k].node == ch[k])
            }),
    {
        match self.tree.upgrade() {
            Some(rc) => {
                proof {
                    assert(wf_at(self.dom(), self.node as int));
                }
                let chain = (&*rc).chain_vec(rc.nodes[self.node].first_child);
                self.wrap_all(chain)
            },
            None => Vec::new(),
        }
    }

    /// List of child element nodes, in document order; empty on a released
    /// tree.
    pub fn child_element_nodes(&self) -> (r: Vec<DOMNode>)
        requires
            self.wf(),
        ensures
            ({
                let elems = elems_of(self.dom(), child_indices(self.dom(), self.node as int));
                ||| r@.len() == 0
                ||| (r@.len() == elems.len() && forall|k: int|
                    0 <= k < r@.len() ==> (#[trigger] r@[k]).wf() && r@[k].same_doc(*self)
                        && r@[k].node == elems[k])
            }),
    {
        match self.tree.upgrade() {
            Some(rc) => {
                proof {
                    assert(wf_at(self.dom(), self.node as int));
                }
                let chain = (&*rc).chain_vec(rc.nodes[self.node].first_child);
                let elems = (&*rc).filter_elements(&chain);
                self.wrap_all(elems)
            },
            None => Vec::new(),
        }
    }

    /// Wraps each index of `v` into a handle to this handle's document.
    fn wrap_all(&self, v: Vec<usize>) -> (r: Vec<DOMNode>)
        requires
            self.wf(),
            forall|k: int| 0 <= k < v@.len() ==> #[trigger] v@[k] < self.dom().len(),
        ensures
            r@.len() == v@.len(),
            forall|k: int|
                0 <= k < r@.len() ==> (#[trigger] r@[k]).wf() && r@[k].same_doc(*self) && r@[k].node
                    == v@[k],
    {
        let n = v.len();
        let mut r: Vec<DOMNode> = Vec::new();
        let mut i: usize = 0;
        while i < n
            invariant
                n == v@.len(),
                i <= n,
                self.wf(),
                forall|k: int| 0 <= k < v@.len() ==> #[trigger] v@[k] < self.dom().len(),
                r@.len() == i,
                forall|k: int|
                    0 <= k < i ==> (#[trigger] r@[k]).wf() && r@[k].same_doc(*self) && r@[k].node
                        == v@[k],
            decreases n - i,
        {
            r.push(DOMNode { tree: self.tree.dup(), node: v[i] });
            i = i + 1;
        }
        r
    }

    /// Whether `other` designates a node inside this handle's subtree, on
    /// the same live tree.
    pub fn contains(&self, other: &DOMNode) -> (r: bool)
        requires
            self.wf(),
            other.wf(),
        ensures
            r ==> self.same_doc(*other) && in_subtree(
                self.dom(),
                other.node as int,
                self.node as int,
            ),
    {
        let rc = match self.tree.upgrade() {
            Some(rc) => rc,
            None => {
                return false;
            },
        };
        let rc2 = match other.tree.upgrade() {
            Some(rc2) => rc2,
            None => {
                return false;
            },
        };
        if !rc_same(&rc, &rc2) {
            return false;
        }
        (&*rc).is_in_subtree(other.node, self.node)
    }

    /// Text contents of this DOM node and its children.
    pub fn outer_text(&self) -> (r: Option<String>)
        requires
            self.wf(),
        ensures
            r matches Some(s) ==> s@ == text_of(self.dom(), self.node as int),
    {
        let rc = self.tree.upgrade()?;
        let text = (&*rc).text_content(self.node);
        Some(chars_to_string(&text))
    }

    /// Text contents of this DOM node and its children.
    pub fn inner_text(&self) -> (r: Option<String>)
        requires
            self.wf(),
        ensures
            r matches Some(s) ==> s@ == text_of(self.dom(), self.node as int),
    {
        self.outer_text()
    }

    /// Text contents of this DOM node and its children.
    pub fn text_content(&self) -> (r: Option<String>)
        requires
            self.wf(),
        ensures
            r matches Some(s) ==> s@ == text_of(self.dom(), self.node as int),
    {
        self.outer_text()
    }

    /// Text contents of this DOM node and its children: same as
    /// [`Self::text_content`].
    pub fn text(&self) -> (r: Option<String>)
        requires
            self.wf(),
        ensures
            r matches Some(s) ==> s@ == text_of(self.dom(), self.node as int),
    {
        self.outer_text()
    }

    /// Outer HTML of this DOM node and its children.
    pub fn outer_html(&self) -> (r: Option<String>)
        requires
            self.wf(),
        ensures
            r matches Some(s) ==> s@ == ser_node(self.dom(), self.node as int),
    {
        let rc = self.tree.upgrade()?;
        let markup = (&*rc).serialize_subtree(self.node);
        Some(chars_to_string(&markup))
    }

    /// Inner HTML of this DOM node's children: each child serialized in
    /// turn.  A childless node yields `None`, not an empty string.
    pub fn inner_html(&self) -> (r: Option<String>)
        requires
            self.wf(),
        ensures
            r matches Some(s) ==> self.data().first_child is Some && s@ == ser_chain(
                self.dom(),
                self.data().first_child,
            ),
    {
        let rc = self.tree.upgrade()?;
        proof {
            assert(wf_at(self.dom(), self.node as int));
        }
        match rc.nodes[self.node].first_child {
            Some(_) => {
                let markup = (&*rc).serialize_chain(rc.nodes[self.node].first_child);
                Some(chars_to_string(&markup))
            },
            None => None,
        }
    }
}

/// Sibling navigation is symmetric: when the document designates `b` as
/// the next sibling of `a`, it designates `a` as the previous sibling of
/// `b`, and the other way round.
pub proof fn lemma_sibling_navigation_symmetric(a: DOMNode, b: DOMNode)
    requires
        a.wf(),
        b.wf(),
        a.same_doc(b),
    ensures
        link_is(a.data().next, b.node as int) ==> link_is(b.data().prev, a.node as int),
        link_is(b.data().prev, a.node as int) ==> link_is(a.data().next, b.node as int),
{
    crate::dom::lemma_sibling_symmetry(a.dom(), a.node as int, b.node as int);
}

/// Relies on `std::rc::Rc::ptr_eq`: when two counted pointers share one
/// allocation, they see the same value.
#[verifier::external_body]
fn rc_same(a: &Rc<DocTree>, b: &Rc<DocTree>) -> (r: bool)
    ensures
        r ==> a@ == b@,
{
    Rc::ptr_eq(a, b)
}

} // verus!
