//! Subtree serialization and text extraction, specified as recursive
//! functions over the tree model and implemented by verified mirrors.

use vstd::prelude::*;

use crate::chars::chars_eq_str;
use crate::dom::Attr;
use crate::dom::DocTree;
use crate::dom::NodeData;
use crate::dom::NodeType;
use crate::dom::tree_wf;
use crate::dom::wf_at;

verus! {

/// Whether `name` is an HTML void element: one that never has children and
/// is serialized without a close tag.
pub open spec fn is_void_spec(name: Seq<char>) -> bool {
    ||| name == "area"@
    ||| name == "base"@
    ||| name == "br"@
    ||| name == "col"@
    ||| name == "embed"@
    ||| name == "hr"@
    ||| name == "img"@
    ||| name == "input"@
    ||| name == "link"@
    ||| name == "meta"@
    ||| name == "param"@
    ||| name == "source"@
    ||| name == "track"@
    ||| name == "wbr"@
}

/// Whether `name` names an HTML void element.
pub fn is_void_name(name: &Vec<char>) -> (r: bool)
    ensures
        r == is_void_spec(name@),
{
    chars_eq_str(name, "area") || chars_eq_str(name, "base") || chars_eq_str(name, "br")
        || chars_eq_str(name, "col") || chars_eq_str(name, "embed") || chars_eq_str(name, "hr")
        || chars_eq_str(name, "img") || chars_eq_str(name, "input") || chars_eq_str(name, "link")
        || chars_eq_str(name, "meta") || chars_eq_str(name, "param") || chars_eq_str(
        name,
        "source",
    ) || chars_eq_str(name, "track") || chars_eq_str(name, "wbr")
}

/// Serialized form of the attributes from position `i` on: each one as
/// ` name="value"`.
pub open spec fn ser_attrs(attrs: Seq<Attr>, i: int) -> Seq<char>
    decreases attrs.len() - i,
{
    if i < 0 || i >= attrs.len() {
        Seq::empty()
    } else {
        seq![' '] + attrs[i].name@ + seq!['=', '"'] + attrs[i].value@ + seq!['"'] + ser_attrs(
            attrs,
            i + 1,
        )
    }
}

/// Serialized markup of the subtree rooted at node `i`.
pub open spec fn ser_node(t: Seq<NodeData>, i: int) -> Seq<char>
    decreases t.len() - i, 1int,
    when 0 <= i < t.len() && tree_wf(t)
    via ser_node_dec
{
    match t[i].kind {
        NodeType::Document => ser_chain(t, t[i].first_child),
        NodeType::Element => {
            if is_void_spec(t[i].name@) {
                seq!['<'] + t[i].name@ + ser_attrs(t[i].attrs@, 0) + seq!['>']
            } else {
                seq!['<'] + t[i].name@ + ser_attrs(t[i].attrs@, 0) + seq!['>'] + ser_chain(
                    t,
                    t[i].first_child,
                ) + seq!['<', '/'] + t[i].name@ + seq!['>']
            }
        },
        NodeType::Text => t[i].value@,
        NodeType::Comment => seq!['<', '!', '-', '-'] + t[i].value@ + seq!['-', '-', '>'],
        NodeType::DocumentType => seq!['<', '!', 'D', 'O', 'C', 'T', 'Y', 'P', 'E', ' '] + t[
            i
        ].name@ + seq!['>'],
        _ => Seq::empty(),
    }
}

/// Serialized markup of the sibling chain starting at `o`.
pub open spec fn ser_chain(t: Seq<NodeData>, o: Option<usize>) -> Seq<char>
    decreases (match o {
        Some(j) => t.len() - j,
        None => 0,
    }), 2int,
    when (match o {
        Some(j) => j < t.len() && tree_wf(t),
        None => true,
    })
    via ser_chain_dec
{
    match o {
        None => Seq::empty(),
        Some(j) => ser_node(t, j as int) + ser_chain(t, t[j as int].next),
    }
}

#[via_fn]
proof fn ser_node_dec(t: Seq<NodeData>, i: int) {
    if 0 <= i < t.len() && tree_wf(t) {
        assert(wf_at(t, i));
    }
}

#[via_fn]
proof fn ser_chain_dec(t: Seq<NodeData>, o: Option<usize>) {
    if let Some(j) = o {
        if j < t.len() && tree_wf(t) {
            assert(wf_at(t, j as int));
        }
    }
}

/// Text content of the subtree rooted at node `i`: its own character data
/// for text-like nodes, otherwise the concatenated data of its descendants,
/// comments and doctypes excluded.
pub open spec fn text_of(t: Seq<NodeData>, i: int) -> Seq<char>
    decreases t.len() - i, 1int,
    when 0 <= i < t.len() && tree_wf(t)
    via text_of_dec
{
    match t[i].kind {
        NodeType::Text => t[i].value@,
        NodeType::CDataSection => t[i].value@,
        NodeType::Comment => t[i].value@,
        NodeType::ProcessingInstruction => t[i].value@,
        NodeType::Element => text_chain(t, t[i].first_child),
        NodeType::Document => text_chain(t, t[i].first_child),
        NodeType::DocumentFragment => text_chain(t, t[i].first_child),
        _ => Seq::empty(),
    }
}

/// Concatenated text of the sibling chain starting at `o`, skipping
/// comments, doctypes and processing instructions.
pub open spec fn text_chain(t: Seq<NodeData>, o: Option<usize>) -> Seq<char>
    decreases (match o {
        Some(j) => t.len() - j,
        None => 0,
    }), 2int,
    when (match o {
        Some(j) => j < t.len() && tree_wf(t),
        None => true,
    })
    via text_chain_dec
{
    match o {
        None => Seq::empty(),
        Some(j) => (if t[j as int].kind == NodeType::Comment || t[j as int].kind
            == NodeType::DocumentType || t[j as int].kind == NodeType::ProcessingInstruction {
            Seq::<char>::empty()
        } else {
            text_of(t, j as int)
        }) + text_chain(t, t[j as int].next),
    }
}

#[via_fn]
proof fn text_of_dec(t: Seq<NodeData>, i: int) {
    if 0 <= i < t.len() && tree_wf(t) {
        assert(wf_at(t, i));
    }
}

#[via_fn]
proof fn text_chain_dec(t: Seq<NodeData>, o: Option<usize>) {
    if let Some(j) = o {
        if j < t.len() && tree_wf(t) {
            assert(wf_at(t, j as int));
        }
    }
}

/// Appends the characters of `v` to `out`.
pub fn push_chars(out: &mut Vec<char>, v: &Vec<char>)
    ensures
        final(out)@ == old(out)@ + v@,
{
    let n = v.len();
    let mut i: usize = 0;
    while i < n
        invariant
            n == v@.len(),
            i <= n,
            out@ == old(out)@ + v@.subrange(0, i as int),
        decreases n - i,
    {
        out.push(v[i]);
        i = i + 1;
        assert(out@ =~= old(out)@ + v@.subrange(0, i as int));
    }
    assert(out@ =~= old(out)@ + v@);
}

/// Appends ` name="value"` for every attribute to `out`.
fn ser_attrs_into(out: &mut Vec<char>, attrs: &Vec<Attr>)
    ensures
        final(out)@ == old(out)@ + ser_attrs(attrs@, 0),
{
    let n = attrs.len();
    let mut k: usize = 0;
    while k < n
        invariant
            n == attrs@.len(),
            k <= n,
            old(out)@ + ser_attrs(attrs@, 0) == out@ + ser_attrs(attrs@, k as int),
        decreases n - k,
    {
        let ghost before = out@;
        out.push(' ');
        push_chars(out, &attrs[k].name);
        out.push('=');
        out.push('"');
        push_chars(out, &attrs[k].value);
        out.push('"');
        proof {
            assert(out@ =~= before + (seq![' '] + attrs@[k as int].name@ + seq!['=', '"']
                + attrs@[k as int].value@ + seq!['"']));
            assert(out@ + ser_attrs(attrs@, k + 1) =~= before + ser_attrs(attrs@, k as int));
        }
        k = k + 1;
    }
    assert(out@ =~= out@ + ser_attrs(attrs@, n as int));
}

/// Appends the serialized subtree of node `i` to `out`.
fn ser_node_into(t: &DocTree, i: usize, out: &mut Vec<char>)
    requires
        tree_wf(t@),
        i < t@.len(),
    ensures
        final(out)@ == old(out)@ + ser_node(t@, i as int),
    decreases t@.len() - i, 1int,
{
    proof {
        assert(wf_at(t@, i as int));
    }
    match t.nodes[i].kind {
        NodeType::Document => {
            ser_chain_into(t, t.nodes[i].first_child, out);
        },
        NodeType::Element => {
            let ghost before = out@;
            out.push('<');
            push_chars(out, &t.nodes[i].name);
            ser_attrs_into(out, &t.nodes[i].attrs);
            out.push('>');
            if is_void_name(&t.nodes[i].name) {
                proof {
                    assert(out@ =~= before + (seq!['<'] + t@[i as int].name@ + ser_attrs(
                        t@[i as int].attrs@,
                        0,
                    ) + seq!['>']));
                }
            } else {
                ser_chain_into(t, t.nodes[i].first_child, out);
                out.push('<');
                out.push('/');
                push_chars(out, &t.nodes[i].name);
                out.push('>');
                proof {
                    assert(out@ =~= before + (seq!['<'] + t@[i as int].name@ + ser_attrs(
                        t@[i as int].attrs@,
                        0,
                    ) + seq!['>'] + ser_chain(t@, t@[i as int].first_child) + seq!['<', '/'] + t@[
                        i as int
                    ].name@ + seq!['>']));
                }
            }
        },
        NodeType::Text => {
            push_chars(out, &t.nodes[i].value);
        },
        NodeType::Comment => {
            let ghost before = out@;
            out.push('<');
            out.push('!');
            out.push('-');
            out.push('-');
            push_chars(out, &t.nodes[i].value);
            out.push('-');
            out.push('-');
            out.push('>');
            proof {
                assert(out@ =~= before + (seq!['<', '!', '-', '-'] + t@[i as int].value@ + seq![
                    '-', '-', '>'
                ]));
            }
        },
        NodeType::DocumentType => {
            let ghost before = out@;
            out.push('<');
            out.push('!');
            out.push('D');
            out.push('O');
            out.push('C');
            out.push('T');
            out.push('Y');
            out.push('P');
            out.push('E');
            out.push(' ');
            push_chars(out, &t.nodes[i].name);
            out.push('>');
            proof {
                assert(out@ =~= before + (seq!['<', '!', 'D', 'O', 'C', 'T', 'Y', 'P', 'E', ' ']
                    + t@[i as int].name@ + seq!['>']));
            }
        },
        _ => {
            assert(out@ =~= old(out)@ + ser_node(t@, i as int));
        },
    }
}

/// Appends the serialized sibling chain starting at `o` to `out`.
fn ser_chain_into(t: &DocTree, o: Option<usize>, out: &mut Vec<char>)
    requires
        tree_wf(t@),
        (o matches Some(j) ==> j < t@.len()),
    ensures
        final(out)@ == old(out)@ + ser_chain(t@, o),
    decreases (match o {
        Some(j) => t@.len() - j,
        None => 0,
    }), 2int,
{
    match o {
        None => {
            assert(out@ =~= old(out)@ + ser_chain(t@, o));
        },
        Some(j) => {
            proof {
                assert(wf_at(t@, j as int));
            }
            ser_node_into(t, j, out);
            ser_chain_into(t, t.nodes[j].next, out);
            assert(out@ =~= old(out)@ + ser_chain(t@, o));
        },
    }
}

/// Appends the text content of node `i` to `out`.
fn text_of_into(t: &DocTree, i: usize, out: &mut Vec<char>)
    requires
        tree_wf(t@),
        i < t@.len(),
    ensures
        final(out)@ == old(out)@ + text_of(t@, i as int),
    decreases t@.len() - i, 1int,
{
    proof {
        assert(wf_at(t@, i as int));
    }
    match t.nodes[i].kind {
        NodeType::Text => {
            push_chars(out, &t.nodes[i].value);
        },
        NodeType::CDataSection => {
            push_chars(out, &t.nodes[i].value);
        },
        NodeType::Comment => {
            push_chars(out, &t.nodes[i].value);
        },
        NodeType::ProcessingInstruction => {
            push_chars(out, &t.nodes[i].value);
        },
        NodeType::Element => {
            text_chain_into(t, t.nodes[i].first_child, out);
        },
        NodeType::Document => {
            text_chain_into(t, t.nodes[i].first_child, out);
        },
        NodeType::DocumentFragment => {
            text_chain_into(t, t.nodes[i].first_child, out);
        },
        _ => {
            assert(out@ =~= old(out)@ + text_of(t@, i as int));
        },
    }
}

/// Appends the text of the sibling chain starting at `o` to `out`.
fn text_chain_into(t: &DocTree, o: Option<usize>, out: &mut Vec<char>)
    requires
        tree_wf(t@),
        (o matches Some(j) ==> j < t@.len()),
    ensures
        final(out)@ == old(out)@ + text_chain(t@, o),
    decreases (match o {
        Some(j) => t@.len() - j,
        None => 0,
    }), 2int,
{
    match o {
        None => {
            assert(out@ =~= old(out)@ + text_chain(t@, o));
        },
        Some(j) => {
            proof {
                assert(wf_at(t@, j as int));
            }
            let k = t.nodes[j].kind;
            if !(k == NodeType::Comment || k == NodeType::DocumentType
                || k == NodeType::ProcessingInstruction) {
                text_of_into(t, j, out);
            }
            text_chain_into(t, t.nodes[j].next, out);
            assert(out@ =~= old(out)@ + text_chain(t@, o));
        },
    }
}

impl DocTree {
    /// The serialized markup of the subtree rooted at node `i`.
    pub fn serialize_subtree(&self, i: usize) -> (r: Vec<char>)
        requires
            tree_wf(self@),
            i < self@.len(),
        ensures
            r@ == ser_node(self@, i as int),
    {
        let mut out: Vec<char> = Vec::new();
        ser_node_into(self, i, &mut out);
        out
    }

    /// The serialized markup of the sibling chain starting at `o`.
    pub fn serialize_chain(&self, o: Option<usize>) -> (r: Vec<char>)
        requires
            tree_wf(self@),
            (o matches Some(j) ==> j < self@.len()),
        ensures
            r@ == ser_chain(self@, o),
    {
        let mut out: Vec<char> = Vec::new();
        ser_chain_into(self, o, &mut out);
        out
    }

    /// The text content of the subtree rooted at node `i`.
    pub fn text_content(&self, i: usize) -> (r: Vec<char>)
        requires
            tree_wf(self@),
            i < self@.len(),
        ensures
            r@ == text_of(self@, i as int),
    {
        let mut out: Vec<char> = Vec::new();
        text_of_into(self, i, &mut out);
        out
    }
}

} // verus!
