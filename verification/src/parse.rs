//! A recovering HTML tokenizer and tree builder.
//!
//! Markup is never rejected: anything that does not form a tag is kept as
//! text, stray close tags are ignored, and open elements are closed
//! implicitly at the end of input, as HTML error recovery demands.  The
//! builder appends nodes in document order through
//! [`DocTree::append_child_node`], so the resulting tree is well-formed by
//! construction.

use vstd::prelude::*;

use crate::chars::copy_range;
use crate::chars::is_space;
use crate::chars::is_space_spec;
use crate::chars::lower_char;
use crate::chars::lower_spec;
use crate::chars::str_to_chars;
use crate::dom::Attr;
use crate::dom::DocTree;
use crate::dom::NodeData;
use crate::dom::NodeType;
use crate::dom::tree_wf;
use crate::ser::is_void_name;

verus! {

/// Whether `c` is an ASCII letter.
pub open spec fn is_letter_spec(c: char) -> bool {
    ||| 65 <= c as u32 <= 90
    ||| 97 <= c as u32 <= 122
}

/// Whether `c` is an ASCII letter.
pub fn is_letter(c: char) -> (r: bool)
    ensures
        r == is_letter_spec(c),
{
    let u = c as u32;
    (65 <= u && u <= 90) || (97 <= u && u <= 122)
}

/// Whether `c` may appear in a tag or attribute name.
pub open spec fn is_name_char_spec(c: char) -> bool {
    ||| 65 <= c as u32 <= 90
    ||| 97 <= c as u32 <= 122
    ||| 48 <= c as u32 <= 57
    ||| c == '-'
    ||| c == '_'
    ||| c == ':'
}

/// Whether `c` may appear in a tag or attribute name.
fn is_name_char(c: char) -> (r: bool)
    ensures
        r == is_name_char_spec(c),
{
    let u = c as u32;
    (65 <= u && u <= 90) || (97 <= u && u <= 122) || (48 <= u && u <= 57) || c == '-' || c == '_'
        || c == ':'
}

/// The end of the run of name characters starting at `i`.
pub open spec fn name_end(s: Seq<char>, i: int) -> int
    decreases s.len() - i,
{
    if i < 0 {
        0
    } else if i >= s.len() {
        s.len() as int
    } else if is_name_char_spec(s[i]) {
        name_end(s, i + 1)
    } else {
        i
    }
}

pub proof fn lemma_name_end(s: Seq<char>, i: int)
    requires
        0 <= i <= s.len(),
    ensures
        i <= name_end(s, i) <= s.len(),
        i < s.len() && is_name_char_spec(s[i]) ==> name_end(s, i) > i,
    decreases s.len() - i,
{
    if i < s.len() && is_name_char_spec(s[i]) {
        lemma_name_end(s, i + 1);
    }
}

/// Reads the run of name characters starting at `pos`, ASCII-lowercased.
fn scan_name(input: &Vec<char>, pos: usize) -> (r: (Vec<char>, usize))
    requires
        pos <= input@.len(),
    ensures
        pos <= r.1 <= input@.len(),
        r.1 == name_end(input@, pos as int),
        r.0@ == lower_spec(input@.subrange(pos as int, name_end(input@, pos as int))),
        pos < input@.len() && is_name_char_spec(input@[pos as int]) ==> r.1 > pos,
{
    let n = input.len();
    let mut name: Vec<char> = Vec::new();
    let mut i: usize = pos;
    while i < n && is_name_char(input[i])
        invariant
            pos <= i <= n == input@.len(),
            name_end(input@, pos as int) == name_end(input@, i as int),
            name@ == lower_spec(input@.subrange(pos as int, i as int)),
        decreases n - i,
    {
        name.push(lower_char(input[i]));
        i = i + 1;
        proof {
            assert(name@ =~= lower_spec(input@.subrange(pos as int, i as int)));
        }
    }
    proof {
        lemma_name_end(input@, pos as int);
        assert(name_end(input@, i as int) == i);
        assert(name@ =~= lower_spec(input@.subrange(pos as int, name_end(input@, pos as int))));
    }
    (name, i)
}

/// Advances past ASCII whitespace.
fn skip_ws(input: &Vec<char>, pos: usize) -> (r: usize)
    requires
        pos <= input@.len(),
    ensures
        pos <= r <= input@.len(),
{
    let n = input.len();
    let mut i: usize = pos;
    while i < n && is_space(input[i])
        invariant
            pos <= i <= n == input@.len(),
        decreases n - i,
    {
        i = i + 1;
    }
    i
}

/// Advances to the position just after the next `>`, or to the end of input.
fn skip_past_gt(input: &Vec<char>, pos: usize) -> (r: usize)
    requires
        pos <= input@.len(),
    ensures
        pos <= r <= input@.len(),
{
    let n = input.len();
    let mut i: usize = pos;
    while i < n && input[i] != '>'
        invariant
            pos <= i <= n == input@.len(),
        decreases n - i,
    {
        i = i + 1;
    }
    if i < n {
        i + 1
    } else {
        i
    }
}

/// Reads the attribute list of an open tag up to and including its closing
/// `>`.  Returns the attributes, whether the tag was self-closing, and the
/// position after the tag.
fn parse_attrs(input: &Vec<char>, pos: usize) -> (r: (Vec<Attr>, bool, usize))
    requires
        pos <= input@.len(),
    ensures
        pos <= r.2 <= input@.len(),
{
    let n = input.len();
    let mut attrs: Vec<Attr> = Vec::new();
    let mut i: usize = pos;
    let mut self_closing = false;
    while i < n
        invariant
            pos <= i <= n == input@.len(),
        decreases n - i,
    {
        i = skip_ws(input, i);
        if i >= n {
            break ;
        }
        let c = input[i];
        if c == '>' {
            i = i + 1;
            return (attrs, self_closing, i);
        }
        if c == '/' {
            if i + 1 < n && input[i + 1] == '>' {
                self_closing = true;
                i = i + 2;
                return (attrs, self_closing, i);
            }
            i = i + 1;
            continue ;
        }
        if !is_name_char(c) {
            i = i + 1;
            continue ;
        }
        let scanned = scan_name(input, i);
        let name = scanned.0;
        i = scanned.1;
        i = skip_ws(input, i);
        let mut value: Vec<char> = Vec::new();
        if i < n && input[i] == '=' {
            i = i + 1;
            i = skip_ws(input, i);
            if i < n && (input[i] == '"' || input[i] == '\'') {
                let quote = input[i];
                i = i + 1;
                let start = i;
                while i < n && input[i] != quote
                    invariant
                        start <= i <= n == input@.len(),
                    decreases n - i,
                {
                    i = i + 1;
                }
                value = copy_range(input, start, i);
                if i < n {
                    i = i + 1;
                }
            } else {
                let start = i;
                while i < n && !is_space(input[i]) && input[i] != '>'
                    invariant
                        start <= i <= n == input@.len(),
                    decreases n - i,
                {
                    i = i + 1;
                }
                value = copy_range(input, start, i);
            }
        }
        attrs.push(Attr { name, value });
    }
    (attrs, self_closing, i)
}

/// The position of the first non-whitespace character at `i` or later,
/// or the end of `s`.
pub open spec fn skip_ws_pos(s: Seq<char>, i: int) -> int
    decreases s.len() - i,
{
    if i < 0 {
        0
    } else if i >= s.len() {
        s.len() as int
    } else if is_space_spec(s[i]) {
        skip_ws_pos(s, i + 1)
    } else {
        i
    }
}


/// The position just after the last non-whitespace character at or before
/// position `b`; `0` when there is none.
pub open spec fn trim_back_pos(s: Seq<char>, b: int) -> int
    decreases b,
{
    if b <= 0 {
        0
    } else if is_space_spec(s[b - 1]) {
        trim_back_pos(s, b - 1)
    } else {
        b
    }
}

/// `s` with leading and trailing ASCII whitespace removed.
pub open spec fn trim_spec(s: Seq<char>) -> Seq<char> {
    let a = skip_ws_pos(s, 0);
    if a >= s.len() {
        Seq::empty()
    } else {
        s.subrange(a, trim_back_pos(s, s.len() as int))
    }
}

/// Strips leading and trailing ASCII whitespace.
fn trim_chars(v: Vec<char>) -> (r: Vec<char>)
    ensures
        r@ == trim_spec(v@),
{
    let n = v.len();
    let mut a: usize = 0;
    while a < n && is_space(v[a])
        invariant
            a <= n == v@.len(),
            skip_ws_pos(v@, 0) == skip_ws_pos(v@, a as int),
        decreases n - a,
    {
        a = a + 1;
    }
    proof {
        assert(skip_ws_pos(v@, 0) == a);
    }
    if a >= n {
        let r: Vec<char> = Vec::new();
        return r;
    }
    let mut b: usize = n;
    while b > a && is_space(v[b - 1])
        invariant
            a < b <= n == v@.len(),
            a == skip_ws_pos(v@, 0),
            a < n,
            !is_space_spec(v@[a as int]),
            trim_back_pos(v@, n as int) == trim_back_pos(v@, b as int),
        decreases b,
    {
        b = b - 1;
    }
    proof {
        assert(trim_back_pos(v@, b as int) == b);
    }
    copy_range(&v, a, b)
}

/// Whether `s` holds no tag opener at all.
pub open spec fn plain_text(s: Seq<char>) -> bool {
    forall|i: int| 0 <= i < s.len() ==> s[i] != '<'
}

/// The end of the text run starting at `i`: the next tag opener, or the
/// end of input.
pub open spec fn text_end(s: Seq<char>, i: int) -> int
    decreases s.len() - i,
{
    if i < 0 {
        0
    } else if i >= s.len() {
        s.len() as int
    } else if s[i] == '<' {
        i
    } else {
        text_end(s, i + 1)
    }
}


/// The position where the comment body that starts at `i` ends: the next
/// `-->`, or the end of input.
pub open spec fn comment_end(s: Seq<char>, i: int) -> int
    decreases s.len() - i,
{
    if i < 0 {
        0
    } else if i >= s.len() {
        s.len() as int
    } else if s[i] == '-' && i + 2 < s.len() && s[i + 1] == '-' && s[i + 2] == '>' {
        i
    } else {
        comment_end(s, i + 1)
    }
}

pub proof fn lemma_comment_end(s: Seq<char>, i: int)
    requires
        0 <= i <= s.len(),
    ensures
        i <= comment_end(s, i) <= s.len(),
    decreases s.len() - i,
{
    if i < s.len() && !(s[i] == '-' && i + 2 < s.len() && s[i + 1] == '-' && s[i + 2] == '>') {
        lemma_comment_end(s, i + 1);
    }
}

/// The position of the next `>` at `i` or later, or the end of input.
pub open spec fn gt_pos(s: Seq<char>, i: int) -> int
    decreases s.len() - i,
{
    if i < 0 {
        0
    } else if i >= s.len() {
        s.len() as int
    } else if s[i] == '>' {
        i
    } else {
        gt_pos(s, i + 1)
    }
}


/// The declaration text of input that opens with `<!` or `<?`: what
/// stands between that opener and the first `>`.
pub open spec fn decl_content(s: Seq<char>) -> Seq<char> {
    s.subrange(2, gt_pos(s, 2))
}

/// Whether the input opens with a doctype declaration.
pub open spec fn doctype_lead(s: Seq<char>) -> bool {
    &&& s.len() >= 2 && s[0] == '<' && (s[1] == '!' || s[1] == '?')
    &&& !(s.len() >= 4 && s[1] == '!' && s[2] == '-' && s[3] == '-')
    &&& decl_content(s).len() >= 7
    &&& lower_spec(decl_content(s).subrange(0, 7)) == "doctype"@
}

/// What the first parsed node of the document must be.  Input opening with
/// a tag yields an element named by that tag's lowercased name; input
/// opening with anything but `<` yields the leading text run.  Either way
/// the node stands at index 1 as the root's first child.
pub open spec fn parsed_first_node(t: Seq<NodeData>, s: Seq<char>) -> bool {
    &&& (s.len() > 0 && s[0] != '<' ==> t.len() >= 2 && t[1].kind == NodeType::Text && t[1].value@
        == s.subrange(0, text_end(s, 0)) && crate::dom::link_is(t[0].first_child, 1)
        && crate::dom::link_is(t[1].parent, 0))
    &&& (s.len() >= 2 && s[0] == '<' && is_letter_spec(s[1]) ==> t.len() >= 2 && t[1].kind
        == NodeType::Element && t[1].name@ == lower_spec(s.subrange(1, name_end(s, 1)))
        && crate::dom::link_is(t[0].first_child, 1) && crate::dom::link_is(t[1].parent, 0))
    &&& (s.len() >= 4 && s[0] == '<' && s[1] == '!' && s[2] == '-' && s[3] == '-' ==> t.len() >= 2
        && t[1].kind == NodeType::Comment && t[1].value@ == s.subrange(4, comment_end(s, 4))
        && crate::dom::link_is(t[0].first_child, 1) && crate::dom::link_is(t[1].parent, 0))
    &&& (doctype_lead(s) ==> t.len() >= 2 && t[1].kind == NodeType::DocumentType && t[1].name@
        == trim_spec(decl_content(s).subrange(7, decl_content(s).len() as int))
        && crate::dom::link_is(t[0].first_child, 1) && crate::dom::link_is(t[1].parent, 0))
}

/// Appending a node under any parent never changes what the first parsed
/// node was: node 1 keeps its record and the root keeps its first child.
proof fn lemma_first_node_kept(t0: Seq<NodeData>, t1: Seq<NodeData>, p: int, s: Seq<char>)
    requires
        tree_wf(t0),
        0 <= p < t0.len(),
        t1.len() == t0.len() + 1,
        forall|j: int|
            0 <= j < t0.len() && j != p && !crate::dom::link_is(t0[p].last_child, j) ==> t1[j]
                == t0[j],
        t1[p].kind == t0[p].kind,
        t1[p].name == t0[p].name,
        t1[p].value == t0[p].value,
        t1[p].parent == t0[p].parent,
        (t0[p].last_child is Some ==> t1[p].first_child == t0[p].first_child),
        (match t0[p].last_child {
            Some(sib) => crate::dom::eq_but_next(t1[sib as int], t0[sib as int]),
            None => true,
        }),
        parsed_first_node(t0, s),
    ensures
        parsed_first_node(t1, s),
{
    let text_case = s.len() > 0 && s[0] != '<';
    let elem_case = s.len() >= 2 && s[0] == '<' && is_letter_spec(s[1]);
    let comment_case = s.len() >= 4 && s[0] == '<' && s[1] == '!' && s[2] == '-' && s[3] == '-';
    if text_case || elem_case || comment_case || doctype_lead(s) {
        assert(crate::dom::wf_at(t0, 0));
        assert(crate::dom::wf_at(t0, p));
        // Node 0 is nobody's child, so its record can change only as the
        // parent `p`, whose first child is kept because it already has one.
        if p != 0 {
            assert(!crate::dom::link_is(t0[p].last_child, 0));
            assert(t1[0] == t0[0]);
        }
        // Node 1 keeps kind, name, value and parent in every role.
        if p != 1 && !crate::dom::link_is(t0[p].last_child, 1) {
            assert(t1[1] == t0[1]);
        }
    }
}

/// Parses a character sequence into a document tree.  Parsing always
/// succeeds: the result is well-formed and rooted in a document node named
/// `#document`.  The contract additionally pins the tree exactly for
/// markup-free input (one text node holding the whole input) and pins the
/// document's first node for every lead token that produces one: a tag, a
/// text run, a comment or a doctype.  The shape of the rest of the tree is
/// fixed by the tokenizer below and checked by the crate's tests, not by
/// this contract.
pub fn parse_chars(input: &Vec<char>) -> (t: DocTree)
    ensures
        tree_wf(t@),
        t@[0].name@ == "#document"@,
        parsed_first_node(t@, input@),
        plain_text(input@) && input@.len() == 0 ==> t@.len() == 1,
        plain_text(input@) && input@.len() > 0 ==> t@.len() == 2 && t@[1].kind == NodeType::Text
            && t@[1].value@ == input@ && crate::dom::link_is(t@[0].first_child, 1),
{
    let n = input.len();
    let mut tree = DocTree::new_document(str_to_chars("#document"));
    let mut stack: Vec<usize> = Vec::new();
    stack.push(0);
    let mut pos: usize = 0;
    while pos < n
        invariant
            n == input@.len(),
            pos <= n,
            tree_wf(tree@),
            tree@[0].name@ == "#document"@,
            stack@.len() >= 1,
            stack@[0] == 0,
            forall|k: int| 0 <= k < stack@.len() ==> #[trigger] stack@[k] < tree@.len(),
            plain_text(input@) ==> stack@.len() == 1,
            pos == 0 ==> tree@.len() == 1 && tree@[0].first_child is None && stack@.len() == 1,
            pos > 0 ==> parsed_first_node(tree@, input@),
            plain_text(input@) && pos > 0 ==> pos == n && tree@.len() == 2 && tree@[1].kind
                == NodeType::Text && tree@[1].value@ == input@ && crate::dom::link_is(
                tree@[0].first_child,
                1,
            ),
        decreases n - pos,
    {
        let ghost pos0 = pos;
        let ghost pre = tree@;
        let parent = stack[stack.len() - 1];
        let c = input[pos];
        if c == '<' && pos + 1 < n && is_letter(input[pos + 1]) {
            // open tag
            let scanned = scan_name(input, pos + 1);
            let name = scanned.0;
            let after = parse_attrs(input, scanned.1);
            let void = is_void_name(&name);
            let idx = tree.append_child_node(
                parent,
                NodeType::Element,
                name,
                Vec::new(),
                after.0,
            );
            proof {
                if pos0 == 0 {
                    assert(crate::dom::wf_at(pre, 0));
                    assert(parsed_first_node(tree@, input@));
                } else {
                    lemma_first_node_kept(pre, tree@, parent as int, input@);
                }
            }
            if !void && !after.1 {
                stack.push(idx);
            }
            pos = after.2;
        } else if c == '<' && pos + 1 < n && input[pos + 1] == '/' {
            // close tag: pop to the matching open element, if any
            let scanned = scan_name(input, pos + 2);
            let name = scanned.0;
            pos = skip_past_gt(input, scanned.1);
            let mut k = stack.len();
            while k > 1
                invariant
                    1 <= k <= stack@.len(),
                    tree_wf(tree@),
                    stack@.len() >= 1,
                    stack@[0] == 0,
                    forall|q: int| 0 <= q < stack@.len() ==> #[trigger] stack@[q] < tree@.len(),
                decreases k,
            {
                k = k - 1;
                if crate::chars::chars_eq(&tree.nodes[stack[k]].name, &name) {
                    stack.truncate(k);
                    break ;
                }
            }
        } else if c == '<' && n - pos > 3 && input[pos + 1] == '!' && input[pos + 2] == '-'
            && input[pos + 3] == '-' {
            // comment
            let start = pos + 4;
            let mut i = start;
            let mut end = n;
            let mut after = n;
            let mut found = false;
            while i < n && !found
                invariant
                    start <= i,
                    i <= n == input@.len(),
                    after == n || after >= start + 3,
                    after <= n,
                    !found ==> end == n && after == n && comment_end(input@, start as int)
                        == comment_end(input@, i as int),
                    found ==> end == comment_end(input@, start as int) && after == end + 3
                        && after <= n,
                decreases n - i, (if found {
                    0int
                } else {
                    1int
                }),
            {
                if input[i] == '-' && n - i > 2 && input[i + 1] == '-' && input[i + 2] == '>' {
                    end = i;
                    after = i + 3;
                    found = true;
                    proof {
                        assert(comment_end(input@, i as int) == i);
                    }
                } else {
                    i = i + 1;
                }
            }
            proof {
                if !found {
                    assert(comment_end(input@, i as int) == n);
                }
                assert(end == comment_end(input@, start as int));
                lemma_comment_end(input@, start as int);
            }
            let value = copy_range(input, start, if end < start {
                start
            } else {
                end
            });
            proof {
                if pos0 == 0 {
                    assert(crate::dom::wf_at(tree@, 0));
                    assert(tree@[0].last_child is None);
                    assert(value@ =~= input@.subrange(4, comment_end(input@, 4)));
                }
            }
            tree.append_child_node(
                parent,
                NodeType::Comment,
                str_to_chars("#comment"),
                value,
                Vec::new(),
            );
            proof {
                if pos0 == 0 {
                    assert(parsed_first_node(tree@, input@));
                } else {
                    lemma_first_node_kept(pre, tree@, parent as int, input@);
                }
            }
            pos = after;
        } else if c == '<' && pos + 1 < n && (input[pos + 1] == '!' || input[pos + 1] == '?') {
            // doctype, or markup to discard
            let start = pos + 2;
            let mut i = start;
            while i < n && input[i] != '>'
                invariant
                    start <= i <= n == input@.len(),
                    gt_pos(input@, start as int) == gt_pos(input@, i as int),
                decreases n - i,
            {
                i = i + 1;
            }
            proof {
                assert(gt_pos(input@, i as int) == i);
            }
            let content = copy_range(input, start, i);
            pos = if i < n {
                i + 1
            } else {
                i
            };
            proof {
                if pos0 == 0 {
                    assert(content@ =~= decl_content(input@));
                }
            }
            if content.len() >= 7 {
                let head7 = copy_range(&content, 0, 7);
                let mut lowered: Vec<char> = Vec::new();
                let mut q: usize = 0;
                while q < 7
                    invariant
                        q <= 7,
                        head7@.len() == 7,
                        head7@ == content@.subrange(0, 7),
                        content@.len() >= 7,
                        lowered@ == lower_spec(head7@.subrange(0, q as int)),
                    decreases 7 - q,
                {
                    lowered.push(lower_char(head7[q]));
                    q = q + 1;
                    proof {
                        assert(lowered@ =~= lower_spec(head7@.subrange(0, q as int)));
                    }
                }
                proof {
                    assert(head7@.subrange(0, 7) =~= head7@);
                    assert(lowered@ == lower_spec(content@.subrange(0, 7)));
                }
                if crate::chars::chars_eq_str(&lowered, "doctype") {
                    let rest = copy_range(&content, 7, content.len());
                    let dname = trim_chars(rest);
                    proof {
                        if pos0 == 0 {
                            assert(crate::dom::wf_at(tree@, 0));
                            assert(tree@[0].last_child is None);
                            assert(doctype_lead(input@));
                            assert(rest@ =~= decl_content(input@).subrange(
                                7,
                                decl_content(input@).len() as int,
                            ));
                        }
                    }
                    tree.append_child_node(
                        parent,
                        NodeType::DocumentType,
                        dname,
                        Vec::new(),
                        Vec::new(),
                    );
                    proof {
                        if pos0 == 0 {
                            assert(parsed_first_node(tree@, input@));
                        } else {
                            lemma_first_node_kept(pre, tree@, parent as int, input@);
                        }
                    }
                } else {
                    proof {
                        if pos0 == 0 {
                            assert(!doctype_lead(input@));
                            assert(parsed_first_node(tree@, input@));
                        }
                    }
                }
            } else {
                proof {
                    if pos0 == 0 {
                        assert(!doctype_lead(input@));
                        assert(parsed_first_node(tree@, input@));
                    }
                }
            }
        } else {
            // text run up to the next tag opener
            let start = pos;
            let mut end = pos + 1;
            while end < n && input[end] != '<'
                invariant
                    start < end <= n == input@.len(),
                    input@[start as int] != '<' ==> text_end(input@, start as int) == text_end(
                        input@,
                        end as int,
                    ),
                decreases n - end,
            {
                end = end + 1;
            }
            let value = copy_range(input, start, end);
            proof {
                if input@[start as int] != '<' {
                    assert(text_end(input@, end as int) == end);
                }
                if plain_text(input@) {
                    assert(end == n);
                    assert(value@ =~= input@);
                }
                if pos0 == 0 {
                    assert(crate::dom::wf_at(tree@, 0));
                    assert(tree@[0].last_child is None);
                }
            }
            tree.append_child_node(
                parent,
                NodeType::Text,
                str_to_chars("#text"),
                value,
                Vec::new(),
            );
            proof {
                if pos0 == 0 {
                    assert(parsed_first_node(tree@, input@));
                } else {
                    lemma_first_node_kept(pre, tree@, parent as int, input@);
                }
            }
            pos = end;
        }
    }
    tree
}

} // verus!
