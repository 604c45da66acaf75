//! A mutable, de-duplicated, order-preserving list of whitespace-delimited
//! tokens, materialized from one attribute value.
//!
//! Every token is non-empty and free of whitespace; violating input is a
//! validation error, never a silent drop.
//!
//! The list is a snapshot: mutating operations change the list itself and
//! `value` recomposes the current tokens, but nothing is written back to
//! the source attribute.  A shared document is immutable in this crate's
//! ownership model — that immutability is what makes the weak-link
//! contracts sound — so live write-back is deliberately not offered.

use vstd::prelude::*;

use crate::chars::chars_eq;
use crate::chars::copy_range;
use crate::chars::chars_to_string;
use crate::chars::is_space;
use crate::chars::is_space_spec;
use crate::chars::str_to_chars;

verus! {

/// A malformed token was handed to a mutating operation: empty, or holding
/// whitespace.
#[derive(Clone, Copy, PartialEq, Eq, Structural, Debug)]
pub struct TokenError;

/// A token is valid when it is non-empty and holds no whitespace.
pub open spec fn valid_token(t: Seq<char>) -> bool {
    &&& t.len() > 0
    &&& forall|i: int| 0 <= i < t.len() ==> !is_space_spec(#[trigger] t[i])
}

/// The position of the first whitespace character at `i` or later, or the
/// end of `s`.
pub open spec fn tok_end(s: Seq<char>, i: int) -> int
    decreases s.len() - i,
{
    if i < 0 {
        0
    } else if i >= s.len() {
        s.len() as int
    } else if is_space_spec(s[i]) {
        i
    } else {
        tok_end(s, i + 1)
    }
}

pub proof fn lemma_tok_end(s: Seq<char>, i: int)
    requires
        0 <= i <= s.len(),
    ensures
        i <= tok_end(s, i) <= s.len(),
        i < s.len() && !is_space_spec(s[i]) ==> tok_end(s, i) > i,
    decreases s.len() - i,
{
    if i < s.len() && !is_space_spec(s[i]) {
        lemma_tok_end(s, i + 1);
    }
}

/// The distinct tokens of `s` from position `i` on, in first-seen order,
/// given the tokens already seen.
pub open spec fn toks_from(s: Seq<char>, i: int, seen: Seq<Seq<char>>) -> Seq<Seq<char>>
    decreases s.len() - i,
    when 0 <= i
    via toks_from_dec
{
    if i >= s.len() {
        Seq::empty()
    } else if is_space_spec(s[i]) {
        toks_from(s, i + 1, seen)
    } else {
        let tok = s.subrange(i, tok_end(s, i));
        if seen.contains(tok) {
            toks_from(s, tok_end(s, i), seen)
        } else {
            seq![tok] + toks_from(s, tok_end(s, i), seen.push(tok))
        }
    }
}

#[via_fn]
proof fn toks_from_dec(s: Seq<char>, i: int, seen: Seq<Seq<char>>) {
    if 0 <= i < s.len() && !is_space_spec(s[i]) {
        lemma_tok_end(s, i);
    }
}

/// The distinct whitespace-delimited tokens of `s`, in first-seen order.
pub open spec fn tokens_of(s: Seq<char>) -> Seq<Seq<char>> {
    toks_from(s, 0, Seq::empty())
}

/// `ts` with `tok` appended, unless already present.
pub open spec fn add_one(ts: Seq<Seq<char>>, tok: Seq<char>) -> Seq<Seq<char>> {
    if ts.contains(tok) {
        ts
    } else {
        ts.push(tok)
    }
}

/// `ts` without every occurrence of `tok` from position `i` on, order
/// preserved.
pub open spec fn remove_from(ts: Seq<Seq<char>>, tok: Seq<char>, i: int) -> Seq<Seq<char>>
    decreases ts.len() - i,
{
    if i < 0 || i >= ts.len() {
        Seq::empty()
    } else if ts[i] == tok {
        remove_from(ts, tok, i + 1)
    } else {
        seq![ts[i]] + remove_from(ts, tok, i + 1)
    }
}

/// `ts` without every occurrence of `tok`, order preserved.
pub open spec fn remove_one(ts: Seq<Seq<char>>, tok: Seq<char>) -> Seq<Seq<char>> {
    remove_from(ts, tok, 0)
}

/// `ts` with `from` replaced by `to` in place.
pub open spec fn swap_one(ts: Seq<Seq<char>>, from: Seq<char>, to: Seq<char>) -> Seq<Seq<char>> {
    ts.map_values(
        |x: Seq<char>|
            if x == from {
                to
            } else {
                x
            },
    )
}

/// The tokens joined by single spaces, from position `i` on.
pub open spec fn join_from(ts: Seq<Seq<char>>, i: int) -> Seq<char>
    decreases ts.len() - i,
{
    if i < 0 || i >= ts.len() {
        Seq::empty()
    } else if i == ts.len() - 1 {
        ts[i]
    } else {
        ts[i] + seq![' '] + join_from(ts, i + 1)
    }
}

/// `ts` with each of the `toks` from position `i` on added in turn.
pub open spec fn add_all(ts: Seq<Seq<char>>, toks: Seq<Seq<char>>, i: int) -> Seq<Seq<char>>
    decreases toks.len() - i,
{
    if i < 0 || i >= toks.len() {
        ts
    } else {
        add_all(add_one(ts, toks[i]), toks, i + 1)
    }
}

/// `ts` with each of the `toks` from position `i` on removed in turn.
pub open spec fn remove_all(ts: Seq<Seq<char>>, toks: Seq<Seq<char>>, i: int) -> Seq<Seq<char>>
    decreases toks.len() - i,
{
    if i < 0 || i >= toks.len() {
        ts
    } else {
        remove_all(remove_one(ts, toks[i]), toks, i + 1)
    }
}

/// Membership after adding: the added token is present, and nothing else
/// changes.
pub proof fn lemma_add_membership(ts: Seq<Seq<char>>, tok: Seq<char>)
    ensures
        add_one(ts, tok).contains(tok),
        forall|x: Seq<char>| ts.contains(x) ==> #[trigger] add_one(ts, tok).contains(x),
        forall|x: Seq<char>| #[trigger] add_one(ts, tok).contains(x) ==> ts.contains(x) || x == tok,
{
    if !ts.contains(tok) {
        assert(add_one(ts, tok)[ts.len() as int] == tok);
        assert forall|x: Seq<char>| ts.contains(x) implies #[trigger] add_one(ts, tok).contains(
            x,
        ) by {
            let w = choose|w: int| 0 <= w < ts.len() && ts[w] == x;
            assert(add_one(ts, tok)[w] == x);
        }
        assert forall|x: Seq<char>| #[trigger] add_one(ts, tok).contains(x) implies ts.contains(x)
            || x == tok by {
            let w = choose|w: int| 0 <= w < add_one(ts, tok).len() && add_one(ts, tok)[w] == x;
            if w < ts.len() {
                assert(ts[w] == x);
            }
        }
    }
}

/// Adding many tokens keeps what was present: membership only grows.
pub proof fn lemma_add_all_preserves(ts: Seq<Seq<char>>, toks: Seq<Seq<char>>, i: int, x: Seq<char>)
    requires
        0 <= i <= toks.len(),
        ts.contains(x),
    ensures
        add_all(ts, toks, i).contains(x),
    decreases toks.len() - i,
{
    if i < toks.len() {
        lemma_add_membership(ts, toks[i]);
        lemma_add_all_preserves(add_one(ts, toks[i]), toks, i + 1, x);
    }
}

/// After adding a batch of tokens, every one of them is a member.
pub proof fn lemma_add_all_membership(ts: Seq<Seq<char>>, toks: Seq<Seq<char>>, i: int)
    requires
        0 <= i <= toks.len(),
    ensures
        forall|k: int| i <= k < toks.len() ==> add_all(ts, toks, i).contains(#[trigger] toks[k]),
    decreases toks.len() - i,
{
    if i < toks.len() {
        lemma_add_membership(ts, toks[i]);
        lemma_add_all_membership(add_one(ts, toks[i]), toks, i + 1);
        lemma_add_all_preserves(add_one(ts, toks[i]), toks, i + 1, toks[i]);
    }
}

/// After removing a batch of tokens, none of them is a member.
pub proof fn lemma_remove_all_membership(ts: Seq<Seq<char>>, toks: Seq<Seq<char>>, i: int)
    requires
        0 <= i <= toks.len(),
    ensures
        forall|k: int| i <= k < toks.len() ==> !remove_all(ts, toks, i).contains(#[trigger] toks[k]),
    decreases toks.len() - i,
{
    if i < toks.len() {
        lemma_remove_membership(ts, toks[i]);
        lemma_remove_all_membership(remove_one(ts, toks[i]), toks, i + 1);
        if remove_all(ts, toks, i).contains(toks[i]) {
            lemma_remove_all_subset(remove_one(ts, toks[i]), toks, i + 1, toks[i]);
        }
    }
}

/// Removal only removes: a member after a batch removal was one before it.
pub proof fn lemma_remove_all_subset(ts: Seq<Seq<char>>, toks: Seq<Seq<char>>, i: int, x: Seq<char>)
    requires
        0 <= i <= toks.len(),
        remove_all(ts, toks, i).contains(x),
    ensures
        ts.contains(x),
    decreases toks.len() - i,
{
    if i < toks.len() {
        lemma_remove_all_subset(remove_one(ts, toks[i]), toks, i + 1, x);
        lemma_remove_membership(ts, toks[i]);
    }
}

/// What removal leaves, from position `i` on: exactly the later elements
/// other than `tok`, still distinct when the input was.
pub proof fn lemma_remove_from_props(ts: Seq<Seq<char>>, tok: Seq<char>, i: int)
    requires
        0 <= i <= ts.len(),
    ensures
        forall|x: Seq<char>|
            #[trigger] remove_from(ts, tok, i).contains(x) <==> (x != tok && exists|j: int|
                i <= j < ts.len() && ts[j] == x),
        (forall|j: int, k: int| 0 <= j < k < ts.len() ==> ts[j] != ts[k]) ==> (forall|
            j: int,
            k: int,
        |
            0 <= j < k < remove_from(ts, tok, i).len() ==> remove_from(ts, tok, i)[j] != remove_from(
                ts,
                tok,
                i,
            )[k]),
    decreases ts.len() - i,
{
    if i < ts.len() {
        lemma_remove_from_props(ts, tok, i + 1);
        let rest = remove_from(ts, tok, i + 1);
        let whole = remove_from(ts, tok, i);
        assert forall|x: Seq<char>| #[trigger] whole.contains(x) implies (x != tok && exists|j: int|
            i <= j < ts.len() && ts[j] == x) by {
            let w = choose|w: int| 0 <= w < whole.len() && whole[w] == x;
            if ts[i] == tok {
                assert(rest.contains(x));
            } else {
                if w == 0 {
                    assert(ts[i] == x);
                } else {
                    assert(rest[w - 1] == x);
                    assert(rest.contains(x));
                }
            }
        }
        assert forall|x: Seq<char>|
            (x != tok && exists|j: int| i <= j < ts.len() && ts[j] == x) implies #[trigger] whole
            .contains(x) by {
            let j = choose|j: int| i <= j < ts.len() && ts[j] == x;
            if j == i {
                assert(ts[i] != tok);
                assert(whole[0] == x);
            } else {
                assert(rest.contains(x));
                let w = choose|w: int| 0 <= w < rest.len() && rest[w] == x;
                if ts[i] == tok {
                    assert(whole[w] == x);
                } else {
                    assert(whole[w + 1] == x);
                }
            }
        }
        if forall|j: int, k: int| 0 <= j < k < ts.len() ==> ts[j] != ts[k] {
            assert forall|j: int, k: int|
                0 <= j < k < whole.len() implies whole[j] != whole[k] by {
                if ts[i] == tok {
                    assert(whole[j] == rest[j] && whole[k] == rest[k]);
                } else {
                    if j == 0 {
                        assert(whole[k] == rest[k - 1]);
                        assert(rest.contains(rest[k - 1]));
                        if whole[j] == whole[k] {
                            let m = choose|m: int| i + 1 <= m < ts.len() && ts[m] == rest[k - 1];
                            assert(ts[i] == ts[m]);
                        }
                    } else {
                        assert(whole[j] == rest[j - 1] && whole[k] == rest[k - 1]);
                    }
                }
            }
        }
    }
}

/// Removing a token that does not occur leaves the sequence as it is.
pub proof fn lemma_remove_absent(ts: Seq<Seq<char>>, tok: Seq<char>, i: int)
    requires
        0 <= i <= ts.len(),
        forall|j: int| i <= j < ts.len() ==> ts[j] != tok,
    ensures
        remove_from(ts, tok, i) =~= ts.subrange(i, ts.len() as int),
    decreases ts.len() - i,
{
    if i < ts.len() {
        lemma_remove_absent(ts, tok, i + 1);
        assert(remove_from(ts, tok, i) =~= ts.subrange(i, ts.len() as int));
    }
}

/// Membership after removing: the removed token is gone, every other token
/// stays.
pub proof fn lemma_remove_membership(ts: Seq<Seq<char>>, tok: Seq<char>)
    ensures
        !remove_one(ts, tok).contains(tok),
        forall|x: Seq<char>|
            x != tok && ts.contains(x) ==> #[trigger] remove_one(ts, tok).contains(x),
        forall|x: Seq<char>|
            #[trigger] remove_one(ts, tok).contains(x) ==> ts.contains(x) && x != tok,
{
    lemma_remove_from_props(ts, tok, 0);
    assert forall|x: Seq<char>|
        x != tok && ts.contains(x) implies #[trigger] remove_one(ts, tok).contains(x) by {
        let w = choose|w: int| 0 <= w < ts.len() && ts[w] == x;
        assert(remove_from(ts, tok, 0).contains(x));
    }
    assert forall|x: Seq<char>| #[trigger] remove_one(ts, tok).contains(x) implies ts.contains(x)
        && x != tok by {
        let j = choose|j: int| 0 <= j < ts.len() && ts[j] == x && x != tok;
    }
}

/// Live token list over one attribute value, as a snapshot of distinct
/// tokens.
pub struct DOMTokenList {
    pub items: Vec<Vec<char>>,
}

impl View for DOMTokenList {
    type V = Seq<Seq<char>>;

    open spec fn view(&self) -> Seq<Seq<char>> {
        self.items@.map_values(|v: Vec<char>| v@)
    }
}

/// Whether `v` holds `tok`.
fn contains_chars(v: &Vec<Vec<char>>, tok: &Vec<char>) -> (r: bool)
    ensures
        r == v@.map_values(|x: Vec<char>| x@).contains(tok@),
{
    let n = v.len();
    let ghost m = v@.map_values(|x: Vec<char>| x@);
    let mut i: usize = 0;
    while i < n
        invariant
            n == v@.len(),
            i <= n,
            m == v@.map_values(|x: Vec<char>| x@),
            forall|k: int| 0 <= k < i ==> m[k] != tok@,
        decreases n - i,
    {
        if chars_eq(&v[i], tok) {
            assert(m[i as int] == tok@);
            return true;
        }
        i = i + 1;
    }
    assert forall|k: int| 0 <= k < m.len() implies m[k] != tok@ by {}
    false
}

/// A copy of a character vector.
fn clone_chars(v: &Vec<char>) -> (r: Vec<char>)
    ensures
        r@ == v@,
{
    copy_range(v, 0, v.len())
}

/// Checks one token: its characters when valid, `None` otherwise.
fn check_token(token: &str) -> (r: Option<Vec<char>>)
    ensures
        match r {
            Some(v) => v@ == token@ && valid_token(token@),
            None => !valid_token(token@),
        },
{
    let v = str_to_chars(token);
    let n = v.len();
    if n == 0 {
        return None;
    }
    let mut i: usize = 0;
    while i < n
        invariant
            n == v@.len(),
            v@ == token@,
            i <= n,
            forall|k: int| 0 <= k < i ==> !is_space_spec(#[trigger] v@[k]),
        decreases n - i,
    {
        if is_space(v[i]) {
            return None;
        }
        i = i + 1;
    }
    Some(v)
}

/// Checks a batch of tokens: their characters when all are valid, an error
/// otherwise.
fn check_tokens(tokens: &Vec<String>) -> (r: Result<Vec<Vec<char>>, TokenError>)
    ensures
        (r is Err <==> exists|k: int|
            0 <= k < tokens@.len() && !valid_token((#[trigger] tokens@[k])@)),
        r matches Ok(c) ==> c@.len() == tokens@.len() && forall|q: int|
            0 <= q < c@.len() ==> (#[trigger] c@[q])@ == tokens@[q]@ && valid_token(tokens@[q]@),
{
    let n = tokens.len();
    let mut out: Vec<Vec<char>> = Vec::new();
    let mut i: usize = 0;
    while i < n
        invariant
            n == tokens@.len(),
            i <= n,
            out@.len() == i,
            forall|q: int| 0 <= q < i ==> (#[trigger] out@[q])@ == tokens@[q]@ && valid_token(
                tokens@[q]@,
            ),
        decreases n - i,
    {
        match check_token(tokens[i].as_str()) {
            Some(v) => {
                out.push(v);
            },
            None => {
                proof {
                    assert(!valid_token((tokens@[i as int])@));
                }
                return Err(TokenError);
            },
        }
        i = i + 1;
    }
    proof {
        assert forall|q: int| 0 <= q < tokens@.len() implies valid_token(
            (#[trigger] tokens@[q])@,
        ) by {
            assert((out@[q])@ == tokens@[q]@);
        }
    }
    Ok(out)
}

/// Scans a character sequence into its distinct whitespace-delimited
/// tokens, in first-seen order; every token comes out valid and unrepeated.
pub fn scan_tokens(v: &Vec<char>) -> (items: Vec<Vec<char>>)
    ensures
        items@.map_values(|x: Vec<char>| x@) == tokens_of(v@),
        forall|k: int| 0 <= k < items@.len() ==> valid_token((#[trigger] items@[k])@),
        forall|j: int, k: int| 0 <= j < k < items@.len() ==> items@[j]@ != items@[k]@,
{
    let n = v.len();
    let mut items: Vec<Vec<char>> = Vec::new();
    let mut i: usize = 0;
    proof {
        assert(items@.map_values(|x: Vec<char>| x@) =~= Seq::<Seq<char>>::empty());
        assert(items@.map_values(|x: Vec<char>| x@) + toks_from(
            v@,
            0,
            items@.map_values(|x: Vec<char>| x@),
        ) =~= toks_from(v@, 0, items@.map_values(|x: Vec<char>| x@)));
    }
    while i < n
        invariant
            n == v@.len(),
            i <= n,
            tokens_of(v@) == items@.map_values(|x: Vec<char>| x@) + toks_from(
                v@,
                i as int,
                items@.map_values(|x: Vec<char>| x@),
            ),
            forall|k: int| 0 <= k < items@.len() ==> valid_token((#[trigger] items@[k])@),
            forall|j: int, k: int| 0 <= j < k < items@.len() ==> items@[j]@ != items@[k]@,
        decreases n - i,
    {
        let ghost m0 = items@.map_values(|x: Vec<char>| x@);
        if is_space(v[i]) {
            i = i + 1;
        } else {
            let start = i;
            let mut j = i;
            while j < n && !is_space(v[j])
                invariant
                    start <= j <= n == v@.len(),
                    start < n,
                    !is_space_spec(v@[start as int]),
                    tok_end(v@, start as int) == tok_end(v@, j as int),
                    forall|k: int| start <= k < j ==> !is_space_spec(#[trigger] v@[k]),
                decreases n - j,
            {
                j = j + 1;
            }
            proof {
                assert(tok_end(v@, j as int) == j);
            }
            let tok = copy_range(v, start, j);
            proof {
                assert(tok@ == v@.subrange(start as int, tok_end(v@, start as int)));
                assert(valid_token(tok@));
            }
            if contains_chars(&items, &tok) {
                i = j;
            } else {
                items.push(tok);
                i = j;
                proof {
                    assert forall|q: int| 0 <= q < m0.len() implies m0[q] != tok@ by {
                        if m0[q] == tok@ {
                            assert(m0.contains(tok@));
                        }
                    }
                    assert(items@.map_values(|x: Vec<char>| x@) =~= m0.push(tok@));
                    assert forall|a: int, b: int|
                        0 <= a < b < items@.len() implies items@[a]@ != items@[b]@ by {
                        assert(items@[a]@ == m0[a]);
                        if b + 1 == items@.len() {
                            assert(items@[b]@ == tok@);
                        } else {
                            assert(items@[b]@ == m0[b]);
                        }
                    }
                    assert(tokens_of(v@) =~= items@.map_values(|x: Vec<char>| x@) + toks_from(
                        v@,
                        i as int,
                        items@.map_values(|x: Vec<char>| x@),
                    ));
                }
            }
        }
    }
    proof {
        assert(tokens_of(v@) =~= items@.map_values(|x: Vec<char>| x@));
    }
    items
}

/// Whether `tok` is one of the whitespace-delimited tokens of `v`.
pub fn chars_has_token(v: &Vec<char>, tok: &Vec<char>) -> (r: bool)
    ensures
        r == tokens_of(v@).contains(tok@),
{
    let items = scan_tokens(v);
    contains_chars(&items, tok)
}

impl DOMTokenList {
    /// Materializes the list from one attribute of an element: the
    /// distinct tokens of its current value, or an empty list when the
    /// attribute is missing.  `None` when the tree is already released.
    pub fn of_attribute(node: &crate::tree::DOMNode, name: &str) -> (r: Option<DOMTokenList>)
        requires
            node.wf(),
        ensures
            r matches Some(l) ==> l.wf() && (match crate::dom::attr_value_of(
                node.dom(),
                node.node as int,
                name@,
            ) {
                Some(v) => l@ == tokens_of(v),
                None => l@.len() == 0,
            }),
    {
        let rc = node.tree.upgrade()?;
        let looked = str_to_chars(name);
        match (&*rc).attr_value(node.node, &looked) {
            Some(v) => Some(DOMTokenList { items: scan_tokens(&v) }),
            None => Some(DOMTokenList { items: Vec::new() }),
        }
    }

    /// Every token is valid and no token repeats.
    pub open spec fn wf(self) -> bool {
        &&& forall|k: int| 0 <= k < self@.len() ==> valid_token(#[trigger] self@[k])
        &&& forall|j: int, k: int| 0 <= j < k < self@.len() ==> self@[j] != self@[k]
    }

    /// The number of tokens.
    pub fn len(&self) -> (r: usize)
        ensures
            r == self@.len(),
    {
        self.items.len()
    }

    /// The token at `index`, if any.
    pub fn item(&self, index: usize) -> (r: Option<String>)
        ensures
            index < self@.len() ==> (r matches Some(s) && s@ == self@[index as int]),
            index >= self@.len() ==> r is None,
    {
        if index < self.items.len() {
            assert(self@[index as int] == self.items@[index as int]@);
            Some(chars_to_string(&self.items[index]))
        } else {
            None
        }
    }

    /// The token at a possibly negative position, normalized against the
    /// current length; absent when the position is out of range.
    pub fn get_item(&self, index: i64) -> (r: Option<String>)
        ensures
            match crate::coll::normalized_pos(index as int, self@.len() as int) {
                Some(j) => r matches Some(s) && s@ == self@[j],
                None => r is None,
            },
    {
        match crate::coll::normalize_index(index, self.items.len()) {
            Some(k) => self.item(k),
            None => None,
        }
    }

    /// All tokens, in order.
    pub fn values(&self) -> (r: Vec<String>)
        ensures
            r@.len() == self@.len(),
            forall|k: int| 0 <= k < r@.len() ==> (#[trigger] r@[k])@ == self@[k],
    {
        let n = self.items.len();
        let mut r: Vec<String> = Vec::new();
        let mut i: usize = 0;
        while i < n
            invariant
                n == self.items@.len(),
                i <= n,
                r@.len() == i,
                forall|k: int| 0 <= k < i ==> (#[trigger] r@[k])@ == self@[k],
            decreases n - i,
        {
            assert(self@[i as int] == self.items@[i as int]@);
            r.push(chars_to_string(&self.items[i]));
            i = i + 1;
        }
        r
    }

    /// Whether `token` is in the list.
    pub fn contains(&self, token: &str) -> (r: bool)
        ensures
            r == self@.contains(token@),
    {
        let tok = str_to_chars(token);
        contains_chars(&self.items, &tok)
    }

    /// Materializes the list from an attribute value: its distinct
    /// whitespace-delimited tokens, in first-seen order.
    pub fn from_value(value: &str) -> (r: DOMTokenList)
        ensures
            r@ == tokens_of(value@),
            r.wf(),
    {
        let v = str_to_chars(value);
        let items = scan_tokens(&v);
        DOMTokenList { items }
    }

    /// Adds each token not yet present, preserving first-seen order.
    /// Rejects malformed tokens without changing the list.
    pub fn add(&mut self, tokens: &Vec<String>) -> (r: Result<(), TokenError>)
        requires
            old(self).wf(),
        ensures
            final(self).wf(),
            (r is Err <==> exists|k: int|
                0 <= k < tokens@.len() && !valid_token((#[trigger] tokens@[k])@)),
            r is Err ==> final(self)@ == old(self)@,
            r is Ok ==> final(self)@ == add_all(
                old(self)@,
                tokens@.map_values(|t: String| t@),
                0,
            ),
    {
        let checked = check_tokens(tokens)?;
        let ghost toks = tokens@.map_values(|t: String| t@);
        let n = checked.len();
        let mut k: usize = 0;
        while k < n
            invariant
                self.wf(),
                n == checked@.len() == toks.len(),
                k <= n,
                forall|q: int| 0 <= q < n ==> (#[trigger] checked@[q])@ == toks[q],
                forall|q: int| 0 <= q < n ==> valid_token(#[trigger] toks[q]),
                add_all(old(self)@, toks, 0) == add_all(self@, toks, k as int),
            decreases n - k,
        {
            let ghost before = self@;
            if !contains_chars(&self.items, &checked[k]) {
                self.items.push(clone_chars(&checked[k]));
                proof {
                    assert(self@ =~= before.push(toks[k as int]));
                    assert(self@ == add_one(before, toks[k as int]));
                }
            } else {
                proof {
                    assert(self@ == add_one(before, toks[k as int]));
                }
            }
            k = k + 1;
        }
        Ok(())
    }

    /// Removes each listed token; absent tokens are ignored.  Rejects
    /// malformed tokens without changing the list.
    pub fn remove(&mut self, tokens: &Vec<String>) -> (r: Result<(), TokenError>)
        requires
            old(self).wf(),
        ensures
            final(self).wf(),
            (r is Err <==> exists|k: int|
                0 <= k < tokens@.len() && !valid_token((#[trigger] tokens@[k])@)),
            r is Err ==> final(self)@ == old(self)@,
            r is Ok ==> final(self)@ == remove_all(
                old(self)@,
                tokens@.map_values(|t: String| t@),
                0,
            ),
    {
        let checked = check_tokens(tokens)?;
        let ghost toks = tokens@.map_values(|t: String| t@);
        let n = checked.len();
        let mut k: usize = 0;
        while k < n
            invariant
                self.wf(),
                n == checked@.len() == toks.len(),
                k <= n,
                forall|q: int| 0 <= q < n ==> (#[trigger] checked@[q])@ == toks[q],
                remove_all(old(self)@, toks, 0) == remove_all(self@, toks, k as int),
            decreases n - k,
        {
            self.remove_token(&checked[k]);
            k = k + 1;
        }
        Ok(())
    }

    /// Removes every occurrence of one token.
    fn remove_token(&mut self, tok: &Vec<char>)
        requires
            old(self).wf(),
        ensures
            final(self).wf(),
            final(self)@ == remove_one(old(self)@, tok@),
    {
        let n = self.items.len();
        let mut kept: Vec<Vec<char>> = Vec::new();
        let mut k: usize = 0;
        proof {
            assert(kept@.map_values(|x: Vec<char>| x@) =~= Seq::<Seq<char>>::empty());
            assert(kept@.map_values(|x: Vec<char>| x@) + remove_from(self@, tok@, 0)
                =~= remove_from(self@, tok@, 0));
        }
        while k < n
            invariant
                self.wf(),
                n == self.items@.len(),
                k <= n,
                kept@.map_values(|x: Vec<char>| x@) + remove_from(self@, tok@, k as int)
                    == remove_from(self@, tok@, 0),
            decreases n - k,
        {
            let ghost m0 = kept@.map_values(|x: Vec<char>| x@);
            if !chars_eq(&self.items[k], tok) {
                kept.push(clone_chars(&self.items[k]));
                proof {
                    assert(kept@.map_values(|x: Vec<char>| x@) =~= m0.push(self@[k as int]));
                    assert(kept@.map_values(|x: Vec<char>| x@) + remove_from(
                        self@,
                        tok@,
                        k + 1,
                    ) =~= remove_from(self@, tok@, 0));
                }
            }
            k = k + 1;
        }
        proof {
            assert(kept@.map_values(|x: Vec<char>| x@) =~= remove_from(self@, tok@, 0));
            lemma_remove_from_props(self@, tok@, 0);
        }
        self.items = kept;
        proof {
            let snap = old(self)@;
            assert forall|q: int| 0 <= q < self@.len() implies valid_token(
                #[trigger] self@[q],
            ) by {
                assert(self@.contains(self@[q]));
                let w = choose|w: int| 0 <= w < snap.len() && snap[w] == self@[q];
                assert(valid_token(snap[w]));
            }
        }
    }

    /// Replaces `old_token` by `new_token` in place and reports whether it
    /// was present; a no-op returning `false` when it is absent.  Rejects
    /// malformed tokens without changing the list.
    pub fn replace(&mut self, old_token: &str, new_token: &str) -> (r: Result<bool, TokenError>)
        requires
            old(self).wf(),
        ensures
            final(self).wf(),
            (r is Err <==> !valid_token(old_token@) || !valid_token(new_token@)),
            r is Err ==> final(self)@ == old(self)@,
            r matches Ok(b) ==> b == old(self)@.contains(old_token@),
            r matches Ok(b) && !b ==> final(self)@ == old(self)@,
            r matches Ok(b) && b ==> ({
                if old_token@ == new_token@ {
                    final(self)@ == old(self)@
                } else if old(self)@.contains(new_token@) {
                    final(self)@ == remove_one(old(self)@, old_token@)
                } else {
                    final(self)@ == swap_one(old(self)@, old_token@, new_token@)
                }
            }),
    {
        let from = match check_token(old_token) {
            Some(v) => v,
            None => {
                return Err(TokenError);
            },
        };
        let to = match check_token(new_token) {
            Some(v) => v,
            None => {
                return Err(TokenError);
            },
        };
        if !contains_chars(&self.items, &from) {
            return Ok(false);
        }
        if chars_eq(&from, &to) {
            proof {
                assert(from@ == old_token@ && to@ == new_token@);
            }
            return Ok(true);
        }
        if contains_chars(&self.items, &to) {
            self.remove_token(&from);
            return Ok(true);
        }
        let n = self.items.len();
        let mut k: usize = 0;
        while k < n
            invariant
                n == self.items@.len() == old(self)@.len(),
                k <= n,
                valid_token(from@),
                valid_token(to@),
                forall|q: int| 0 <= q < k ==> self@[q] == (if old(self)@[q] == from@ {
                    to@
                } else {
                    old(self)@[q]
                }),
                forall|q: int| k <= q < n ==> self@[q] == old(self)@[q],
                forall|j: int, q: int| 0 <= j < q < old(self)@.len() ==> old(self)@[j] != old(
                    self,
                )@[q],
                forall|q: int| 0 <= q < old(self)@.len() ==> valid_token(#[trigger] old(self)@[q]),
                !old(self)@.contains(to@),
            decreases n - k,
        {
            if chars_eq(&self.items[k], &from) {
                let copy = copy_range(&to, 0, to.len());
                self.items[k] = copy;
            }
            k = k + 1;
        }
        proof {
            assert forall|q: int| 0 <= q < self@.len() implies self@[q] == swap_one(
                old(self)@,
                from@,
                to@,
            )[q] by {}
            assert(self@ =~= swap_one(old(self)@, from@, to@));
            assert forall|j: int, q: int| 0 <= j < q < self@.len() implies self@[j] != self@[q] by {
                if old(self)@[j] == from@ {
                    if self@[j] == self@[q] {
                        assert(old(self)@[q] == to@);
                        assert(old(self)@.contains(to@));
                    }
                } else if old(self)@[q] == from@ {
                    if self@[j] == self@[q] {
                        assert(old(self)@[j] == to@);
                        assert(old(self)@.contains(to@));
                    }
                }
            }
        }
        Ok(true)
    }

    /// Forces, clears or flips membership of `token` and returns the
    /// resulting membership state.  Rejects malformed tokens without
    /// changing the list.
    pub fn toggle(&mut self, token: &str, force: Option<bool>) -> (r: Result<bool, TokenError>)
        requires
            old(self).wf(),
        ensures
            final(self).wf(),
            (r is Err <==> !valid_token(token@)),
            r is Err ==> final(self)@ == old(self)@,
            r matches Ok(b) ==> b == final(self)@.contains(token@),
            r matches Ok(b) ==> (match force {
                Some(true) => final(self)@ == add_one(old(self)@, token@) && b,
                Some(false) => final(self)@ == remove_one(old(self)@, token@) && !b,
                None => ({
                    if old(self)@.contains(token@) {
                        final(self)@ == remove_one(old(self)@, token@) && !b
                    } else {
                        final(self)@ == add_one(old(self)@, token@) && b
                    }
                }),
            }),
    {
        let tok = match check_token(token) {
            Some(v) => v,
            None => {
                return Err(TokenError);
            },
        };
        let present = contains_chars(&self.items, &tok);
        let insert = match force {
            Some(b) => b,
            None => !present,
        };
        if insert {
            if !present {
                let ghost before = self@;
                self.items.push(tok);
                proof {
                    assert(self@ =~= before.push(token@));
                    lemma_add_membership(before, token@);
                }
            }
            proof {
                lemma_add_membership(old(self)@, token@);
            }
            Ok(true)
        } else {
            if present {
                self.remove_token(&tok);
            } else {
                proof {
                    assert forall|j: int| 0 <= j < self@.len() implies self@[j] != token@ by {
                        if self@[j] == token@ {
                            assert(self@.contains(token@));
                        }
                    }
                    lemma_remove_absent(self@, token@, 0);
                    assert(self@.subrange(0, self@.len() as int) =~= self@);
                }
            }
            proof {
                lemma_remove_membership(old(self)@, token@);
            }
            Ok(false)
        }
    }

    /// The whitespace-joined string of the current tokens.
    pub fn value(&self) -> (r: String)
        ensures
            r@ == join_from(self@, 0),
    {
        let n = self.items.len();
        let mut out: Vec<char> = Vec::new();
        if n == 0 {
            return chars_to_string(&out);
        }
        let mut i: usize = 0;
        while i < n
            invariant
                n == self.items@.len(),
                n >= 1,
                i <= n,
                join_from(self@, 0) == out@ + join_from(self@, i as int),
            decreases n - i,
        {
            assert(self@[i as int] == self.items@[i as int]@);
            crate::ser::push_chars(&mut out, &self.items[i]);
            if i + 1 < n {
                out.push(' ');
                assert(join_from(self@, 0) =~= out@ + join_from(self@, i + 1));
            } else {
                assert(join_from(self@, 0) =~= out@ + join_from(self@, i + 1));
            }
            i = i + 1;
        }
        chars_to_string(&out)
    }
}

} // verus!
