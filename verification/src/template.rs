//! The placeholder engine: a mustache-family template language with
//! `{{ key }}` interpolation and `{{#key}}...{{/key}}` sections that
//! iterate over arrays, render once for other truthy values, and render
//! nothing for `null`, `false` or a missing key.
//!
//! Compilation is two stages — tokenizing the byte string into text and
//! tag tokens, then matching section tags into a node tree — and each
//! stage's executable code is proved equal to its specification.

use vstd::prelude::*;

use crate::text::{find, trimmed, find_sub, trim, slice_range};
use crate::value::{Val, TemplateValue, assoc_lookup};


verus! {

/// The model of one template token.
#[verifier::ext_equal]
pub enum TokenM {
    /// Literal text between tags.
    Text(Seq<u8>),
    /// `{{ key }}`: variable interpolation.
    Var(Seq<u8>),
    /// `{{#key}}`: section start.
    Open(Seq<u8>),
    /// `{{/key}}`: section end.
    Close(Seq<u8>),
}

/// One template token.
pub enum Token {
    Text(Vec<u8>),
    Var(Vec<u8>),
    Open(Vec<u8>),
    Close(Vec<u8>),
}

impl Token {
    /// The token this stands for.
    pub open spec fn deep_view(self) -> TokenM {
        match self {
            Token::Text(t) => TokenM::Text(t@),
            Token::Var(k) => TokenM::Var(k@),
            Token::Open(k) => TokenM::Open(k@),
            Token::Close(k) => TokenM::Close(k@),
        }
    }
}

/// The token list a token vector stands for.
pub open spec fn tokens_view(ts: Seq<Token>) -> Seq<TokenM> {
    Seq::new(
        ts.len(),
        |i: int|
            if 0 <= i < ts.len() {
                ts[i].deep_view()
            } else {
                TokenM::Text(Seq::empty())
            },
    )
}

/// The tag opener `{{`.
pub open spec fn open_pat() -> Seq<u8> {
    seq![123u8, 123]
}

/// The tag closer `}}`.
pub open spec fn close_pat() -> Seq<u8> {
    seq![125u8, 125]
}

/// What the trimmed content `t` of a `{{ ... }}` tag stands for: a
/// section start after `#`, a section end after `/`, else a variable.
pub open spec fn classify(t: Seq<u8>) -> TokenM {
    if t.len() > 0 && t[0] == 35 {
        TokenM::Open(trimmed(t.drop_first()))
    } else if t.len() > 0 && t[0] == 47 {
        TokenM::Close(trimmed(t.drop_first()))
    } else {
        TokenM::Var(t)
    }
}

/// The tokens of `s` from position `p` on: literal text up to each
/// `{{`, then the classified tag up to the matching `}}`. `None` when
/// a `{{` is never closed.
pub open spec fn tokens_from(s: Seq<u8>, p: int) -> Option<Seq<TokenM>>
    decreases s.len() - p,
{
    if p < 0 || p >= s.len() {
        Some(Seq::empty())
    } else {
        match find(s, open_pat(), p) {
            None => Some(seq![TokenM::Text(s.subrange(p, s.len() as int))]),
            Some(o) => match find(s, close_pat(), o + 2) {
                None => None,
                Some(c) => {
                    proof {
                        crate::text::lemma_find_bounds(s, open_pat(), p);
                        crate::text::lemma_find_bounds(s, close_pat(), o + 2);
                    }
                    let tag = classify(trimmed(s.subrange(o + 2, c)));
                    let pre: Seq<TokenM> = if o > p {
                        seq![TokenM::Text(s.subrange(p, o))]
                    } else {
                        Seq::empty()
                    };
                    match tokens_from(s, c + 2) {
                        None => None,
                        Some(rest) => Some(pre + seq![tag] + rest),
                    }
                },
            },
        }
    }
}

/// The tokens of the whole template `s`.
pub open spec fn template_tokens(s: Seq<u8>) -> Option<Seq<TokenM>> {
    tokens_from(s, 0)
}

/// The `{{` marker as bytes.
fn open_marker() -> (r: Vec<u8>)
    ensures
        r@ == open_pat(),
{
    let mut r: Vec<u8> = Vec::new();
    r.push(123);
    r.push(123);
    assert(r@ =~= open_pat());
    r
}

/// The `}}` marker as bytes.
fn close_marker() -> (r: Vec<u8>)
    ensures
        r@ == close_pat(),
{
    let mut r: Vec<u8> = Vec::new();
    r.push(125);
    r.push(125);
    assert(r@ =~= close_pat());
    r
}

/// Builds the token for a tag with raw content `inner`, as `classify`
/// of the trimmed content describes.
fn make_token(inner: &Vec<u8>) -> (r: Token)
    ensures
        r.deep_view() == classify(trimmed(inner@)),
{
    let t = trim(inner);
    if t.len() > 0 && t[0] == 35 {
        let rest = slice_range(&t, 1, t.len());
        assert(rest@ =~= trimmed(inner@).drop_first());
        Token::Open(trim(&rest))
    } else if t.len() > 0 && t[0] == 47 {
        let rest = slice_range(&t, 1, t.len());
        assert(rest@ =~= trimmed(inner@).drop_first());
        Token::Close(trim(&rest))
    } else {
        Token::Var(t)
    }
}

/// Splits `s` into tokens, as `template_tokens` describes; `None` when
/// a tag opened by `{{` is never closed.
#[verifier::loop_isolation(false)]
pub fn tokenize(s: &Vec<u8>) -> (r: Option<Vec<Token>>)
    ensures
        match r {
            Some(toks) => template_tokens(s@) == Some(tokens_view(toks@)),
            None => template_tokens(s@) is None,
        },
{
    let n: usize = s.len();
    let opener = open_marker();
    let closer = close_marker();
    let mut acc: Vec<Token> = Vec::new();
    let mut p: usize = 0;
    while p < n
        invariant
            0 <= p <= n,
            match tokens_from(s@, p as int) {
                Some(rest) => template_tokens(s@) == Some(tokens_view(acc@) + rest),
                None => template_tokens(s@) is None,
            },
        decreases n - p,
    {
        match find_sub(s, &opener, p) {
            None => {
                let text = slice_range(s, p, n);
                acc.push(Token::Text(text));
                proof {
                    assert(tokens_view(acc@) =~= tokens_view(acc@.drop_last()) + seq![
                        TokenM::Text(s@.subrange(p as int, n as int)),
                    ]);
                    assert(tokens_view(acc@.drop_last()) + (seq![
                        TokenM::Text(s@.subrange(p as int, n as int)),
                    ] + Seq::<TokenM>::empty()) =~= tokens_view(acc@));
                }
                p = n;
            },
            Some(o) => {
                proof {
                    crate::text::lemma_find_bounds(s@, open_pat(), p as int);
                }
                match find_sub(s, &closer, o + 2) {
                    None => {
                        return None;
                    },
                    Some(c) => {
                        proof {
                            crate::text::lemma_find_bounds(s@, close_pat(), o + 2);
                        }
                        let ghost acc0 = acc@;
                        if o > p {
                            let text = slice_range(s, p, o);
                            acc.push(Token::Text(text));
                        }
                        let inner = slice_range(s, o + 2, c);
                        let tag = make_token(&inner);
                        acc.push(tag);
                        proof {
                            let pre: Seq<TokenM> = if o > p {
                                seq![TokenM::Text(s@.subrange(p as int, o as int))]
                            } else {
                                Seq::empty()
                            };
                            let tagm = classify(trimmed(s@.subrange(o + 2, c as int)));
                            assert(tokens_view(acc@) =~= tokens_view(acc0) + pre + seq![tagm]);
                            if tokens_from(s@, c + 2) is Some {
                                let rest2 = tokens_from(s@, c + 2)->Some_0;
                                assert((tokens_view(acc0) + pre + seq![tagm]) + rest2 =~= tokens_view(
                                    acc0,
                                ) + (pre + seq![tagm] + rest2));
                            }
                        }
                        p = c + 2;
                    },
                }
            },
        }
    }
    proof {
        assert(tokens_view(acc@) + Seq::<TokenM>::empty() =~= tokens_view(acc@));
    }
    Some(acc)
}

/// The model of one node of a compiled template.
#[verifier::ext_equal]
pub enum NodeM {
    /// Literal text.
    Text(Seq<u8>),
    /// `{{ key }}`: interpolate the value bound to the key.
    Var(Seq<u8>),
    /// `{{#key}} body {{/key}}`: a section over the key's value.
    Section(Seq<u8>, Seq<NodeM>),
}

/// One node of a compiled template.
pub enum Node {
    Text(Vec<u8>),
    Var(Vec<u8>),
    Section(Vec<u8>, Vec<Node>),
}

impl Node {
    /// The node this stands for.
    pub open spec fn deep_view(self) -> NodeM
        decreases self,
    {
        match self {
            Node::Text(t) => NodeM::Text(t@),
            Node::Var(k) => NodeM::Var(k@),
            Node::Section(k, body) => NodeM::Section(
                k@,
                Seq::new(
                    body@.len(),
                    |i: int|
                        if 0 <= i < body@.len() {
                            body@[i].deep_view()
                        } else {
                            NodeM::Text(Seq::empty())
                        },
                ),
            ),
        }
    }
}

/// The node list a node vector stands for.
pub open spec fn nodes_view(ns: Seq<Node>) -> Seq<NodeM> {
    Seq::new(
        ns.len(),
        |i: int|
            if 0 <= i < ns.len() {
                ns[i].deep_view()
            } else {
                NodeM::Text(Seq::empty())
            },
    )
}

/// The first position in `[i, hi)` where a section-end token brings the
/// nesting depth below `depth` section-start tokens.
pub open spec fn close_index(toks: Seq<TokenM>, i: int, hi: int, depth: int) -> Option<int>
    decreases hi - i,
{
    if i < 0 || i >= hi || hi > toks.len() {
        None
    } else {
        match toks[i] {
            TokenM::Open(_) => close_index(toks, i + 1, hi, depth + 1),
            TokenM::Close(_) => if depth == 0 {
                Some(i)
            } else {
                close_index(toks, i + 1, hi, depth - 1)
            },
            _ => close_index(toks, i + 1, hi, depth),
        }
    }
}

/// A found section end lies in `[i, hi)` and is a `Close` token.
pub proof fn lemma_close_index_bounds(toks: Seq<TokenM>, i: int, hi: int, depth: int)
    requires
        0 <= i,
        hi <= toks.len(),
    ensures
        match close_index(toks, i, hi, depth) {
            Some(j) => i <= j < hi && toks[j] is Close,
            None => true,
        },
    decreases hi - i,
{
    if 0 <= i < hi && hi <= toks.len() {
        lemma_close_index_bounds(toks, i + 1, hi, depth + 1);
        lemma_close_index_bounds(toks, i + 1, hi, depth - 1);
        lemma_close_index_bounds(toks, i + 1, hi, depth);
    }
}

/// The nodes compiled from the tokens in `[lo, hi)`: sections match a
/// start tag with the nearest end tag at the same depth. `None` when a
/// section is never closed, closed under another key, or a stray end
/// tag appears.
pub open spec fn parse_from(toks: Seq<TokenM>, lo: int, hi: int) -> Option<Seq<NodeM>>
    decreases hi - lo,
{
    if lo < 0 || hi > toks.len() || lo >= hi {
        Some(Seq::empty())
    } else {
        match toks[lo] {
            TokenM::Text(t) => match parse_from(toks, lo + 1, hi) {
                None => None,
                Some(ns) => Some(seq![NodeM::Text(t)] + ns),
            },
            TokenM::Var(k) => match parse_from(toks, lo + 1, hi) {
                None => None,
                Some(ns) => Some(seq![NodeM::Var(k)] + ns),
            },
            TokenM::Close(_) => None,
            TokenM::Open(k) => {
                proof {
                    lemma_close_index_bounds(toks, lo + 1, hi, 0);
                }
                match close_index(toks, lo + 1, hi, 0) {
                    None => None,
                    Some(j) => if toks[j]->Close_0 == k {
                        match parse_from(toks, lo + 1, j) {
                            None => None,
                            Some(body) => match parse_from(toks, j + 1, hi) {
                                None => None,
                                Some(rest) => Some(seq![NodeM::Section(k, body)] + rest),
                            },
                        }
                    } else {
                        None
                    },
                }
            },
        }
    }
}

/// The compiled form of template `s`: its tokens parsed into nodes.
/// `None` is a compile failure: an unterminated tag or an unmatched
/// section.
pub open spec fn template_nodes(s: Seq<u8>) -> Option<Seq<NodeM>> {
    match template_tokens(s) {
        None => None,
        Some(toks) => parse_from(toks, 0, toks.len() as int),
    }
}

/// Finds the section end matching depth zero in `[i, hi)`, as
/// `close_index` describes.
#[verifier::loop_isolation(false)]
fn find_close(toks: &Vec<Token>, i: usize, hi: usize) -> (r: Option<usize>)
    requires
        i <= hi <= toks@.len(),
    ensures
        match r {
            Some(j) => i <= j < hi && close_index(tokens_view(toks@), i as int, hi as int, 0)
                == Some(j as int),
            None => close_index(tokens_view(toks@), i as int, hi as int, 0) is None,
        },
{
    let mut k: usize = i;
    let mut depth: usize = 0;
    while k < hi
        invariant
            i <= k <= hi,
            depth <= k - i,
            close_index(tokens_view(toks@), i as int, hi as int, 0) == close_index(
                tokens_view(toks@),
                k as int,
                hi as int,
                depth as int,
            ),
        decreases hi - k,
    {
        let is_open = match &toks[k] {
            Token::Open(_) => true,
            _ => false,
        };
        let is_close = match &toks[k] {
            Token::Close(_) => true,
            _ => false,
        };
        proof {
            assert(tokens_view(toks@)[k as int] == toks@[k as int].deep_view());
        }
        if is_close {
            if depth == 0 {
                return Some(k);
            }
            depth = depth - 1;
        } else if is_open {
            depth = depth + 1;
        }
        k = k + 1;
    }
    None
}

/// A compile failure: a `{{` with no `}}`, or sections that do not
/// match up.
#[derive(Clone, Copy, Debug, PartialEq, Eq, Structural)]
pub struct CompileFailure;

/// Parses the tokens in `[lo, hi)` into nodes, as `parse_from`
/// describes.
#[verifier::loop_isolation(false)]
fn parse_range(toks: &Vec<Token>, lo: usize, hi: usize) -> (r: Result<Vec<Node>, CompileFailure>)
    requires
        lo <= hi <= toks@.len(),
    ensures
        match r {
            Ok(ns) => parse_from(tokens_view(toks@), lo as int, hi as int) == Some(nodes_view(ns@)),
            Err(_) => parse_from(tokens_view(toks@), lo as int, hi as int) is None,
        },
    decreases hi - lo,
{
    if lo >= hi {
        let ns: Vec<Node> = Vec::new();
        assert(nodes_view(ns@) =~= Seq::<NodeM>::empty());
        return Ok(ns);
    }
    proof {
        assert(tokens_view(toks@)[lo as int] == toks@[lo as int].deep_view());
    }
    match &toks[lo] {
        Token::Text(t) => {
            let text = slice_range(t, 0, t.len());
            assert(text@ =~= t@);
            match parse_range(toks, lo + 1, hi) {
                Ok(mut ns) => {
                    ns.insert(0, Node::Text(text));
                    proof {
                        let tail = nodes_view(ns@.drop_first());
                        assert(nodes_view(ns@) =~= seq![NodeM::Text(toks@[lo as int]->Text_0@)]
                            + tail);
                    }
                    Ok(ns)
                },
                Err(e) => Err(e),
            }
        },
        Token::Var(k) => {
            let key = slice_range(k, 0, k.len());
            assert(key@ =~= k@);
            match parse_range(toks, lo + 1, hi) {
                Ok(mut ns) => {
                    ns.insert(0, Node::Var(key));
                    proof {
                        let tail = nodes_view(ns@.drop_first());
                        assert(nodes_view(ns@) =~= seq![NodeM::Var(toks@[lo as int]->Var_0@)]
                            + tail);
                    }
                    Ok(ns)
                },
                Err(e) => Err(e),
            }
        },
        Token::Close(_) => Err(CompileFailure),
        Token::Open(k) => {
            let key = slice_range(k, 0, k.len());
            assert(key@ =~= k@);
            match find_close(toks, lo + 1, hi) {
                None => Err(CompileFailure),
                Some(j) => {
                    proof {
                        lemma_close_index_bounds(tokens_view(toks@), lo + 1, hi as int, 0);
                        assert(tokens_view(toks@)[j as int] == toks@[j as int].deep_view());
                        assert(toks@[j as int].deep_view() is Close);
                    }
                    let close_key = match &toks[j] {
                        Token::Close(ck) => ck,
                        _ => {
                            proof {
                                assert(false);
                            }
                            k
                        },
                    };
                    if !crate::text::bytes_eq(close_key, &key) {
                        return Err(CompileFailure);
                    }
                    let body = match parse_range(toks, lo + 1, j) {
                        Ok(body) => body,
                        Err(e) => {
                            return Err(e);
                        },
                    };
                    match parse_range(toks, j + 1, hi) {
                        Ok(mut ns) => {
                            ns.insert(0, Node::Section(key, body));
                            proof {
                                let tail = nodes_view(ns@.drop_first());
                                let kk = toks@[lo as int]->Open_0@;
                                let bodym = nodes_view(body@);
                                let x = ns@[0].deep_view()->Section_1;
                                assert(ns@[0].deep_view() == NodeM::Section(key@, x));
                                assert(x =~= bodym);
                                assert(nodes_view(ns@) =~= seq![NodeM::Section(kk, bodym)] + tail);
                            }
                            Ok(ns)
                        },
                        Err(e) => Err(e),
                    }
                },
            }
        },
    }
}

/// The key `.`, which names the current item of a section.
pub open spec fn dot_key() -> Seq<u8> {
    seq![46u8]
}

/// The value a key names: `.` is the innermost frame itself; any other
/// key is looked up in the nearest enclosing map frame that binds it.
pub open spec fn resolve(stack: Seq<Val>, key: Seq<u8>) -> Option<Val>
    decreases stack.len(),
{
    if stack.len() == 0 {
        None
    } else if key == dot_key() {
        Some(stack.last())
    } else {
        match stack.last() {
            Val::Obj(entries) => match assoc_lookup(entries, key) {
                Some(v) => Some(v),
                None => resolve(stack.drop_last(), key),
            },
            _ => resolve(stack.drop_last(), key),
        }
    }
}

/// The text `true`.
pub open spec fn true_text() -> Seq<u8> {
    seq![116u8, 114, 117, 101]
}

/// The text `false`.
pub open spec fn false_text() -> Seq<u8> {
    seq![102u8, 97, 108, 115, 101]
}

/// The text a resolved value interpolates as: strings stand as they
/// are, integers in decimal, booleans as `true`/`false`; null, a
/// missing key, arrays and maps interpolate as nothing.
pub open spec fn shown(ov: Option<Val>) -> Seq<u8> {
    match ov {
        None => Seq::empty(),
        Some(Val::Null) => Seq::empty(),
        Some(Val::Bool(b)) => if b {
            true_text()
        } else {
            false_text()
        },
        Some(Val::Int(i)) => crate::text::dec_int(i),
        Some(Val::Str(s)) => s,
        Some(Val::Arr(_)) => Seq::empty(),
        Some(Val::Obj(_)) => Seq::empty(),
    }
}

/// The output of the nodes from index `i` on, concatenated.
pub open spec fn render_nodes(ns: Seq<NodeM>, i: int, stack: Seq<Val>) -> Seq<u8>
    decreases ns, 0int, ns.len() - i,
{
    if i < 0 || i >= ns.len() {
        Seq::empty()
    } else {
        render_node(ns[i], stack) + render_nodes(ns, i + 1, stack)
    }
}

/// The output of one node: text stands as it is; a variable
/// interpolates its resolved value; a section over an array renders its
/// body once per element with the element pushed as the current frame,
/// over `null`, `false` or a missing key renders nothing, and over any
/// other value renders its body once with that value pushed.
pub open spec fn render_node(n: NodeM, stack: Seq<Val>) -> Seq<u8>
    decreases n, 0int, 0int,
{
    match n {
        NodeM::Text(t) => t,
        NodeM::Var(k) => shown(resolve(stack, k)),
        NodeM::Section(k, body) => match resolve(stack, k) {
            None => Seq::empty(),
            Some(v) => match v {
                Val::Null => Seq::empty(),
                Val::Bool(b) => if b {
                    render_nodes(body, 0, stack.push(v))
                } else {
                    Seq::empty()
                },
                Val::Arr(items) => render_items(body, items, 0, stack),
                _ => render_nodes(body, 0, stack.push(v)),
            },
        },
    }
}

/// The concatenated output of a section body over the items from index
/// `j` on.
pub open spec fn render_items(body: Seq<NodeM>, items: Seq<Val>, j: int, stack: Seq<Val>) -> Seq<u8>
    decreases body, 1int, items.len() - j,
{
    if j < 0 || j >= items.len() {
        Seq::empty()
    } else {
        render_nodes(body, 0, stack.push(items[j])) + render_items(body, items, j + 1, stack)
    }
}

/// The frame stack a vector of values stands for.
pub open spec fn stack_view(s: Seq<TemplateValue>) -> Seq<Val> {
    Seq::new(
        s.len(),
        |i: int|
            if 0 <= i < s.len() {
                s[i].deep_view()
            } else {
                Val::Null
            },
    )
}

/// Resolves `key` against the frames `stack[0..j]`, as `resolve` of
/// that prefix describes.
#[verifier::loop_isolation(false)]
fn resolve_at<'a>(stack: &'a Vec<TemplateValue>, j: usize, key: &Vec<u8>) -> (r: Option<
    &'a TemplateValue,
>)
    requires
        j <= stack@.len(),
    ensures
        match r {
            Some(v) => resolve(stack_view(stack@).take(j as int), key@) == Some(v.deep_view()),
            None => resolve(stack_view(stack@).take(j as int), key@) is None,
        },
    decreases j,
{
    let ghost pre = stack_view(stack@).take(j as int);
    if j == 0 {
        return None;
    }
    proof {
        assert(pre.last() == stack@[j - 1].deep_view());
        assert(pre.drop_last() =~= stack_view(stack@).take(j - 1));
    }
    if key.len() == 1 && key[0] == 46 {
        proof {
            assert(key@ =~= dot_key());
        }
        return Some(&stack[j - 1]);
    }
    proof {
        assert(key@ != dot_key()) by {
            if key@ == dot_key() {
                assert(key@.len() == 1 && key@[0] == 46);
            }
        }
    }
    match &stack[j - 1] {
        TemplateValue::Obj(entries) => {
            let ghost objm = stack@[j - 1].deep_view()->Obj_0;
            let n: usize = entries.len();
            let mut t: usize = 0;
            proof {
                assert(objm.skip(0) =~= objm);
            }
            while t < n
                invariant
                    0 <= t <= n,
                    n == entries@.len(),
                    assoc_lookup(objm, key@) == assoc_lookup(objm.skip(t as int), key@),
                decreases n - t,
            {
                proof {
                    let ti = t as int;
                    assert(objm[ti] == (entries@[ti].0@, entries@[ti].1.deep_view()));
                    assert(objm.skip(ti).drop_first() =~= objm.skip(ti + 1));
                }
                if crate::text::bytes_eq(&entries[t].0, key) {
                    return Some(&entries[t].1);
                }
                t = t + 1;
            }
            resolve_at(stack, j - 1, key)
        },
        _ => resolve_at(stack, j - 1, key),
    }
}

/// Resolves `key` against the whole frame stack.
fn resolve_frames<'a>(stack: &'a Vec<TemplateValue>, key: &Vec<u8>) -> (r: Option<
    &'a TemplateValue,
>)
    ensures
        match r {
            Some(v) => resolve(stack_view(stack@), key@) == Some(v.deep_view()),
            None => resolve(stack_view(stack@), key@) is None,
        },
{
    proof {
        assert(stack_view(stack@).take(stack@.len() as int) =~= stack_view(stack@));
    }
    resolve_at(stack, stack.len(), key)
}

/// The interpolation text of a resolved value, as `shown` describes.
fn shown_text(v: Option<&TemplateValue>) -> (r: Vec<u8>)
    ensures
        match v {
            Some(tv) => r@ == shown(Some(tv.deep_view())),
            None => r@ == shown(None),
        },
{
    match v {
        None => Vec::new(),
        Some(TemplateValue::Null) => Vec::new(),
        Some(TemplateValue::Bool(b)) => {
            let mut r: Vec<u8> = Vec::new();
            if *b {
                r.push(116);
                r.push(114);
                r.push(117);
                r.push(101);
                assert(r@ =~= true_text());
            } else {
                r.push(102);
                r.push(97);
                r.push(108);
                r.push(115);
                r.push(101);
                assert(r@ =~= false_text());
            }
            r
        },
        Some(TemplateValue::Int(i)) => crate::text::i64_to_dec(*i),
        Some(TemplateValue::Str(s)) => {
            let mut r: Vec<u8> = Vec::new();
            crate::text::append_bytes(&mut r, s);
            assert(r@ =~= s@);
            r
        },
        Some(TemplateValue::Arr(_)) => Vec::new(),
        Some(TemplateValue::Obj(_)) => Vec::new(),
    }
}

/// A copy of the frame stack with `item` pushed as the new innermost
/// frame.
fn pushed_stack(stack: &Vec<TemplateValue>, item: &TemplateValue) -> (r: Vec<TemplateValue>)
    ensures
        stack_view(r@) =~= stack_view(stack@).push(item.deep_view()),
{
    let mut r: Vec<TemplateValue> = Vec::new();
    let n: usize = stack.len();
    let mut i: usize = 0;
    while i < n
        invariant
            0 <= i <= n,
            n == stack@.len(),
            r@.len() == i,
            forall|k: int| #![all_triggers]
                0 <= k < i ==> r@[k].deep_view() == stack@[k].deep_view(),
        decreases n - i,
    {
        let e = crate::value::dup_value(&stack[i]);
        r.push(e);
        i = i + 1;
    }
    let e = crate::value::dup_value(item);
    r.push(e);
    r
}

/// Renders the nodes in order, appending their output to `out`.
#[verifier::loop_isolation(false)]
fn render_nodes_x(ns: &Vec<Node>, stack: &Vec<TemplateValue>, out: &mut Vec<u8>)
    ensures
        final(out)@ == old(out)@ + render_nodes(nodes_view(ns@), 0, stack_view(stack@)),
    decreases ns@, 0int,
{
    let ghost nsv = nodes_view(ns@);
    let ghost sv = stack_view(stack@);
    let n: usize = ns.len();
    let mut i: usize = 0;
    while i < n
        invariant
            0 <= i <= n,
            out@ + render_nodes(nsv, i as int, sv) == old(out)@ + render_nodes(nsv, 0, sv),
        decreases n - i,
    {
        let ghost before = out@;
        render_node_x(&ns[i], stack, out);
        proof {
            assert(nsv[i as int] == ns@[i as int].deep_view());
            assert(out@ + render_nodes(nsv, i + 1, sv) =~= before + (render_node(nsv[i as int], sv)
                + render_nodes(nsv, i + 1, sv)));
        }
        i = i + 1;
    }
    proof {
        assert(out@ + Seq::<u8>::empty() =~= out@);
    }
}

/// Renders one node, appending its output to `out`.
#[verifier::loop_isolation(false)]
fn render_node_x(n: &Node, stack: &Vec<TemplateValue>, out: &mut Vec<u8>)
    ensures
        final(out)@ == old(out)@ + render_node(n.deep_view(), stack_view(stack@)),
    decreases *n, 1int,
{
    let ghost sv = stack_view(stack@);
    match n {
        Node::Text(t) => {
            crate::text::append_bytes(out, t);
        },
        Node::Var(k) => {
            let v = resolve_frames(stack, k);
            let txt = shown_text(v);
            crate::text::append_bytes(out, &txt);
        },
        Node::Section(k, body) => {
            let ghost bodym = n.deep_view()->Section_1;
            proof {
                assert(bodym =~= nodes_view(body@));
            }
            let rv = resolve_frames(stack, k);
            match rv {
                None => {},
                Some(tv) => match tv {
                    TemplateValue::Null => {},
                    TemplateValue::Bool(b) => {
                        if *b {
                            let st2 = pushed_stack(stack, tv);
                            render_nodes_x(body, &st2, out);
                        }
                    },
                    TemplateValue::Arr(items) => {
                        let ghost itemsv = tv.deep_view()->Arr_0;
                        let m: usize = items.len();
                        let mut t: usize = 0;
                        while t < m
                            invariant
                                0 <= t <= m,
                                m == items@.len(),
                                out@ + render_items(bodym, itemsv, t as int, sv) == old(out)@
                                    + render_node(n.deep_view(), sv),
                            decreases m - t,
                        {
                            let ghost before = out@;
                            let st2 = pushed_stack(stack, &items[t]);
                            render_nodes_x(body, &st2, out);
                            proof {
                                assert(itemsv[t as int] == items@[t as int].deep_view());
                                assert(out@ + render_items(bodym, itemsv, t + 1, sv) =~= before + (
                                render_nodes(bodym, 0, sv.push(itemsv[t as int])) + render_items(
                                    bodym,
                                    itemsv,
                                    t + 1,
                                    sv,
                                )));
                            }
                            t = t + 1;
                        }
                        proof {
                            assert(out@ + Seq::<u8>::empty() =~= out@);
                        }
                    },
                    _ => {
                        let st2 = pushed_stack(stack, tv);
                        render_nodes_x(body, &st2, out);
                    },
                },
            }
        },
    }
}

/// Renders compiled nodes against a frame stack whose bottom frame is
/// the data map, returning the output text.
pub fn render_compiled(ns: &Vec<Node>, root: &TemplateValue) -> (r: Vec<u8>)
    ensures
        r@ == render_nodes(nodes_view(ns@), 0, seq![root.deep_view()]),
{
    let mut stack: Vec<TemplateValue> = Vec::new();
    let e = crate::value::dup_value(root);
    stack.push(e);
    let mut out: Vec<u8> = Vec::new();
    proof {
        assert(stack_view(stack@) =~= seq![root.deep_view()]);
    }
    render_nodes_x(ns, &stack, &mut out);
    out
}

/// The interpolation texts of a value list, concatenated in order
/// with no separator.
pub open spec fn shown_concat(items: Seq<Val>) -> Seq<u8>
    decreases items.len(),
{
    if items.len() == 0 {
        Seq::empty()
    } else {
        shown(Some(items[0])) + shown_concat(items.drop_first())
    }
}

/// The escaping policy, at one placeholder: a key bound to a string
/// interpolates the literal string, and the same key bound in the
/// sanitized map interpolates the escaped string.
pub proof fn lemma_escaping_policy(k: Seq<u8>, s: Seq<u8>)
    requires
        k != dot_key(),
    ensures
        render_node(NodeM::Var(k), seq![Val::Obj(seq![(k, Val::Str(s))])]) == s,
        render_node(
            NodeM::Var(k),
            seq![Val::Obj(crate::sanitize::sanitized_entries(seq![(k, Val::Str(s))]))],
        ) == crate::sanitize::html_escaped(s),
{
    let entries = seq![(k, Val::Str(s))];
    let st = seq![Val::Obj(entries)];
    assert(st.last() == Val::Obj(entries));
    assert(assoc_lookup(entries, k) == Some(Val::Str(s)));
    assert(resolve(st, k) == Some(Val::Str(s)));
    let se = crate::sanitize::sanitized_entries(entries);
    assert(se[0] == (k, Val::Str(crate::sanitize::html_escaped(s))));
    assert(se.len() == 1);
    assert(assoc_lookup(se, k) == Some(Val::Str(crate::sanitize::html_escaped(s))));
    let st2 = seq![Val::Obj(se)];
    assert(st2.last() == Val::Obj(se));
    assert(resolve(st2, k) == Some(Val::Str(crate::sanitize::html_escaped(s))));
}

proof fn lemma_items_concatenate(items: Seq<Val>, j: int, stack: Seq<Val>)
    requires
        0 <= j <= items.len(),
    ensures
        render_items(seq![NodeM::Var(dot_key())], items, j, stack) == shown_concat(items.skip(j)),
    decreases items.len() - j,
{
    let body = seq![NodeM::Var(dot_key())];
    if j == items.len() {
        assert(items.skip(j).len() == 0);
    } else {
        lemma_items_concatenate(items, j + 1, stack);
        let st = stack.push(items[j]);
        assert(st.last() == items[j]);
        assert(resolve(st, dot_key()) == Some(items[j]));
        assert(render_nodes(body, 1, st) == Seq::<u8>::empty()) by {
            reveal_with_fuel(render_nodes, 2);
        }
        assert(body[0] == NodeM::Var(dot_key()));
        assert(render_node(body[0], st) == shown(Some(items[j])));
        assert(render_nodes(body, 0, st) =~= shown(Some(items[j])) + Seq::<u8>::empty());
        assert(render_nodes(body, 0, st) =~= shown(Some(items[j])));
        assert(items.skip(j).drop_first() =~= items.skip(j + 1));
        assert(items.skip(j)[0] == items[j]);
        assert(render_items(body, items, j, stack) =~= shown(Some(items[j])) + shown_concat(
            items.skip(j + 1),
        ));
    }
}

/// The iteration law: a section whose body is the current-item
/// placeholder, over a key bound to an array, renders the items'
/// interpolation texts concatenated in order with no separator.
pub proof fn lemma_iteration_concatenates(k: Seq<u8>, items: Seq<Val>, entries: Seq<(Seq<u8>, Val)>)
    requires
        k != dot_key(),
        assoc_lookup(entries, k) == Some(Val::Arr(items)),
    ensures
        render_node(NodeM::Section(k, seq![NodeM::Var(dot_key())]), seq![Val::Obj(entries)])
            == shown_concat(items),
{
    let st = seq![Val::Obj(entries)];
    assert(st.last() == Val::Obj(entries));
    assert(resolve(st, k) == Some(Val::Arr(items)));
    lemma_items_concatenate(items, 0, st);
    assert(items.skip(0) =~= items);
}

/// Compiles template `s`, as `template_nodes` describes.
pub fn compile(s: &Vec<u8>) -> (r: Result<Vec<Node>, CompileFailure>)
    ensures
        match r {
            Ok(ns) => template_nodes(s@) == Some(nodes_view(ns@)),
            Err(_) => template_nodes(s@) is None,
        },
{
    match tokenize(s) {
        None => Err(CompileFailure),
        Some(toks) => parse_range(&toks, 0, toks.len()),
    }
}

} // verus!
