//! The layout compositor: each directory level between a template and
//! the template root may hold a `layout.meel` file with a slot marker;
//! the template's output replaces every slot marker, and the merged
//! result feeds the parent directory's layout, up to the root. A level
//! without a layout file behaves as the identity layout `<slot />`.
//!
//! A slot marker is `<slot/>`, `<slot />`, or `<slot>` wrapping default
//! content up to the nearest `</slot>` on the same line.

use vstd::prelude::*;

use crate::text::{match_at, find, find_sub, slice_range, append_bytes};
use crate::store::{TemplateStore, file_at, parent_dir, layout_path, layout_path_of};

verus! {

/// The self-closing slot marker `<slot/>`.
pub open spec fn slot_self() -> Seq<u8> {
    seq![60u8, 115, 108, 111, 116, 47, 62]
}

/// The self-closing slot marker with a space, `<slot />`.
pub open spec fn slot_self_spaced() -> Seq<u8> {
    seq![60u8, 115, 108, 111, 116, 32, 47, 62]
}

/// The opening form `<slot>`.
pub open spec fn slot_open() -> Seq<u8> {
    seq![60u8, 115, 108, 111, 116, 62]
}

/// The closing form `</slot>`.
pub open spec fn slot_close() -> Seq<u8> {
    seq![60u8, 47, 115, 108, 111, 116, 62]
}

/// Whether the bytes of `s` in `[from, to)` stay on one line.
pub open spec fn no_newline(s: Seq<u8>, from: int, to: int) -> bool {
    forall|k: int| from <= k < to ==> s[k] != 10
}

/// The length of the slot marker starting at `i`, if one starts there:
/// a self-closing marker, or `<slot>` with its default content up to
/// the nearest `</slot>` with no line break in between.
pub open spec fn slot_match_len(s: Seq<u8>, i: int) -> Option<int> {
    if match_at(s, slot_self(), i) {
        Some(7)
    } else if match_at(s, slot_self_spaced(), i) {
        Some(8)
    } else if match_at(s, slot_open(), i) {
        match find(s, slot_close(), i + 6) {
            None => None,
            Some(j) => if no_newline(s, i + 6, j) {
                Some(j + 7 - i)
            } else {
                None
            },
        }
    } else {
        None
    }
}

pub proof fn lemma_slot_match_len_bounds(s: Seq<u8>, i: int)
    requires
        0 <= i,
    ensures
        match slot_match_len(s, i) {
            Some(l) => 7 <= l && i + l <= s.len(),
            None => true,
        },
{
    if !match_at(s, slot_self(), i) && !match_at(s, slot_self_spaced(), i) && match_at(
        s,
        slot_open(),
        i,
    ) {
        crate::text::lemma_find_bounds(s, slot_close(), i + 6);
    }
}

/// The first slot marker at or after `p`: its position and length.
pub open spec fn first_slot(s: Seq<u8>, p: int) -> Option<(int, int)>
    decreases s.len() - p,
{
    if p < 0 || p >= s.len() {
        None
    } else {
        match slot_match_len(s, p) {
            Some(l) => Some((p, l)),
            None => first_slot(s, p + 1),
        }
    }
}

pub proof fn lemma_first_slot_bounds(s: Seq<u8>, p: int)
    requires
        0 <= p,
    ensures
        match first_slot(s, p) {
            Some(il) => p <= il.0 && slot_match_len(s, il.0) == Some(il.1) && 7 <= il.1 && il.0
                + il.1 <= s.len(),
            None => true,
        },
    decreases s.len() - p,
{
    if 0 <= p < s.len() {
        lemma_slot_match_len_bounds(s, p);
        if slot_match_len(s, p) is None {
            lemma_first_slot_bounds(s, p + 1);
        }
    }
}

/// The text from `p` on with every slot marker replaced by `c`.
pub open spec fn slots_replaced(s: Seq<u8>, c: Seq<u8>, p: int) -> Seq<u8>
    decreases s.len() - p,
{
    if p < 0 || p >= s.len() {
        Seq::empty()
    } else {
        match first_slot(s, p) {
            None => s.subrange(p, s.len() as int),
            Some(il) => {
                proof {
                    lemma_first_slot_bounds(s, p);
                }
                s.subrange(p, il.0) + c + slots_replaced(s, c, il.0 + il.1)
            },
        }
    }
}

/// A layout is the stored `layout.meel` of the directory, or the
/// identity layout `<slot />` where none is stored.
pub open spec fn layout_of(files: Seq<(Seq<u8>, Seq<u8>)>, dir: Seq<u8>) -> Seq<u8> {
    match file_at(files, layout_path(dir)) {
        Some(l) => l,
        None => slot_self_spaced(),
    }
}

/// The layout composition of `content`, from directory `dir` up to the
/// template root: each level's layout has its slot markers replaced by
/// the content merged so far.
pub open spec fn composed(files: Seq<(Seq<u8>, Seq<u8>)>, dir: Seq<u8>, content: Seq<u8>) -> Seq<u8>
    decreases dir.len(),
{
    let merged = slots_replaced(layout_of(files, dir), content, 0);
    if dir.len() == 0 {
        merged
    } else {
        proof {
            crate::store::lemma_last_slash_bounds(dir, dir.len() as int);
        }
        composed(files, parent_dir(dir), merged)
    }
}

/// Whether `pat` occurs in `s` starting exactly at `i`.
fn starts_at(s: &Vec<u8>, pat: &Vec<u8>, i: usize) -> (r: bool)
    requires
        i <= s@.len(),
    ensures
        r == match_at(s@, pat@, i as int),
{
    let n: usize = s.len();
    let m: usize = pat.len();
    if m > n - i {
        return false;
    }
    let mut t: usize = 0;
    while t < m
        invariant
            0 <= t <= m,
            i + m <= n,
            n == s@.len(),
            m == pat@.len(),
            forall|u: int| 0 <= u < t ==> s@[i + u] == pat@[u],
        decreases m - t,
    {
        if s[i + t] != pat[t] {
            assert(!match_at(s@, pat@, i as int)) by {
                if match_at(s@, pat@, i as int) {
                    assert(s@.subrange(i as int, i + m)[t as int] == s@[i + t]);
                }
            }
            return false;
        }
        t = t + 1;
    }
    assert(match_at(s@, pat@, i as int)) by {
        assert(s@.subrange(i as int, i + m) =~= pat@);
    }
    true
}

/// The self-closing marker `<slot/>` as bytes.
fn slot_self_vec() -> (r: Vec<u8>)
    ensures
        r@ == slot_self(),
{
    let mut r: Vec<u8> = Vec::new();
    r.push(60);
    r.push(115);
    r.push(108);
    r.push(111);
    r.push(116);
    r.push(47);
    r.push(62);
    assert(r@ =~= slot_self());
    r
}

/// The spaced self-closing marker `<slot />` as bytes.
pub fn slot_self_spaced_vec() -> (r: Vec<u8>)
    ensures
        r@ == slot_self_spaced(),
{
    let mut r: Vec<u8> = Vec::new();
    r.push(60);
    r.push(115);
    r.push(108);
    r.push(111);
    r.push(116);
    r.push(32);
    r.push(47);
    r.push(62);
    assert(r@ =~= slot_self_spaced());
    r
}

/// The opening marker `<slot>` as bytes.
fn slot_open_vec() -> (r: Vec<u8>)
    ensures
        r@ == slot_open(),
{
    let mut r: Vec<u8> = Vec::new();
    r.push(60);
    r.push(115);
    r.push(108);
    r.push(111);
    r.push(116);
    r.push(62);
    assert(r@ =~= slot_open());
    r
}

/// The closing marker `</slot>` as bytes.
fn slot_close_vec() -> (r: Vec<u8>)
    ensures
        r@ == slot_close(),
{
    let mut r: Vec<u8> = Vec::new();
    r.push(60);
    r.push(47);
    r.push(115);
    r.push(108);
    r.push(111);
    r.push(116);
    r.push(62);
    assert(r@ =~= slot_close());
    r
}

/// The length of the slot marker at `i`, as `slot_match_len` describes.
#[verifier::loop_isolation(false)]
fn slot_len_at(s: &Vec<u8>, i: usize) -> (r: Option<usize>)
    requires
        i <= s@.len(),
    ensures
        match r {
            Some(l) => slot_match_len(s@, i as int) == Some(l as int),
            None => slot_match_len(s@, i as int) is None,
        },
{
    let n: usize = s.len();
    let self1 = slot_self_vec();
    let self2 = slot_self_spaced_vec();
    let opener = slot_open_vec();
    let closer = slot_close_vec();
    if starts_at(s, &self1, i) {
        return Some(7);
    }
    if starts_at(s, &self2, i) {
        return Some(8);
    }
    if !starts_at(s, &opener, i) {
        return None;
    }
    assert(i + 6 <= n);
    match find_sub(s, &closer, i + 6) {
        None => None,
        Some(j) => {
            proof {
                crate::text::lemma_find_bounds(s@, slot_close(), i + 6);
            }
            let mut k: usize = i + 6;
            while k < j
                invariant
                    i + 6 <= k <= j,
                    j < s@.len(),
                    forall|u: int| i + 6 <= u < k ==> s@[u] != 10,
                decreases j - k,
            {
                if s[k] == 10 {
                    proof {
                        assert(!no_newline(s@, i + 6, j as int));
                    }
                    return None;
                }
                k = k + 1;
            }
            assert(j + 7 <= n);
            assert(i + 6 <= j);
            Some(j + 7 - i)
        },
    }
}

/// The first slot marker at or after `p`, as `first_slot` describes.
#[verifier::loop_isolation(false)]
fn find_slot(s: &Vec<u8>, p: usize) -> (r: Option<(usize, usize)>)
    requires
        p <= s@.len(),
    ensures
        match r {
            Some(il) => first_slot(s@, p as int) == Some((il.0 as int, il.1 as int)),
            None => first_slot(s@, p as int) is None,
        },
{
    let n: usize = s.len();
    let mut i: usize = p;
    while i < n
        invariant
            p <= i <= n,
            first_slot(s@, p as int) == first_slot(s@, i as int),
        decreases n - i,
    {
        match slot_len_at(s, i) {
            Some(l) => {
                return Some((i, l));
            },
            None => {
                i = i + 1;
            },
        }
    }
    None
}

/// `s` with every slot marker replaced by `c`, as `slots_replaced`
/// describes.
#[verifier::loop_isolation(false)]
pub fn replace_slots(s: &Vec<u8>, c: &Vec<u8>) -> (r: Vec<u8>)
    ensures
        r@ == slots_replaced(s@, c@, 0),
{
    let n: usize = s.len();
    let mut out: Vec<u8> = Vec::new();
    let mut p: usize = 0;
    while p < n
        invariant
            0 <= p <= n,
            out@ + slots_replaced(s@, c@, p as int) == slots_replaced(s@, c@, 0),
        decreases n - p,
    {
        let ghost before = out@;
        match find_slot(s, p) {
            None => {
                let rest = slice_range(s, p, n);
                append_bytes(&mut out, &rest);
                proof {
                    assert(out@ + Seq::<u8>::empty() =~= before + s@.subrange(p as int, n as int));
                }
                p = n;
            },
            Some((i, l)) => {
                proof {
                    lemma_first_slot_bounds(s@, p as int);
                }
                let pre = slice_range(s, p, i);
                append_bytes(&mut out, &pre);
                append_bytes(&mut out, c);
                proof {
                    assert(out@ + slots_replaced(s@, c@, i + l) =~= before + (s@.subrange(
                        p as int,
                        i as int,
                    ) + c@ + slots_replaced(s@, c@, i + l)));
                }
                p = i + l;
            },
        }
    }
    proof {
        assert(out@ + Seq::<u8>::empty() =~= out@);
    }
    out
}

/// Applies the layouts from directory `dir` up to the root, as
/// `composed` describes.
#[verifier::loop_isolation(false)]
fn apply_layout_from(store: &TemplateStore, dir: Vec<u8>, content: Vec<u8>) -> (r: Vec<u8>)
    ensures
        r@ == composed(store.files_model(), dir@, content@),
    decreases dir@.len(),
{
    let path = layout_path_of(&dir);
    let merged = match store.lookup_file(&path) {
        Some(l) => {
            let lc = slice_range(l, 0, l.len());
            assert(lc@ =~= layout_of(store.files_model(), dir@));
            replace_slots(&lc, &content)
        },
        None => {
            let lc = slot_self_spaced_vec();
            replace_slots(&lc, &content)
        },
    };
    if dir.len() == 0 {
        merged
    } else {
        proof {
            crate::store::lemma_last_slash_bounds(dir@, dir@.len() as int);
        }
        let up = crate::store::parent_of(&dir);
        apply_layout_from(store, up, merged)
    }
}

/// Composes `content` with the layouts of every directory level from
/// the template's own directory up to the template root, as `composed`
/// from the template's parent directory describes.
pub fn apply_layout(store: &TemplateStore, name: &Vec<u8>, content: Vec<u8>) -> (r: Vec<u8>)
    ensures
        r@ == composed(store.files_model(), parent_dir(name@), content@),
{
    let dir = crate::store::parent_of(name);
    apply_layout_from(store, dir, content)
}

/// Replacing the slot of the identity layout `<slot />` hands the
/// content back unchanged.
pub proof fn lemma_identity_layout(c: Seq<u8>)
    ensures
        slots_replaced(slot_self_spaced(), c, 0) == c,
{
    let s = slot_self_spaced();
    assert(!match_at(s, slot_self(), 0)) by {
        if match_at(s, slot_self(), 0) {
            assert(s.subrange(0, 7)[5] == s[5]);
        }
    }
    assert(match_at(s, slot_self_spaced(), 0)) by {
        assert(s.subrange(0, 8) =~= s);
    }
    assert(slot_match_len(s, 0) == Some(8int));
    assert(first_slot(s, 0) == Some((0int, 8int)));
    assert(slots_replaced(s, c, 0) =~= s.subrange(0, 0) + c + slots_replaced(s, c, 8));
    assert(s.subrange(0, 0) + c + Seq::<u8>::empty() =~= c);
}

/// A directory level with no layout file behaves as the identity:
/// composition from `dir` to the root leaves the content unchanged
/// when no directory on the chain stores a layout file.
pub proof fn lemma_compose_without_layouts(
    files: Seq<(Seq<u8>, Seq<u8>)>,
    dir: Seq<u8>,
    content: Seq<u8>,
)
    requires
        forall|d: Seq<u8>| file_at(files, #[trigger] layout_path(d)) is None,
    ensures
        composed(files, dir, content) == content,
    decreases dir.len(),
{
    assert(file_at(files, layout_path(dir)) is None);
    lemma_identity_layout(content);
    if dir.len() != 0 {
        lemma_last_slash_bounds_helper(dir);
        lemma_compose_without_layouts(files, parent_dir(dir), content);
    }
}

proof fn lemma_last_slash_bounds_helper(dir: Seq<u8>)
    requires
        dir.len() > 0,
    ensures
        parent_dir(dir).len() < dir.len(),
{
    crate::store::lemma_last_slash_bounds(dir, dir.len() as int);
}

} // verus!
