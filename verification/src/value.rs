//! The template data model: a closed JSON-like tagged union and the
//! key-to-value map handed to the placeholder engine.
//!
//! The executable types hold byte strings; `Val` is their mathematical
//! model, used by every contract of the rendering pipeline.

use vstd::prelude::*;

use crate::text::is_utf8;

verus! {

/// The model of a template data value.
#[verifier::ext_equal]
pub enum Val {
    Null,
    Bool(bool),
    Int(int),
    Str(Seq<u8>),
    Arr(Seq<Val>),
    Obj(Seq<(Seq<u8>, Val)>),
}

/// A template data value: null, boolean, integer, UTF-8 string, array,
/// or nested map.
#[derive(Debug)]
pub enum TemplateValue {
    Null,
    Bool(bool),
    Int(i64),
    Str(Vec<u8>),
    Arr(Vec<TemplateValue>),
    Obj(Vec<(Vec<u8>, TemplateValue)>),
}

impl TemplateValue {
    /// The mathematical value this datum stands for.
    pub open spec fn deep_view(self) -> Val
        decreases self,
    {
        match self {
            TemplateValue::Null => Val::Null,
            TemplateValue::Bool(b) => Val::Bool(b),
            TemplateValue::Int(i) => Val::Int(i as int),
            TemplateValue::Str(s) => Val::Str(s@),
            TemplateValue::Arr(items) => Val::Arr(
                Seq::new(
                    items@.len(),
                    |i: int|
                        if 0 <= i < items@.len() {
                            items@[i].deep_view()
                        } else {
                            Val::Null
                        },
                ),
            ),
            TemplateValue::Obj(entries) => Val::Obj(
                Seq::new(
                    entries@.len(),
                    |i: int|
                        if 0 <= i < entries@.len() {
                            (entries@[i].0@, entries@[i].1.deep_view())
                        } else {
                            (Seq::empty(), Val::Null)
                        },
                ),
            ),
        }
    }
}

/// Whether every string anywhere in `v` is valid UTF-8, as the values
/// built from Rust strings always are.
pub open spec fn val_wf(v: Val) -> bool
    decreases v,
{
    match v {
        Val::Null => true,
        Val::Bool(_) => true,
        Val::Int(_) => true,
        Val::Str(s) => is_utf8(s),
        Val::Arr(items) => forall|i: int| 0 <= i < items.len() ==> val_wf(#[trigger] items[i]),
        Val::Obj(entries) => forall|i: int|
            0 <= i < entries.len() ==> val_wf(#[trigger] entries[i].1),
    }
}

/// A deep copy of `v`, standing for the same mathematical value.
#[verifier::loop_isolation(false)]
pub fn dup_value(v: &TemplateValue) -> (r: TemplateValue)
    ensures
        r.deep_view() == v.deep_view(),
    decreases *v,
{
    match v {
        TemplateValue::Null => TemplateValue::Null,
        TemplateValue::Bool(b) => TemplateValue::Bool(*b),
        TemplateValue::Int(i) => TemplateValue::Int(*i),
        TemplateValue::Str(s) => {
            let mut c: Vec<u8> = Vec::new();
            crate::text::append_bytes(&mut c, s);
            assert(c@ =~= s@);
            TemplateValue::Str(c)
        },
        TemplateValue::Arr(items) => {
            let n: usize = items.len();
            let mut out: Vec<TemplateValue> = Vec::new();
            let mut i: usize = 0;
            while i < n
                invariant
                    0 <= i <= n,
                    n == items@.len(),
                    out@.len() == i,
                    forall|k: int| #![all_triggers]
                        0 <= k < i ==> out@[k].deep_view() == items@[k].deep_view(),
                decreases n - i,
            {
                let e = dup_value(&items[i]);
                out.push(e);
                i = i + 1;
            }
            let r = TemplateValue::Arr(out);
            proof {
                let x = r.deep_view()->Arr_0;
                let y = v.deep_view()->Arr_0;
                assert(r.deep_view() == Val::Arr(x));
                assert(v.deep_view() == Val::Arr(y));
                assert forall|k: int| 0 <= k < x.len() implies x[k] == y[k] by {
                    assert(x[k] == out@[k].deep_view());
                    assert(y[k] == items@[k].deep_view());
                }
                assert(x =~= y);
            }
            r
        },
        TemplateValue::Obj(entries) => {
            let n: usize = entries.len();
            let mut out: Vec<(Vec<u8>, TemplateValue)> = Vec::new();
            let mut i: usize = 0;
            while i < n
                invariant
                    0 <= i <= n,
                    n == entries@.len(),
                    out@.len() == i,
                    forall|k: int| #![all_triggers]
                        0 <= k < i ==> out@[k].0@ == entries@[k].0@
                            && out@[k].1.deep_view() == entries@[k].1.deep_view(),
                decreases n - i,
            {
                let mut kc: Vec<u8> = Vec::new();
                crate::text::append_bytes(&mut kc, &entries[i].0);
                assert(kc@ =~= entries@[i as int].0@);
                let e = dup_value(&entries[i].1);
                out.push((kc, e));
                i = i + 1;
            }
            let r = TemplateValue::Obj(out);
            proof {
                let x = r.deep_view()->Obj_0;
                let y = v.deep_view()->Obj_0;
                assert(r.deep_view() == Val::Obj(x));
                assert(v.deep_view() == Val::Obj(y));
                assert forall|k: int| 0 <= k < x.len() implies x[k] == y[k] by {
                    assert(x[k] == (out@[k].0@, out@[k].1.deep_view()));
                    assert(y[k] == (entries@[k].0@, entries@[k].1.deep_view()));
                }
                assert(x =~= y);
            }
            r
        },
    }
}

/// First value bound to `key` in an association list, or `None`.
pub open spec fn assoc_lookup(entries: Seq<(Seq<u8>, Val)>, key: Seq<u8>) -> Option<Val>
    decreases entries.len(),
{
    if entries.len() == 0 {
        None
    } else if entries[0].0 == key {
        Some(entries[0].1)
    } else {
        assoc_lookup(entries.drop_first(), key)
    }
}

/// Looking a key up in `a + b` prefers `a`'s binding: entries that come
/// first shadow later ones.
pub proof fn lemma_assoc_lookup_concat(a: Seq<(Seq<u8>, Val)>, b: Seq<(Seq<u8>, Val)>, key: Seq<u8>)
    ensures
        assoc_lookup(a + b, key) == match assoc_lookup(a, key) {
            Some(v) => Some(v),
            None => assoc_lookup(b, key),
        },
    decreases a.len(),
{
    if a.len() == 0 {
        assert(a + b =~= b);
    } else {
        assert((a + b).drop_first() =~= a.drop_first() + b);
        lemma_assoc_lookup_concat(a.drop_first(), b, key);
    }
}

/// The map from placeholder keys to values used when rendering.
/// Lookup returns the first binding of a key, so bindings added in
/// front shadow older ones.
#[derive(Debug)]
pub struct DataMap {
    pub entries: Vec<(Vec<u8>, TemplateValue)>,
}

impl DataMap {
    /// The association list this map stands for.
    pub open spec fn model(self) -> Seq<(Seq<u8>, Val)> {
        Seq::new(self.entries@.len(), |i: int| (self.entries@[i].0@, self.entries@[i].1.deep_view()))
    }

    /// Whether every string in the map, keys aside, is valid UTF-8.
    pub open spec fn wf(self) -> bool {
        forall|i: int| 0 <= i < self.model().len() ==> val_wf(#[trigger] self.model()[i].1)
    }

    /// An empty map.
    pub fn new() -> (r: DataMap)
        ensures
            r.model() =~= Seq::<(Seq<u8>, Val)>::empty(),
    {
        DataMap { entries: Vec::new() }
    }

    /// Binds `key` to `value`, shadowing any existing binding.
    pub fn insert(&mut self, key: Vec<u8>, value: TemplateValue)
        ensures
            final(self).model() =~= seq![(key@, value.deep_view())] + old(self).model(),
    {
        self.entries.insert(0, (key, value));
    }

    /// The first value bound to `key`, if any.
    pub fn get(&self, key: &Vec<u8>) -> (r: Option<&TemplateValue>)
        ensures
            match r {
                Some(v) => assoc_lookup(self.model(), key@) == Some(v.deep_view()),
                None => assoc_lookup(self.model(), key@) is None,
            },
    {
        let n: usize = self.entries.len();
        let mut i: usize = 0;
        proof {
            assert(self.model().skip(0) =~= self.model());
        }
        while i < n
            invariant
                0 <= i <= n,
                n == self.entries@.len(),
                assoc_lookup(self.model(), key@) == assoc_lookup(
                    self.model().skip(i as int),
                    key@,
                ),
            decreases n - i,
        {
            proof {
                assert(self.model().skip(i as int).drop_first() =~= self.model().skip(i + 1));
            }
            if crate::text::bytes_eq(&self.entries[i].0, key) {
                return Some(&self.entries[i].1);
            }
            i = i + 1;
        }
        None
    }

    /// This map followed by `tail`: bindings already present keep
    /// precedence over `tail`'s.
    pub fn extended(&self, tail: &DataMap) -> (r: DataMap)
        ensures
            r.model() =~= self.model() + tail.model(),
    {
        let mut out: Vec<(Vec<u8>, TemplateValue)> = Vec::new();
        let mut i: usize = 0;
        let n: usize = self.entries.len();
        while i < n
            invariant
                0 <= i <= n,
                n == self.entries@.len(),
                out@.len() == i,
                forall|k: int| #![all_triggers]
                    0 <= k < i ==> out@[k].0@ == self.entries@[k].0@
                        && out@[k].1.deep_view() == self.entries@[k].1.deep_view(),
            decreases n - i,
        {
            let mut kc: Vec<u8> = Vec::new();
            crate::text::append_bytes(&mut kc, &self.entries[i].0);
            assert(kc@ =~= self.entries@[i as int].0@);
            let e = dup_value(&self.entries[i].1);
            out.push((kc, e));
            i = i + 1;
        }
        let m: usize = tail.entries.len();
        let mut j: usize = 0;
        while j < m
            invariant
                0 <= j <= m,
                m == tail.entries@.len(),
                n == self.entries@.len(),
                out@.len() == n + j,
                forall|k: int| #![all_triggers]
                    0 <= k < n ==> out@[k].0@ == self.entries@[k].0@
                        && out@[k].1.deep_view() == self.entries@[k].1.deep_view(),
                forall|k: int| #![all_triggers]
                    0 <= k < j ==> out@[n + k].0@ == tail.entries@[k].0@
                        && out@[n + k].1.deep_view() == tail.entries@[k].1.deep_view(),
            decreases m - j,
        {
            let mut kc: Vec<u8> = Vec::new();
            crate::text::append_bytes(&mut kc, &tail.entries[j].0);
            assert(kc@ =~= tail.entries@[j as int].0@);
            let e = dup_value(&tail.entries[j].1);
            out.push((kc, e));
            j = j + 1;
        }
        DataMap { entries: out }
    }
}

} // verus!
