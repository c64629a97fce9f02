//! HTML sanitization of template data: every string value anywhere in a
//! data value is entity-escaped before rendering, unless the caller
//! explicitly allows raw HTML.
//!
//! The escaping itself is done by the `ammonia` crate; its per-character
//! escape table is stated exactly as `escape_byte`, so the contracts of
//! the rendering pipeline pin the sanitized output down to the byte.

use vstd::prelude::*;

use crate::text::is_utf8;
use crate::value::{DataMap, TemplateValue, Val, val_wf};

verus! {

/// What sanitization turns one byte of text into: markup-significant
/// ASCII characters become entity references, all others pass through.
pub open spec fn escape_byte(b: u8) -> Seq<u8> {
    if b == 60 {  // <
        seq![38u8, 108, 116, 59]
    } else if b == 62 {  // >
        seq![38u8, 103, 116, 59]
    } else if b == 34 {  // "
        seq![38u8, 113, 117, 111, 116, 59]
    } else if b == 39 {  // '
        seq![38u8, 97, 112, 111, 115, 59]
    } else if b == 96 {  // `
        seq![38u8, 103, 114, 97, 118, 101, 59]
    } else if b == 47 {  // /
        seq![38u8, 35, 52, 55, 59]
    } else if b == 38 {  // &
        seq![38u8, 97, 109, 112, 59]
    } else if b == 61 {  // =
        seq![38u8, 35, 54, 49, 59]
    } else if b == 32 {  // space
        seq![38u8, 35, 51, 50, 59]
    } else if b == 9 {  // tab
        seq![38u8, 35, 57, 59]
    } else if b == 10 {  // line feed
        seq![38u8, 35, 49, 48, 59]
    } else if b == 12 {  // form feed
        seq![38u8, 35, 49, 50, 59]
    } else if b == 13 {  // carriage return
        seq![38u8, 35, 49, 51, 59]
    } else if b == 0 {  // NUL, replaced by U+FFFD
        seq![38u8, 35, 54, 53, 53, 51, 51, 59]
    } else {
        seq![b]
    }
}

/// The text `s` with every byte escaped per `escape_byte`.
pub open spec fn html_escaped(s: Seq<u8>) -> Seq<u8>
    decreases s.len(),
{
    if s.len() == 0 {
        Seq::empty()
    } else {
        escape_byte(s[0]) + html_escaped(s.drop_first())
    }
}

/// Relies on `ammonia::clean_text`: it walks the characters of the
/// string and replaces each markup-significant ASCII character with the
/// entity reference `escape_byte` lists, passing every other character
/// through verbatim. On bytes that are not valid UTF-8 nothing is
/// claimed.
#[verifier::external_body]
pub(crate) fn clean_text_bytes(src: &Vec<u8>) -> (r: Vec<u8>)
    ensures
        is_utf8(src@) ==> r@ == html_escaped(src@),
{
    match String::from_utf8(src.clone()) {
        Ok(s) => ammonia::clean_text(&s).into_bytes(),
        Err(_) => src.clone(),
    }
}

/// `v` with every string value, recursively, escaped per `html_escaped`;
/// null, booleans and integers pass through unchanged.
pub open spec fn sanitized(v: Val) -> Val
    decreases v,
{
    match v {
        Val::Null => Val::Null,
        Val::Bool(b) => Val::Bool(b),
        Val::Int(i) => Val::Int(i),
        Val::Str(s) => Val::Str(html_escaped(s)),
        Val::Arr(items) => Val::Arr(
            Seq::new(
                items.len(),
                |i: int|
                    if 0 <= i < items.len() {
                        sanitized(items[i])
                    } else {
                        Val::Null
                    },
            ),
        ),
        Val::Obj(entries) => Val::Obj(
            Seq::new(
                entries.len(),
                |i: int|
                    if 0 <= i < entries.len() {
                        (entries[i].0, sanitized(entries[i].1))
                    } else {
                        (Seq::empty(), Val::Null)
                    },
            ),
        ),
    }
}

/// An association list with every value sanitized; keys are untouched.
pub open spec fn sanitized_entries(entries: Seq<(Seq<u8>, Val)>) -> Seq<(Seq<u8>, Val)> {
    Seq::new(
        entries.len(),
        |i: int|
            if 0 <= i < entries.len() {
                (entries[i].0, sanitized(entries[i].1))
            } else {
                (Seq::empty(), Val::Null)
            },
    )
}

/// Escapes every string in `v`, as `sanitized` describes, provided the
/// strings are valid UTF-8.
#[verifier::loop_isolation(false)]
pub fn sanitize_value(v: &TemplateValue) -> (r: TemplateValue)
    ensures
        val_wf(v.deep_view()) ==> r.deep_view() == sanitized(v.deep_view()),
    decreases *v,
{
    match v {
        TemplateValue::Null => TemplateValue::Null,
        TemplateValue::Bool(b) => TemplateValue::Bool(*b),
        TemplateValue::Int(i) => TemplateValue::Int(*i),
        TemplateValue::Str(s) => TemplateValue::Str(clean_text_bytes(s)),
        TemplateValue::Arr(items) => {
            let n: usize = items.len();
            let mut out: Vec<TemplateValue> = Vec::new();
            let mut i: usize = 0;
            while i < n
                invariant
                    0 <= i <= n,
                    n == items@.len(),
                    out@.len() == i,
                    forall|k: int| #![all_triggers]
                        0 <= k < i ==> val_wf(items@[k].deep_view())
                            ==> out@[k].deep_view() == sanitized(items@[k].deep_view()),
                decreases n - i,
            {
                let e = sanitize_value(&items[i]);
                out.push(e);
                i = i + 1;
            }
            let r = TemplateValue::Arr(out);
            proof {
                if val_wf(v.deep_view()) {
                    let x = r.deep_view()->Arr_0;
                    let y = sanitized(v.deep_view())->Arr_0;
                    let src = v.deep_view()->Arr_0;
                    assert(r.deep_view() == Val::Arr(x));
                    assert(sanitized(v.deep_view()) == Val::Arr(y));
                    assert forall|k: int| 0 <= k < x.len() implies x[k] == y[k] by {
                        assert(src[k] == items@[k].deep_view());
                        assert(val_wf(src[k]));
                        assert(x[k] == out@[k].deep_view());
                        assert(y[k] == sanitized(src[k]));
                    }
                    assert(x =~= y);
                }
            }
            r
        },
        TemplateValue::Obj(entries) => {
            let n: usize = entries.len();
            let mut out: Vec<(Vec<u8>, TemplateValue)> = Vec::new();
            let mut i: usize = 0;
            while i < n
                invariant
                    0 <= i <= n,
                    n == entries@.len(),
                    out@.len() == i,
                    forall|k: int| #![all_triggers]
                        0 <= k < i ==> out@[k].0@ == entries@[k].0@
                            && (val_wf(entries@[k].1.deep_view())
                                ==> out@[k].1.deep_view() == sanitized(entries@[k].1.deep_view())),
                decreases n - i,
            {
                let mut kc: Vec<u8> = Vec::new();
                crate::text::append_bytes(&mut kc, &entries[i].0);
                assert(kc@ =~= entries@[i as int].0@);
                let e = sanitize_value(&entries[i].1);
                out.push((kc, e));
                i = i + 1;
            }
            let r = TemplateValue::Obj(out);
            proof {
                if val_wf(v.deep_view()) {
                    let x = r.deep_view()->Obj_0;
                    let y = sanitized(v.deep_view())->Obj_0;
                    let src = v.deep_view()->Obj_0;
                    assert(r.deep_view() == Val::Obj(x));
                    assert(sanitized(v.deep_view()) == Val::Obj(y));
                    assert forall|k: int| 0 <= k < x.len() implies x[k] == y[k] by {
                        assert(src[k] == (entries@[k].0@, entries@[k].1.deep_view()));
                        assert(val_wf(src[k].1));
                        assert(x[k] == (out@[k].0@, out@[k].1.deep_view()));
                        assert(y[k] == (src[k].0, sanitized(src[k].1)));
                    }
                    assert(x =~= y);
                }
            }
            r
        },
    }
}

/// Escapes every value of the map, as `sanitized_entries` describes,
/// provided the map's strings are valid UTF-8.
#[verifier::loop_isolation(false)]
pub fn sanitize_map(m: &DataMap) -> (r: DataMap)
    ensures
        m.wf() ==> r.model() == sanitized_entries(m.model()),
{
    let n: usize = m.entries.len();
    let mut out: Vec<(Vec<u8>, TemplateValue)> = Vec::new();
    let mut i: usize = 0;
    while i < n
        invariant
            0 <= i <= n,
            n == m.entries@.len(),
            out@.len() == i,
            forall|k: int| #![all_triggers]
                0 <= k < i ==> out@[k].0@ == m.entries@[k].0@
                    && (val_wf(m.entries@[k].1.deep_view())
                        ==> out@[k].1.deep_view() == sanitized(m.entries@[k].1.deep_view())),
        decreases n - i,
    {
        let mut kc: Vec<u8> = Vec::new();
        crate::text::append_bytes(&mut kc, &m.entries[i].0);
        assert(kc@ =~= m.entries@[i as int].0@);
        let e = sanitize_value(&m.entries[i].1);
        out.push((kc, e));
        i = i + 1;
    }
    let r = DataMap { entries: out };
    proof {
        if m.wf() {
            let x = r.model();
            let y = sanitized_entries(m.model());
            assert forall|k: int| 0 <= k < x.len() implies x[k] == y[k] by {
                assert(m.model()[k] == (m.entries@[k].0@, m.entries@[k].1.deep_view()));
                assert(val_wf(m.model()[k].1));
                assert(x[k] == (out@[k].0@, out@[k].1.deep_view()));
                assert(y[k] == (m.model()[k].0, sanitized(m.model()[k].1)));
            }
            assert(x =~= y);
        }
    }
    r
}

} // verus!
