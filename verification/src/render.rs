//! The rendering pipeline: resolve a template by name, compose its
//! layouts, merge the global data map, substitute placeholders, and
//! optionally minify the result.
//!
//! Request data takes precedence over globals: merging appends the
//! global bindings after the request's, and lookup takes the first
//! binding of a key.

use vstd::prelude::*;

use crate::layout::{apply_layout, composed};
use crate::sanitize::{sanitize_map, sanitized_entries};
use crate::store::{
    TemplateStore, check_name, file_at, meel_path, meel_path_of, parent_dir, txt_path, txt_path_of,
    valid_name,
};
use crate::template::{
    close_pat, compile, open_pat, render_compiled, render_nodes, template_nodes,
};
use crate::text::{check_utf8, find, is_utf8, trimmed};
use crate::value::{DataMap, TemplateValue, Val, val_wf};

verus! {

/// Why a render call failed: a name that may not be resolved, a
/// missing template file, or a template that does not compile.
#[derive(Clone, Copy, Debug, PartialEq, Eq, Structural)]
pub enum RenderError {
    InvalidName,
    NotFound,
    CompileFailure,
}

/// Whether every value bound in an association list is well-formed.
pub open spec fn entries_wf(entries: Seq<(Seq<u8>, Val)>) -> bool {
    forall|i: int| 0 <= i < entries.len() ==> val_wf(#[trigger] entries[i].1)
}

/// What `minify_html::minify` returns for the given bytes, under the
/// fixed configuration that keeps closing tags.
pub uninterp spec fn minified_of(s: Seq<u8>) -> Seq<u8>;

/// Relies on `minify_html::minify`: HTML-aware minification whose
/// result depends on the input bytes and the fixed configuration
/// alone; closing tags are kept.
#[verifier::external_body]
fn minify_bytes(src: &Vec<u8>) -> (r: Vec<u8>)
    ensures
        r@ == minified_of(src@),
{
    let mut cfg = minify_html::Cfg::new();
    cfg.keep_closing_tags = true;
    minify_html::minify(src.as_slice(), &cfg)
}

/// The data map a render call evaluates against: the request data
/// followed by the globals, sanitized unless raw HTML is allowed.
pub open spec fn effective_entries(
    data: Seq<(Seq<u8>, Val)>,
    globals: Seq<(Seq<u8>, Val)>,
    allow_html: bool,
) -> Seq<(Seq<u8>, Val)> {
    if allow_html {
        data + globals
    } else {
        sanitized_entries(data + globals)
    }
}

/// The output of rendering compiled nodes against a data map: the
/// map is the bottom frame of the stack.
pub open spec fn rendered_against(ns: Seq<crate::template::NodeM>, entries: Seq<(Seq<u8>, Val)>) -> Seq<u8> {
    render_nodes(ns, 0, seq![Val::Obj(entries)])
}

/// The minified form of `out` when it is valid UTF-8, else `out`
/// itself: minification is best-effort and never fails a render.
pub open spec fn minified_or_self(out: Seq<u8>) -> Seq<u8> {
    if is_utf8(minified_of(out)) {
        minified_of(out)
    } else {
        out
    }
}

/// What `render` returns: reject bad names before anything else; fail
/// with `NotFound` when no template body file is stored under the
/// name; compose the layouts from the template's directory up to the
/// root; substitute placeholders against the request data extended by
/// the globals; minify on request, falling back to the unminified
/// output when the minified bytes are not valid UTF-8.
pub open spec fn render_spec(
    files: Seq<(Seq<u8>, Seq<u8>)>,
    globals: Seq<(Seq<u8>, Val)>,
    name: Seq<u8>,
    data: Seq<(Seq<u8>, Val)>,
    allow_html: bool,
    minify: bool,
) -> Result<Seq<u8>, RenderError> {
    if !valid_name(name) {
        Err(RenderError::InvalidName)
    } else {
        match file_at(files, meel_path(name)) {
            None => Err(RenderError::NotFound),
            Some(body) => {
                let comp = composed(files, parent_dir(name), body);
                match template_nodes(comp) {
                    None => Err(RenderError::CompileFailure),
                    Some(ns) => {
                        let out = rendered_against(
                            ns,
                            effective_entries(data, globals, allow_html),
                        );
                        if minify {
                            Ok(minified_or_self(out))
                        } else {
                            Ok(out)
                        }
                    },
                }
            },
        }
    }
}

/// Renders the named template against `data`, as `render_spec`
/// describes. The bytes of an `Ok` result are pinned down whenever raw
/// HTML is allowed or the data's strings are valid UTF-8; which
/// variant is returned is exact in every case.
pub fn render(
    store: &TemplateStore,
    template_name: &Vec<u8>,
    data: &DataMap,
    allow_html: bool,
    minify_html: bool,
) -> (r: Result<Vec<u8>, RenderError>)
    ensures
        ({
            let spec_r = render_spec(
                store.files_model(),
                store.globals.model(),
                template_name@,
                data.model(),
                allow_html,
                minify_html,
            );
            match r {
                Ok(out) => spec_r is Ok && ((allow_html || entries_wf(
                    data.model() + store.globals.model(),
                )) ==> out@ == spec_r->Ok_0),
                Err(e) => spec_r == Err::<Seq<u8>, RenderError>(e),
            }
        }),
{
    if !check_name(template_name) {
        return Err(RenderError::InvalidName);
    }
    let path = meel_path_of(template_name);
    let body = match store.lookup_file(&path) {
        None => {
            return Err(RenderError::NotFound);
        },
        Some(b) => crate::text::slice_range(b, 0, b.len()),
    };
    proof {
        assert(body@ =~= file_at(store.files_model(), meel_path(template_name@))->Some_0);
    }
    let comp = apply_layout(store, template_name, body);
    let merged = data.extended(&store.globals);
    let ghost merged_model = merged.model();
    let eff = if allow_html {
        merged
    } else {
        sanitize_map(&merged)
    };
    proof {
        if !allow_html && entries_wf(data.model() + store.globals.model()) {
            assert(merged_model == data.model() + store.globals.model());
            assert(forall|i: int|
                0 <= i < merged_model.len() ==> val_wf(#[trigger] merged_model[i].1));
            assert(eff.model() == sanitized_entries(merged_model));
        }
    }
    let ns = match compile(&comp) {
        Err(_) => {
            return Err(RenderError::CompileFailure);
        },
        Ok(ns) => ns,
    };
    let root = TemplateValue::Obj(eff.entries);
    proof {
        let x = root.deep_view()->Obj_0;
        assert(root.deep_view() == Val::Obj(x));
        assert(x =~= eff.model());
    }
    let out = render_compiled(&ns, &root);
    if !minify_html {
        return Ok(out);
    }
    let m = minify_bytes(&out);
    if check_utf8(&m) {
        Ok(m)
    } else {
        Ok(out)
    }
}

/// What `apply_placeholders` returns: the compiled template rendered
/// against the map alone — no layout composition and no globals — with
/// every string value sanitized unless raw HTML is allowed.
pub open spec fn apply_placeholders_spec(
    contents: Seq<u8>,
    data: Seq<(Seq<u8>, Val)>,
    allow_html: bool,
) -> Result<Seq<u8>, RenderError> {
    match template_nodes(contents) {
        None => Err(RenderError::CompileFailure),
        Some(ns) => Ok(
            rendered_against(
                ns,
                if allow_html {
                    data
                } else {
                    sanitized_entries(data)
                },
            ),
        ),
    }
}

/// Substitutes placeholders in `contents` against `data`, as
/// `apply_placeholders_spec` describes. The bytes of an `Ok` result
/// are pinned down whenever raw HTML is allowed or the data's strings
/// are valid UTF-8.
pub fn apply_placeholders(contents: &Vec<u8>, data: &DataMap, allow_html: bool) -> (r: Result<
    Vec<u8>,
    RenderError,
>)
    ensures
        ({
            let spec_r = apply_placeholders_spec(contents@, data.model(), allow_html);
            match r {
                Ok(out) => spec_r is Ok && ((allow_html || entries_wf(data.model())) ==> out@
                    == spec_r->Ok_0),
                Err(e) => spec_r == Err::<Seq<u8>, RenderError>(e),
            }
        }),
{
    let ns = match compile(contents) {
        Err(_) => {
            return Err(RenderError::CompileFailure);
        },
        Ok(ns) => ns,
    };
    let eff = if allow_html {
        let empty_map = DataMap::new();
        let copy = data.extended(&empty_map);
        proof {
            assert(data.model() + empty_map.model() =~= data.model());
        }
        copy
    } else {
        sanitize_map(data)
    };
    proof {
        if !allow_html && entries_wf(data.model()) {
            assert(forall|i: int|
                0 <= i < data.model().len() ==> val_wf(#[trigger] data.model()[i].1));
            assert(eff.model() == sanitized_entries(data.model()));
        }
    }
    let root = TemplateValue::Obj(eff.entries);
    proof {
        let x = root.deep_view()->Obj_0;
        assert(root.deep_view() == Val::Obj(x));
        assert(x =~= eff.model());
    }
    let out = render_compiled(&ns, &root);
    Ok(out)
}

/// What `render_plain_text` returns: the plain-text counterpart of the
/// template, rendered with sanitization on and without layout
/// composition.
pub open spec fn render_plain_spec(
    files: Seq<(Seq<u8>, Seq<u8>)>,
    globals: Seq<(Seq<u8>, Val)>,
    name: Seq<u8>,
    data: Seq<(Seq<u8>, Val)>,
) -> Result<Seq<u8>, RenderError> {
    if !valid_name(name) {
        Err(RenderError::InvalidName)
    } else {
        match file_at(files, txt_path(name)) {
            None => Err(RenderError::NotFound),
            Some(body) => match template_nodes(body) {
                None => Err(RenderError::CompileFailure),
                Some(ns) => Ok(rendered_against(ns, sanitized_entries(data + globals))),
            },
        }
    }
}

/// Renders the plain-text counterpart of the named template, as
/// `render_plain_spec` describes; callers treat `NotFound` as "no
/// plain-text part".
pub fn render_plain_text(store: &TemplateStore, template_name: &Vec<u8>, data: &DataMap) -> (r:
    Result<Vec<u8>, RenderError>)
    ensures
        ({
            let spec_r = render_plain_spec(
                store.files_model(),
                store.globals.model(),
                template_name@,
                data.model(),
            );
            match r {
                Ok(out) => spec_r is Ok && (entries_wf(data.model() + store.globals.model())
                    ==> out@ == spec_r->Ok_0),
                Err(e) => spec_r == Err::<Seq<u8>, RenderError>(e),
            }
        }),
{
    if !check_name(template_name) {
        return Err(RenderError::InvalidName);
    }
    let path = txt_path_of(template_name);
    let body = match store.lookup_file(&path) {
        None => {
            return Err(RenderError::NotFound);
        },
        Some(b) => crate::text::slice_range(b, 0, b.len()),
    };
    proof {
        assert(body@ =~= file_at(store.files_model(), txt_path(template_name@))->Some_0);
    }
    let merged = data.extended(&store.globals);
    let ghost merged_model = merged.model();
    let eff = sanitize_map(&merged);
    proof {
        if entries_wf(data.model() + store.globals.model()) {
            assert(merged_model == data.model() + store.globals.model());
            assert(forall|i: int|
                0 <= i < merged_model.len() ==> val_wf(#[trigger] merged_model[i].1));
            assert(eff.model() == sanitized_entries(merged_model));
        }
    }
    let ns = match compile(&body) {
        Err(_) => {
            return Err(RenderError::CompileFailure);
        },
        Ok(ns) => ns,
    };
    let root = TemplateValue::Obj(eff.entries);
    proof {
        let x = root.deep_view()->Obj_0;
        assert(root.deep_view() == Val::Obj(x));
        assert(x =~= eff.model());
    }
    let out = render_compiled(&ns, &root);
    Ok(out)
}

/// The trimmed contents of every `{{ ... }}` tag of `s` from `p` on,
/// section sigils included; `None` when a tag is never closed.
pub open spec fn placeholders_from(s: Seq<u8>, p: int) -> Option<Seq<Seq<u8>>>
    decreases s.len() - p,
{
    if p < 0 || p >= s.len() {
        Some(Seq::empty())
    } else {
        match find(s, open_pat(), p) {
            None => Some(Seq::empty()),
            Some(o) => match find(s, close_pat(), o + 2) {
                None => None,
                Some(c) => {
                    proof {
                        crate::text::lemma_find_bounds(s, open_pat(), p);
                        crate::text::lemma_find_bounds(s, close_pat(), o + 2);
                    }
                    match placeholders_from(s, c + 2) {
                        None => None,
                        Some(rest) => Some(seq![trimmed(s.subrange(o + 2, c))] + rest),
                    }
                },
            },
        }
    }
}

/// What `get_template_placeholders` returns: the tags of the named
/// template after layout composition.
pub open spec fn placeholders_spec(files: Seq<(Seq<u8>, Seq<u8>)>, name: Seq<u8>) -> Result<
    Seq<Seq<u8>>,
    RenderError,
> {
    if !valid_name(name) {
        Err(RenderError::InvalidName)
    } else {
        match file_at(files, meel_path(name)) {
            None => Err(RenderError::NotFound),
            Some(body) => match placeholders_from(composed(files, parent_dir(name), body), 0) {
                None => Err(RenderError::CompileFailure),
                Some(list) => Ok(list),
            },
        }
    }
}

/// The byte-string list a vector of keys stands for.
pub open spec fn keys_view(ks: Seq<Vec<u8>>) -> Seq<Seq<u8>> {
    Seq::new(
        ks.len(),
        |i: int|
            if 0 <= i < ks.len() {
                ks[i]@
            } else {
                Seq::empty()
            },
    )
}

/// Lists the placeholders of the named template, layouts composed, as
/// `placeholders_spec` describes.
#[verifier::loop_isolation(false)]
pub fn get_template_placeholders(store: &TemplateStore, template_name: &Vec<u8>) -> (r: Result<
    Vec<Vec<u8>>,
    RenderError,
>)
    ensures
        ({
            let spec_r = placeholders_spec(store.files_model(), template_name@);
            match r {
                Ok(list) => spec_r == Ok::<Seq<Seq<u8>>, RenderError>(keys_view(list@)),
                Err(e) => spec_r == Err::<Seq<Seq<u8>>, RenderError>(e),
            }
        }),
{
    if !check_name(template_name) {
        return Err(RenderError::InvalidName);
    }
    let path = meel_path_of(template_name);
    let body = match store.lookup_file(&path) {
        None => {
            return Err(RenderError::NotFound);
        },
        Some(b) => crate::text::slice_range(b, 0, b.len()),
    };
    proof {
        assert(body@ =~= file_at(store.files_model(), meel_path(template_name@))->Some_0);
    }
    let comp = apply_layout(store, template_name, body);
    let n: usize = comp.len();
    let opener = {
        let mut v: Vec<u8> = Vec::new();
        v.push(123);
        v.push(123);
        assert(v@ =~= open_pat());
        v
    };
    let closer = {
        let mut v: Vec<u8> = Vec::new();
        v.push(125);
        v.push(125);
        assert(v@ =~= close_pat());
        v
    };
    let mut acc: Vec<Vec<u8>> = Vec::new();
    let mut p: usize = 0;
    while p < n
        invariant
            0 <= p <= n,
            n == comp@.len(),
            match placeholders_from(comp@, p as int) {
                Some(rest) => placeholders_from(comp@, 0) == Some(keys_view(acc@) + rest),
                None => placeholders_from(comp@, 0) is None,
            },
        decreases n - p,
    {
        match crate::text::find_sub(&comp, &opener, p) {
            None => {
                proof {
                    assert(keys_view(acc@) + Seq::<Seq<u8>>::empty() =~= keys_view(acc@));
                }
                p = n;
            },
            Some(o) => {
                proof {
                    crate::text::lemma_find_bounds(comp@, open_pat(), p as int);
                }
                match crate::text::find_sub(&comp, &closer, o + 2) {
                    None => {
                        return Err(RenderError::CompileFailure);
                    },
                    Some(c) => {
                        proof {
                            crate::text::lemma_find_bounds(comp@, close_pat(), o + 2);
                        }
                        let ghost acc0 = acc@;
                        let inner = crate::text::slice_range(&comp, o + 2, c);
                        let key = crate::text::trim(&inner);
                        acc.push(key);
                        proof {
                            let keym = trimmed(comp@.subrange(o + 2, c as int));
                            assert(keys_view(acc@) =~= keys_view(acc0) + seq![keym]);
                            if placeholders_from(comp@, c + 2) is Some {
                                let rest2 = placeholders_from(comp@, c + 2)->Some_0;
                                assert((keys_view(acc0) + seq![keym]) + rest2 =~= keys_view(acc0)
                                    + (seq![keym] + rest2));
                            }
                        }
                        p = c + 2;
                    },
                }
            },
        }
    }
    proof {
        assert(keys_view(acc@) + Seq::<Seq<u8>>::empty() =~= keys_view(acc@));
    }
    Ok(acc)
}


/// Rendering a template with no layout file on its directory chain
/// returns the template's own substituted content, unchanged by slot
/// logic: without minification it equals substituting placeholders
/// into the stored body directly, against the data extended by the
/// globals.
pub proof fn lemma_render_without_layouts(
    files: Seq<(Seq<u8>, Seq<u8>)>,
    globals: Seq<(Seq<u8>, Val)>,
    name: Seq<u8>,
    data: Seq<(Seq<u8>, Val)>,
    allow_html: bool,
)
    requires
        forall|d: Seq<u8>| file_at(files, #[trigger] crate::store::layout_path(d)) is None,
        valid_name(name),
        file_at(files, meel_path(name)) is Some,
    ensures
        render_spec(files, globals, name, data, allow_html, false) == apply_placeholders_spec(
            file_at(files, meel_path(name))->Some_0,
            data + globals,
            allow_html,
        ),
{
    let body = file_at(files, meel_path(name))->Some_0;
    crate::layout::lemma_compose_without_layouts(files, parent_dir(name), body);
}

/// Name validation comes before any file access: an empty name, or a
/// name containing a parent-directory segment, is rejected by every
/// entry point with the same error, whatever the store holds.
pub proof fn lemma_invalid_name_rejected(
    files: Seq<(Seq<u8>, Seq<u8>)>,
    globals: Seq<(Seq<u8>, Val)>,
    name: Seq<u8>,
    data: Seq<(Seq<u8>, Val)>,
    allow_html: bool,
    minify: bool,
)
    requires
        name.len() == 0 || crate::text::contains_sub(name, crate::store::dotdot()),
    ensures
        render_spec(files, globals, name, data, allow_html, minify) == Err::<Seq<u8>, RenderError>(
            RenderError::InvalidName,
        ),
        render_plain_spec(files, globals, name, data) == Err::<Seq<u8>, RenderError>(
            RenderError::InvalidName,
        ),
        placeholders_spec(files, name) == Err::<Seq<Seq<u8>>, RenderError>(
            RenderError::InvalidName,
        ),
{
}

} // verus!
