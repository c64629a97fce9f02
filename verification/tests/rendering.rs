//! Tests of the template pipeline: placeholder substitution,
//! sanitization, layout composition, name validation and minification.

use meel::layout::replace_slots;
use meel::render::{
    RenderError, apply_placeholders, get_template_placeholders, render, render_plain_text,
};
use meel::store::TemplateStore;
use meel::value::{DataMap, TemplateValue};

fn b(s: &str) -> Vec<u8> {
    s.as_bytes().to_vec()
}

fn map1(key: &str, value: TemplateValue) -> DataMap {
    let mut m = DataMap::new();
    m.insert(b(key), value);
    m
}

#[test]
fn test_apply_placeholders() {
    assert_eq!(
        apply_placeholders(
            &b("Hello {{ what }}!"),
            &map1("what", TemplateValue::Str(b("World"))),
            false
        )
        .unwrap(),
        b("Hello World!")
    );

    assert_eq!(
        apply_placeholders(
            &b("Hello {{ what }}!"),
            &map1("what", TemplateValue::Str(b("<strong>World</strong>"))),
            true
        )
        .unwrap(),
        b("Hello <strong>World</strong>!")
    );

    assert_eq!(
        apply_placeholders(
            &b("{{#things}}{{.}}{{/things}}"),
            &map1(
                "things",
                TemplateValue::Arr(vec![
                    TemplateValue::Str(b("One")),
                    TemplateValue::Str(b("Two"))
                ])
            ),
            false
        )
        .unwrap(),
        b("OneTwo")
    );
}

#[test]
fn sanitizer_escapes_markup() {
    let out = apply_placeholders(
        &b("Hello {{ what }}!"),
        &map1("what", TemplateValue::Str(b("<strong>World</strong>"))),
        false,
    )
    .unwrap();
    assert_eq!(out, b("Hello &lt;strong&gt;World&lt;&#47;strong&gt;!"));
}

#[test]
fn sanitizer_escapes_spaces_unless_html_allowed() {
    let data = map1("x", TemplateValue::Str(b("a b")));
    assert_eq!(
        apply_placeholders(&b("{{x}}"), &data, false).unwrap(),
        b("a&#32;b")
    );
    assert_eq!(
        apply_placeholders(&b("{{x}}"), &data, true).unwrap(),
        b("a b")
    );
}

#[test]
fn sanitizer_recurses_into_arrays_and_maps() {
    let inner = TemplateValue::Obj(vec![(b("v"), TemplateValue::Str(b("<i>")))]);
    let data = map1("list", TemplateValue::Arr(vec![inner]));
    let out = apply_placeholders(&b("{{#list}}{{v}}{{/list}}"), &data, false).unwrap();
    assert_eq!(out, b("&lt;i&gt;"));
}

#[test]
fn numbers_booleans_and_null_interpolate_plainly() {
    let mut data = DataMap::new();
    data.insert(b("n"), TemplateValue::Int(-7));
    data.insert(b("t"), TemplateValue::Bool(true));
    data.insert(b("f"), TemplateValue::Bool(false));
    data.insert(b("z"), TemplateValue::Null);
    let out = apply_placeholders(&b("{{n}}|{{t}}|{{f}}|{{z}}|{{missing}}"), &data, false).unwrap();
    assert_eq!(out, b("-7|true|false||"));
}

#[test]
fn sections_follow_truthiness() {
    let mut data = DataMap::new();
    data.insert(b("yes"), TemplateValue::Bool(true));
    data.insert(b("no"), TemplateValue::Bool(false));
    data.insert(b("nil"), TemplateValue::Null);
    data.insert(
        b("user"),
        TemplateValue::Obj(vec![(b("name"), TemplateValue::Str(b("Ann")))]),
    );
    let out = apply_placeholders(
        &b("{{#yes}}Y{{/yes}}{{#no}}N{{/no}}{{#nil}}Z{{/nil}}{{#user}}{{name}}{{/user}}"),
        &data,
        false,
    )
    .unwrap();
    assert_eq!(out, b("YAnn"));
}

#[test]
fn unterminated_tag_is_a_compile_failure() {
    let data = DataMap::new();
    assert_eq!(
        apply_placeholders(&b("Hello {{ what"), &data, false),
        Err(RenderError::CompileFailure)
    );
}

#[test]
fn unmatched_sections_are_compile_failures() {
    let data = DataMap::new();
    assert_eq!(
        apply_placeholders(&b("{{#a}}x"), &data, false),
        Err(RenderError::CompileFailure)
    );
    assert_eq!(
        apply_placeholders(&b("{{/a}}x"), &data, false),
        Err(RenderError::CompileFailure)
    );
    assert_eq!(
        apply_placeholders(&b("{{#a}}x{{/b}}"), &data, false),
        Err(RenderError::CompileFailure)
    );
}

#[test]
fn render_without_layout_passes_content_through() {
    let mut store = TemplateStore::new();
    store.add_file(b("t.meel"), b("Hello {{ name }}!"));
    let out = render(
        &store,
        &b("t"),
        &map1("name", TemplateValue::Str(b("Zed"))),
        false,
        false,
    )
    .unwrap();
    assert_eq!(out, b("Hello Zed!"));
}

#[test]
fn nested_layouts_compose_leaf_to_root() {
    let mut store = TemplateStore::new();
    store.add_file(b("a/b/t.meel"), b("{{ v }}"));
    store.add_file(b("a/b/layout.meel"), b("<B><slot /></B>"));
    store.add_file(b("a/layout.meel"), b("<A><slot>default</slot></A>"));
    store.add_file(b("layout.meel"), b("<R><slot/></R>"));
    let out = render(
        &store,
        &b("a/b/t"),
        &map1("v", TemplateValue::Str(b("C"))),
        false,
        false,
    )
    .unwrap();
    assert_eq!(out, b("<R><A><B>C</B></A></R>"));
}

#[test]
fn layout_applies_at_intermediate_level_only() {
    let mut store = TemplateStore::new();
    store.add_file(b("a/t.meel"), b("body"));
    store.add_file(b("a/layout.meel"), b("[<slot />]"));
    let out = render(&store, &b("a/t"), &DataMap::new(), false, false).unwrap();
    assert_eq!(out, b("[body]"));
}

#[test]
fn replace_slots_handles_both_marker_forms() {
    assert_eq!(replace_slots(&b("<A><slot>default</slot></A>"), &b("X")), b("<A>X</A>"));
    assert_eq!(replace_slots(&b("1<slot/>2<slot />3"), &b("-")), b("1-2-3"));
}

#[test]
fn wrapped_slot_does_not_span_lines() {
    let layout = b("<slot>a\nb</slot>");
    assert_eq!(replace_slots(&layout, &b("X")), layout);
}

#[test]
fn invalid_names_fail_before_any_lookup() {
    let store = TemplateStore::new();
    let data = DataMap::new();
    assert_eq!(
        render(&store, &b(""), &data, false, false),
        Err(RenderError::InvalidName)
    );
    assert_eq!(
        render(&store, &b("../secret"), &data, false, false),
        Err(RenderError::InvalidName)
    );
    assert_eq!(
        render_plain_text(&store, &b("a/../b"), &data),
        Err(RenderError::InvalidName)
    );
    assert_eq!(
        get_template_placeholders(&store, &b("..")),
        Err(RenderError::InvalidName)
    );
}

#[test]
fn missing_template_is_not_found() {
    let store = TemplateStore::new();
    let data = DataMap::new();
    assert_eq!(
        render(&store, &b("nope"), &data, false, false),
        Err(RenderError::NotFound)
    );
    assert_eq!(
        render_plain_text(&store, &b("nope"), &data),
        Err(RenderError::NotFound)
    );
}

#[test]
fn plain_text_skips_layouts_and_always_sanitizes() {
    let mut store = TemplateStore::new();
    store.add_file(b("t.txt"), b("Hi {{ who }}"));
    store.add_file(b("layout.meel"), b("<R><slot /></R>"));
    let out = render_plain_text(&store, &b("t"), &map1("who", TemplateValue::Str(b("<x>"))))
        .unwrap();
    assert_eq!(out, b("Hi &lt;x&gt;"));
}

#[test]
fn request_data_takes_precedence_over_globals() {
    let mut store = TemplateStore::new();
    store.add_file(b("t.meel"), b("{{ k }}-{{ g }}"));
    store.globals.insert(b("k"), TemplateValue::Str(b("GLOBAL")));
    store.globals.insert(b("g"), TemplateValue::Str(b("fromglobals")));
    let out = render(
        &store,
        &b("t"),
        &map1("k", TemplateValue::Str(b("request"))),
        false,
        false,
    )
    .unwrap();
    assert_eq!(out, b("request-fromglobals"));
}

#[test]
fn minification_tightens_whitespace() {
    let mut store = TemplateStore::new();
    store.add_file(b("t.meel"), b("<p>  Hello, world!  </p>"));
    let data = DataMap::new();
    let plain = render(&store, &b("t"), &data, false, false).unwrap();
    let tight = render(&store, &b("t"), &data, false, true).unwrap();
    assert_eq!(plain, b("<p>  Hello, world!  </p>"));
    assert_eq!(tight, b("<p>Hello, world!</p>"));
    assert_ne!(plain, tight);
}

#[test]
fn placeholders_are_listed_with_sigils() {
    let mut store = TemplateStore::new();
    store.add_file(b("t.meel"), b("{{ a }}{{#list}}{{.}}{{/list}}"));
    let list = get_template_placeholders(&store, &b("t")).unwrap();
    assert_eq!(list, vec![b("a"), b("#list"), b("."), b("/list")]);
}

#[test]
fn placeholders_include_those_of_layouts() {
    let mut store = TemplateStore::new();
    store.add_file(b("t.meel"), b("{{ inner }}"));
    store.add_file(b("layout.meel"), b("{{ outer }}<slot />"));
    let list = get_template_placeholders(&store, &b("t")).unwrap();
    assert_eq!(list, vec![b("outer"), b("inner")]);
}
