use renzora_authoring::nesting::{nesting_within, NESTING_TOO_DEEP};
use renzora_authoring::preprocess::preprocess;
use renzora_authoring::validate::{validate_compile_result, CompileResult, ValidationError};

fn result(fragment: &str, vertex: Option<&str>, errors: Vec<&str>) -> CompileResult<(), (), ()> {
    CompileResult {
        fragment_shader: fragment.to_string(),
        vertex_shader: vertex.map(|v| v.to_string()),
        errors: errors.into_iter().map(|e| e.to_string()).collect(),
        domain: (),
        requires_transmission: false,
        texture_bindings: Vec::new(),
        parameters: Vec::new(),
    }
}

#[test]
fn ifdef_blocks_follow_the_defines() {
    let src = "a\n#ifdef FOO\nb\n#else\nc\n#endif\nd\n";
    assert_eq!(preprocess(src, "S", &[]), "S\na\nc\nd\n");
    assert_eq!(preprocess(src, "S", &["FOO"]), "S\na\nb\nd\n");
}

#[test]
fn imports_are_dropped_and_paths_rewritten() {
    let src = "#import bevy_pbr::forward_io::VertexOutput\nx = pbr_functions::alpha_discard(m, c);\n";
    assert_eq!(
        preprocess(src, "", &[]),
        "\nx = stub_alpha_discard(m, c);\n"
    );
    assert_eq!(
        preprocess("bevy_pbr::prepass_utils::prepass_depth(p, 0u)", "", &[]),
        "\nstub_prepass_depth(p, 0u)\n"
    );
}

#[test]
fn codegen_errors_are_one_fragment_error() {
    let errors = validate_compile_result(&result("", None, vec!["a", "b"])).unwrap_err();
    assert_eq!(errors.len(), 1);
    assert_eq!(errors[0].shader, "fragment");
    assert_eq!(errors[0].defines, "");
    assert_eq!(errors[0].message, "codegen errors: a; b");
}

const GOOD: &str = "@fragment\nfn fragment(in: VertexOutput, @builtin(front_facing) is_front: bool) -> FragmentOutput {\n    var out: FragmentOutput;\n    out.color = saturate(1.0) * vec4<f32>(1.0);\n    return out;\n}\n";

#[test]
fn a_valid_fragment_shader_passes() {
    assert!(validate_compile_result(&result(GOOD, None, vec![])).is_ok());
}

#[test]
fn a_broken_fragment_shader_fails_under_both_configurations() {
    let errors = validate_compile_result(&result("fn f() { let x = vec4<f32>(; }", None, vec![])).unwrap_err();
    assert_eq!(errors.len(), 2);
    assert_eq!(errors[0].defines, "");
    assert_eq!(errors[1].defines, "VERTEX_UVS_A,VERTEX_COLORS");
    assert!(errors[0].to_string().starts_with("[fragment shader, defines: ] "));
}

#[test]
fn the_error_text_names_shader_and_defines() {
    let e = ValidationError { shader: "vertex", defines: "VERTEX_UVS_A".to_string(), message: "boom".to_string() };
    assert_eq!(e.to_string(), "[vertex shader, defines: VERTEX_UVS_A] boom");
}

#[test]
fn an_unset_define_drops_its_block_and_a_set_one_keeps_it() {
    let src = "  #ifdef VERTEX_UVS_A\nuv\n  #endif\nrest";
    assert_eq!(preprocess(src, "", &["VERTEX_UVS_A"]), "\nuv\nrest\n");
    assert_eq!(preprocess(src, "", &["VERTEX_COLORS"]), "\nrest\n");
}

#[test]
fn a_plain_source_passes_through() {
    assert_eq!(preprocess("a\r\nb\n\nc", "S", &["X"]), "S\na\nb\n\nc\n");
}

#[test]
fn a_broken_vertex_shader_fails_on_its_own() {
    let errors = validate_compile_result(&result(GOOD, Some("fn v( {"), vec![])).unwrap_err();
    assert_eq!(errors.len(), 1);
    assert_eq!(errors[0].shader, "vertex");
    assert_eq!(errors[0].defines, "VERTEX_UVS_A");
}

const WRONG_BUILTIN: &str = "@fragment\nfn fragment(in: VertexOutput, @builtin(front_facing) is_front: u32) -> FragmentOutput {\n    var out: FragmentOutput;\n    out.color = vec4<f32>(1.0);\n    return out;\n}\n";

#[test]
fn a_shader_that_parses_but_fails_validation_is_rejected() {
    let errors = validate_compile_result(&result(WRONG_BUILTIN, None, vec![])).unwrap_err();
    assert_eq!(errors.len(), 2);
    assert!(errors[0].message.contains("InvalidBuiltInType"), "{}", errors[0].message);
    assert_eq!(errors[1].defines, "VERTEX_UVS_A,VERTEX_COLORS");
}

#[test]
fn without_ifdef_both_fragment_configurations_agree() {
    let errors = validate_compile_result(&result("fn f() { let x = vec4<f32>(; }", None, vec![])).unwrap_err();
    assert_eq!(errors.len(), 2);
    assert_eq!(errors[0].message, errors[1].message);
    assert!(validate_compile_result(&result(GOOD, None, vec![])).is_ok());
}

#[test]
fn an_ifdef_can_split_the_fragment_configurations() {
    let src = "@fragment\nfn fragment(in: VertexOutput) -> FragmentOutput {\n    var out: FragmentOutput;\n#ifdef VERTEX_COLORS\n    out.color = vec4<f32>(;\n#else\n    out.color = vec4<f32>(1.0);\n#endif\n    return out;\n}\n";
    let errors = validate_compile_result(&result(src, None, vec![])).unwrap_err();
    assert_eq!(errors.len(), 1);
    assert_eq!(errors[0].defines, "VERTEX_UVS_A,VERTEX_COLORS");
}

#[test]
fn a_shader_nesting_too_deeply_is_turned_away_before_naga() {
    let deep = format!(
        "@fragment\nfn fragment(in: VertexOutput) -> FragmentOutput {{\n    var out: FragmentOutput;\n    out.color = vec4<f32>({}1.0{});\n    return out;\n}}\n",
        "(".repeat(5000),
        ")".repeat(5000)
    );
    let errors = validate_compile_result(&result(&deep, None, vec![])).unwrap_err();
    assert_eq!(errors.len(), 2);
    assert_eq!(errors[0].message, NESTING_TOO_DEEP);
    assert_eq!(errors[1].message, NESTING_TOO_DEEP);
}

#[test]
fn nesting_is_counted_outside_comments() {
    assert!(nesting_within("fn f() { let a = (1 + 2) * 3; }"));
    assert!(nesting_within(&"(".repeat(96)));
    assert!(!nesting_within(&"(".repeat(97)));
    // A closing bracket inside a comment does not hide the brackets still open.
    let hidden = format!("{}// {}\n{}", "(".repeat(60), ")".repeat(60), "(".repeat(60));
    assert!(!nesting_within(&hidden));
    let block = format!("{}/* {} */{}", "(".repeat(60), ")".repeat(60), "(".repeat(60));
    assert!(!nesting_within(&block));
    // An operator chain in one statement counts too.
    assert!(!nesting_within(&format!("let a = 1{};", " + 1".repeat(100))));
    assert!(nesting_within(&format!("let a = 1{};", " + 1".repeat(50))));
    assert!(nesting_within(FRAGMENT_STUB_SAMPLE));
}

const FRAGMENT_STUB_SAMPLE: &str = "struct S {\n    a: vec4<f32>,\n    b: vec3<f32>,\n};\n// comment (unbalanced\nfn f(x: mat4x4<f32>) -> vec4<f32> {\n    return x * vec4<f32>(1.0);\n}\n";
