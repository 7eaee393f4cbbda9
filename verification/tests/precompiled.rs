use renzora_authoring::precompiled::{
    artifacts_failed, artifacts_written, default_wgsl_path_for_material, meta_path_for_wgsl, project_relative,
    save_compiled, save_compiled_with_policy, save_with_outcome, InvalidShaderPolicy,
    MaterialGraph, SaveStep,
};
use renzora_authoring::validate::{CompileResult, ValidationError};

const GOOD: &str = "@fragment\nfn fragment(in: VertexOutput, @builtin(front_facing) is_front: bool) -> FragmentOutput {\n    var out: FragmentOutput;\n    out.color = vec4<f32>(0.2, 0.4, 0.8, 1.0);\n    return out;\n}\n";
const BROKEN: &str = "@fragment\nfn fragment(in: VertexOutput) -> FragmentOutput {\n    var out: FragmentOutput;\n    out.color = vec4<f32>(;\n    return out;\n}\n";

fn result(fragment: &str, errors: Vec<&str>) -> CompileResult<&'static str, u32, u32> {
    CompileResult {
        fragment_shader: fragment.to_string(),
        vertex_shader: None,
        errors: errors.into_iter().map(|e| e.to_string()).collect(),
        domain: "surface",
        requires_transmission: true,
        texture_bindings: vec![7],
        parameters: vec![1, 2],
    }
}

fn graph() -> MaterialGraph<u8> {
    MaterialGraph { wgsl_path: None, alpha_mode: 3, double_sided: true }
}

#[test]
fn the_meta_sidecar_appends_meta() {
    assert_eq!(meta_path_for_wgsl("/p/materials/t.wgsl"), "/p/materials/t.wgsl.meta");
    assert_eq!(meta_path_for_wgsl(""), ".meta");
}

#[test]
fn the_default_wgsl_path_swaps_the_extension() {
    assert_eq!(default_wgsl_path_for_material("/p/materials/t.material"), "/p/materials/t.wgsl");
    assert_eq!(default_wgsl_path_for_material("noext"), "noext.wgsl");
}

#[test]
fn project_relative_strips_the_root_and_normalises_slashes() {
    assert_eq!(project_relative("/p", "/p/materials/t.wgsl"), "materials/t.wgsl");
    assert_eq!(project_relative("/p", "/elsewhere/t.wgsl"), "/elsewhere/t.wgsl");
    assert_eq!(project_relative("/p", "/p/a\\b.wgsl"), "a/b.wgsl");
    assert_eq!(project_relative("/p", "/pp/t.wgsl"), "/pp/t.wgsl");
}

/// A graph whose shader naga rejects must leave the last good `.wgsl` alone, keep the graph
/// pointing at it, and say why; `WriteAnyway` must still write.
#[test]
fn invalid_graph_never_overwrites_last_good_wgsl() {
    let mut g = graph();
    match save_compiled(&mut g, "/p", "/p/m/t.material", result(GOOD, vec![])) {
        SaveStep::Write { artifacts, errors } => {
            assert!(errors.is_empty(), "errors: {errors:?}");
            assert_eq!(artifacts.wgsl_fs_path, "/p/m/t.wgsl");
            assert_eq!(artifacts.meta_fs_path, "/p/m/t.wgsl.meta");
            assert_eq!(artifacts.wgsl, GOOD);
            assert_eq!(artifacts.wgsl_link, "m/t.wgsl");
            assert_eq!(artifacts.meta.source_material, "m/t.material");
            assert_eq!(artifacts.meta.domain, "surface");
            assert_eq!(artifacts.meta.alpha_mode, 3);
            assert!(artifacts.meta.double_sided);
            assert!(artifacts.meta.requires_transmission);
            assert_eq!(artifacts.meta.texture_bindings, vec![7]);
            assert_eq!(artifacts.meta.parameters, vec![1, 2]);
            artifacts_written(&mut g, &artifacts);
        }
        SaveStep::Done(errors) => panic!("a valid shader was refused: {errors:?}"),
    }
    assert_eq!(g.wgsl_path.as_deref(), Some("m/t.wgsl"));

    match save_compiled(&mut g, "/p", "/p/m/t.material", result(BROKEN, vec![])) {
        SaveStep::Done(errors) => {
            assert_eq!(errors.len(), 2, "the broken shader must be reported");
            assert!(errors[0].starts_with("[fragment shader, defines: ] "));
            assert!(errors[1].starts_with("[fragment shader, defines: VERTEX_UVS_A,VERTEX_COLORS] "));
        }
        SaveStep::Write { .. } => panic!("a refused save must write nothing"),
    }
    assert_eq!(g.wgsl_path.as_deref(), Some("m/t.wgsl"), "the graph keeps its last good shader");

    match save_compiled_with_policy(
        &mut g,
        "/p",
        "/p/m/t.material",
        result(BROKEN, vec![]),
        InvalidShaderPolicy::WriteAnyway,
    ) {
        SaveStep::Write { artifacts, errors } => {
            assert_eq!(errors.len(), 2);
            assert_eq!(artifacts.wgsl, BROKEN);
        }
        SaveStep::Done(_) => panic!("WriteAnyway must write"),
    }
}

#[test]
fn codegen_errors_clear_the_link_and_write_nothing() {
    let mut g = graph();
    g.wgsl_path = Some("m/t.wgsl".to_string());
    match save_compiled(&mut g, "/p", "/p/m/t.material", result(GOOD, vec!["no output node"])) {
        SaveStep::Done(errors) => assert_eq!(errors, vec!["no output node".to_string()]),
        SaveStep::Write { .. } => panic!("codegen errors must not write"),
    }
    assert_eq!(g.wgsl_path, None);
}

#[test]
fn the_decision_follows_the_validation_outcome() {
    let failure = || {
        Err(vec![ValidationError { shader: "vertex", defines: "VERTEX_UVS_A".to_string(), message: "bad".to_string() }])
    };
    let mut g = graph();
    match save_with_outcome(&mut g, "/p", "/p/t.material", result("", vec![]), failure(), InvalidShaderPolicy::Refuse) {
        SaveStep::Done(errors) => assert_eq!(errors, vec!["[vertex shader, defines: VERTEX_UVS_A] bad".to_string()]),
        SaveStep::Write { .. } => panic!("refused"),
    }
    match save_with_outcome(&mut g, "/p", "/p/t.material", result("", vec![]), failure(), InvalidShaderPolicy::WriteAnyway) {
        SaveStep::Write { errors, artifacts } => {
            assert_eq!(errors, vec!["[vertex shader, defines: VERTEX_UVS_A] bad".to_string()]);
            assert_eq!(artifacts.wgsl_link, "t.wgsl");
        }
        SaveStep::Done(_) => panic!("written anyway"),
    }
    match save_with_outcome(&mut g, "/p", "/p/t.material", result("", vec![]), Ok(()), InvalidShaderPolicy::Refuse) {
        SaveStep::Write { errors, .. } => assert!(errors.is_empty()),
        SaveStep::Done(_) => panic!("a valid outcome writes"),
    }
    assert_eq!(g.wgsl_path, None);
}

#[test]
fn the_default_policy_refuses() {
    assert_eq!(InvalidShaderPolicy::default(), InvalidShaderPolicy::Refuse);
}

#[test]
fn a_failed_write_clears_the_link() {
    let mut g = graph();
    g.wgsl_path = Some("m/t.wgsl".to_string());
    artifacts_failed(&mut g);
    assert_eq!(g.wgsl_path, None);
    assert_eq!(g.alpha_mode, 3);
    assert!(g.double_sided);
}
