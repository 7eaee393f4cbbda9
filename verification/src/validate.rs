//! Runs generated material shaders through naga, the same front end wgpu compiles them with, so
//! an invalid shader is reported when the material is saved rather than at draw time.
//!
//! Generated shaders open with Bevy `#import` lines that naga does not understand; those lines
//! are stripped and [`FRAGMENT_STUB`] / [`VERTEX_STUB`] stand in for what they would have brought.

use vstd::prelude::*;
use vstd::string::StringExecFns;
use crate::preprocess::{law_defines_act_only_through_ifdef, opens_ifdef, preprocess, preprocessed, str_views};
use crate::text::lines;
use crate::nesting::{nesting_depth, nesting_within, MAX_NESTING, NESTING_TOO_DEEP};
use crate::text::{join, join_strings};

verus! {

/// naga's verdict on a WGSL source, every validation stage and capability enabled: `None` when
/// the front end parses it and the validator accepts the module, otherwise the diagnostic. It is
/// a function of the source text alone: parsing is deterministic, and the validator starts afresh
/// on every module.
pub uninterp spec fn wgsl_check(source: Seq<char>) -> Option<Seq<char>>;

/// The verdict on one preprocessed configuration: a source nesting deeper than [`MAX_NESTING`]
/// is turned away with [`NESTING_TOO_DEEP`] before naga sees it; otherwise naga's verdict.
pub open spec fn verdict(source: Seq<char>) -> Option<Seq<char>> {
    if nesting_depth(source) > MAX_NESTING {
        Some(NESTING_TOO_DEEP@)
    } else {
        wgsl_check(source)
    }
}

/// Whether a preprocessed configuration is accepted: it nests within [`MAX_NESTING`] and naga
/// parses and validates it (`wgsl_check` gives `None`).
pub open spec fn accepted(source: Seq<char>) -> bool {
    verdict(source) is None
}

/// Runs `source` through naga: `naga::front::wgsl::parse_str`, then, for a parsed module,
/// `naga::valid::Validator::new` with every validation stage and capability enabled and
/// `Validator::validate`. The diagnostic is `ParseError::emit_to_string` for a parse error and the
/// validation error's debug rendering otherwise. Trusted: the outcome, read as values, is named
/// `wgsl_check` of the source. The front end's documentation warns that deep nesting may exhaust
/// a thread's stack before its own recursion limit answers with an error; `requires` admits only
/// sources within [`MAX_NESTING`], which keeps the parser's recursion far below that limit and
/// bounds the depth of the tree that lowering and validation walk.
#[verifier::external_body]
fn check_wgsl(source: &str) -> (r: Option<String>)
    requires
        nesting_depth(source@) <= MAX_NESTING,
    ensures
        match r {
            None => wgsl_check(source@) is None,
            Some(m) => wgsl_check(source@) == Some(m@),
        },
{
    match naga::front::wgsl::parse_str(source) {
        Ok(module) => match naga::valid::Validator::new(
            naga::valid::ValidationFlags::all(),
            naga::valid::Capabilities::all(),
        ).validate(&module) {
            Ok(_) => None,
            Err(err) => Some(format!("{err:?}")),
        },
        Err(err) => Some(err.emit_to_string(source)),
    }
}

/// One shader configuration that failed validation.
pub struct ValidationError {
    /// Which generated shader failed: `"fragment"` or `"vertex"`.
    pub shader: &'static str,
    /// The pipeline defines the shader was validated under, joined by `,`.
    pub defines: String,
    /// The diagnostic against the stubbed shader source.
    pub message: String,
}

impl View for ValidationError {
    type V = (Seq<char>, Seq<char>, Seq<char>);

    open spec fn view(&self) -> Self::V {
        (self.shader@, self.defines@, self.message@)
    }
}

/// How a validation error reads: `[{shader} shader, defines: {defines}] {message}`.
pub open spec fn error_text(e: (Seq<char>, Seq<char>, Seq<char>)) -> Seq<char> {
    "["@ + e.0 + " shader, defines: "@ + e.1 + "] "@ + e.2
}

impl ValidationError {
    /// The error as one line of text.
    pub fn to_string(&self) -> (s: String)
        ensures
            s@ == error_text(self@),
    {
        let mut s = String::from_str("[");
        s.append(self.shader);
        s.append(" shader, defines: ");
        s.append(self.defines.as_str());
        s.append("] ");
        s.append(self.message.as_str());
        s
    }
}

/// What codegen hands over for one material graph: the generated shaders, the codegen errors,
/// and the material description that travels into the compiled artifact's sidecar unread.
pub struct CompileResult<Domain, Binding, Param> {
    pub fragment_shader: String,
    pub vertex_shader: Option<String>,
    pub errors: Vec<String>,
    pub domain: Domain,
    pub requires_transmission: bool,
    pub texture_bindings: Vec<Binding>,
    pub parameters: Vec<Param>,
}

/// Stub of everything `#import` would have brought into the fragment shader, mirroring
/// bevy_pbr 0.19.1 and bevy_render 0.19.1: only the members generated code can reference.
pub const FRAGMENT_STUB: &'static str = r#"
struct View {
    clip_from_world: mat4x4<f32>,
    clip_from_view: mat4x4<f32>,
    world_position: vec3<f32>,
    viewport: vec4<f32>,
};
@group(0) @binding(0) var<uniform> view: View;

struct Globals {
    time: f32,
    delta_time: f32,
    frame_count: u32,
};
@group(0) @binding(1) var<uniform> globals: Globals;

struct VertexOutput {
    @builtin(position) position: vec4<f32>,
    @location(0) world_position: vec4<f32>,
    @location(1) world_normal: vec3<f32>,
    @location(2) uv: vec2<f32>,
    @location(5) color: vec4<f32>,
    // MeshPipeline defines VERTEX_OUTPUT_INSTANCE_INDEX unconditionally
    // (mesh.rs), so the real struct always carries this for our materials.
    @location(6) @interpolate(flat) instance_index: u32,
};

struct FragmentOutput {
    @location(0) color: vec4<f32>,
};

struct StandardMaterial {
    base_color: vec4<f32>,
    emissive: vec4<f32>,
    reflectance: vec3<f32>,
    perceptual_roughness: f32,
    metallic: f32,
    diffuse_transmission: f32,
    specular_transmission: f32,
    thickness: f32,
    ior: f32,
    attenuation_distance: f32,
    clearcoat: f32,
    clearcoat_perceptual_roughness: f32,
    anisotropy_strength: f32,
    anisotropy_rotation: vec2<f32>,
};

struct PbrInput {
    material: StandardMaterial,
    diffuse_occlusion: vec3<f32>,
    world_position: vec4<f32>,
    world_normal: vec3<f32>,
    N: vec3<f32>,
    V: vec3<f32>,
};

fn pbr_input_from_standard_material(in: VertexOutput, is_front: bool) -> PbrInput {
    var pbr_input: PbrInput;
    return pbr_input;
}

fn stub_alpha_discard(material: StandardMaterial, output_color: vec4<f32>) -> vec4<f32> {
    return output_color;
}

fn stub_apply_pbr_lighting(in: PbrInput) -> vec4<f32> {
    return in.material.base_color;
}

fn stub_main_pass_post_lighting_processing(pbr_input: PbrInput, input_color: vec4<f32>) -> vec4<f32> {
    return input_color;
}

// `saturate` reaches the real shader transitively through the pbr_functions
// import; codegen calls it bare.
fn saturate(x: f32) -> f32 {
    return clamp(x, 0.0, 1.0);
}

// Referenced only under the prepass #ifdef branches, which validation never
// defines — declared so the day those branches are exercised the stubs exist.
fn stub_prepass_depth(frag_coord: vec4<f32>, sample_index: u32) -> f32 {
    return 1.0;
}
fn stub_prepass_normal(frag_coord: vec4<f32>, sample_index: u32) -> vec3<f32> {
    return vec3<f32>(0.0, 0.0, 1.0);
}
fn stub_prepass_motion_vector(frag_coord: vec4<f32>, sample_index: u32) -> vec2<f32> {
    return vec2<f32>(0.0, 0.0);
}

// Imported by transmission graphs.
@group(0) @binding(2) var view_transmission_texture: texture_2d<f32>;
@group(0) @binding(3) var view_transmission_sampler: sampler;
// Imported by environment-map graphs (single-map branch of
// MULTIPLE_LIGHT_PROBES_IN_ARRAY, the one validation takes).
@group(0) @binding(4) var specular_environment_map: texture_cube<f32>;
@group(0) @binding(5) var environment_map_sampler: sampler;

// `mesh_functions::get_world_from_local` — referenced by
// `input/object_position` under the gated `mesh_functions` import.
fn stub_get_world_from_local(instance_index: u32) -> mat4x4<f32> {
    return mat4x4<f32>();
}
"#;

/// Stub for the vegetation domain's vertex stage (`mesh_functions`, `forward_io::Vertex`,
/// `mesh_view_bindings::{view, globals}`).
pub const VERTEX_STUB: &'static str = r#"
struct Vertex {
    @builtin(instance_index) instance_index: u32,
    @location(0) position: vec3<f32>,
    @location(1) normal: vec3<f32>,
    @location(2) uv: vec2<f32>,
};

struct VertexOutput {
    @builtin(position) position: vec4<f32>,
    @location(0) world_position: vec4<f32>,
    @location(1) world_normal: vec3<f32>,
    @location(2) uv: vec2<f32>,
};

struct View {
    clip_from_world: mat4x4<f32>,
};
@group(0) @binding(0) var<uniform> view: View;

struct Globals {
    time: f32,
    delta_time: f32,
    frame_count: u32,
};
@group(0) @binding(1) var<uniform> globals: Globals;

fn stub_get_world_from_local(instance_index: u32) -> mat4x4<f32> {
    return mat4x4<f32>();
}
fn stub_mesh_position_local_to_world(world_from_local: mat4x4<f32>, vertex_position: vec4<f32>) -> vec4<f32> {
    return world_from_local * vertex_position;
}
fn stub_mesh_normal_local_to_world(vertex_normal: vec3<f32>, instance_index: u32) -> vec3<f32> {
    return vertex_normal;
}
"#;

/// A validation error as values: shader, defines, message.
pub type ErrorView = (Seq<char>, Seq<char>, Seq<char>);

/// The errors, as values.
pub open spec fn errors_view(v: Seq<ValidationError>) -> Seq<ErrorView> {
    v.map_values(|e: ValidationError| e@)
}

/// A validation outcome as values: `None` for `Ok`, the errors for `Err`.
pub open spec fn outcome_view(res: Result<(), Vec<ValidationError>>) -> Option<Seq<ErrorView>> {
    match res {
        Ok(_) => None,
        Err(v) => Some(errors_view(v@)),
    }
}

/// One configuration a compile result is validated under: the shader's name, the pipeline
/// defines, and the preprocessed source naga is given.
pub type Check = (Seq<char>, Seq<Seq<char>>, Seq<char>);

/// The defines of the fragment shader's second configuration.
pub open spec fn mesh_attribute_defines() -> Seq<Seq<char>> {
    seq!["VERTEX_UVS_A"@, "VERTEX_COLORS"@]
}

/// The configurations a compile result is validated under, in order: the fragment shader with
/// no defines, the fragment shader with the mesh-attribute defines, and the vertex shader, if
/// there is one, with `VERTEX_UVS_A`.
pub open spec fn checks_of<D, B, P>(r: &CompileResult<D, B, P>) -> Seq<Check> {
    let f = r.fragment_shader@;
    let base = seq![
        ("fragment"@, Seq::<Seq<char>>::empty(), preprocessed(f, FRAGMENT_STUB@, seq![])),
        ("fragment"@, mesh_attribute_defines(), preprocessed(f, FRAGMENT_STUB@, mesh_attribute_defines())),
    ];
    match r.vertex_shader {
        Some(v) => base.push(
            ("vertex"@, seq!["VERTEX_UVS_A"@], preprocessed(v@, VERTEX_STUB@, seq!["VERTEX_UVS_A"@])),
        ),
        None => base,
    }
}

/// The errors of the checks that are not accepted, in order, each labelled with its shader and its
/// defines joined by `,` and carrying naga's diagnostic.
pub open spec fn config_errors(checks: Seq<Check>) -> Seq<ErrorView>
    decreases checks.len(),
{
    if checks.len() == 0 {
        seq![]
    } else {
        let rest = config_errors(checks.drop_last());
        let c = checks.last();
        match verdict(c.2) {
            Some(m) => rest.push((c.0, join(c.1, ","@), m)),
            None => rest,
        }
    }
}

/// No check is rejected exactly when every check is accepted.
pub proof fn lemma_config_errors_empty(checks: Seq<Check>)
    ensures
        config_errors(checks).len() == 0 <==> forall|i: int|
            0 <= i < checks.len() ==> accepted(#[trigger] checks[i].2),
    decreases checks.len(),
{
    if checks.len() > 0 {
        lemma_config_errors_empty(checks.drop_last());
        if config_errors(checks).len() == 0 {
            assert forall|i: int| 0 <= i < checks.len() implies accepted(#[trigger] checks[i].2) by {
                if i < checks.len() - 1 {
                    assert(checks[i] == checks.drop_last()[i]);
                }
            }
        } else if config_errors(checks.drop_last()).len() > 0 {
            let i = choose|i: int|
                0 <= i < checks.drop_last().len() && !accepted(#[trigger] checks.drop_last()[i].2);
            assert(checks[i] == checks.drop_last()[i]);
        } else {
            assert(!accepted(checks[checks.len() - 1].2));
        }
    }
}

/// Both fragment configurations of a shader without `#ifdef` lines are judged alike: naga reads
/// one source under either set of defines, so it accepts both or rejects both with one
/// diagnostic.
pub proof fn law_fragment_configurations_agree<D, B, P>(r: &CompileResult<D, B, P>)
    requires
        forall|i: int|
            0 <= i < lines(r.fragment_shader@).len() ==> !opens_ifdef(
                #[trigger] lines(r.fragment_shader@)[i],
            ),
    ensures
        checks_of(r)[0].2 == checks_of(r)[1].2,
        verdict(checks_of(r)[0].2) == verdict(checks_of(r)[1].2),
        accepted(checks_of(r)[0].2) <==> accepted(checks_of(r)[1].2),
{
    law_defines_act_only_through_ifdef(
        r.fragment_shader@,
        FRAGMENT_STUB@,
        seq![],
        mesh_attribute_defines(),
    );
}

/// Each shader is checked against its own stage's stub: both fragment configurations give naga
/// text opening with [`FRAGMENT_STUB`], and the vertex shader, when there is one, is checked once,
/// labelled `vertex`, as its source preprocessed under `VERTEX_UVS_A` behind [`VERTEX_STUB`].
/// So once the fragment shader is accepted, a compile result passes exactly when its vertex
/// shader, completed by the vertex stub, is accepted.
pub proof fn law_each_shader_is_checked_against_its_own_stub<D, B, P>(r: &CompileResult<D, B, P>)
    ensures
        checks_of(r)[0].0 == "fragment"@ && checks_of(r)[1].0 == "fragment"@,
        checks_of(r)[0].2.take(FRAGMENT_STUB@.len() as int) == FRAGMENT_STUB@,
        checks_of(r)[1].2.take(FRAGMENT_STUB@.len() as int) == FRAGMENT_STUB@,
        r.vertex_shader is None ==> checks_of(r).len() == 2,
        r.vertex_shader matches Some(v) ==> {
            &&& checks_of(r).len() == 3
            &&& checks_of(r)[2].0 == "vertex"@
            &&& checks_of(r)[2].2 == preprocessed(v@, VERTEX_STUB@, seq!["VERTEX_UVS_A"@])
            &&& checks_of(r)[2].2.take(VERTEX_STUB@.len() as int) == VERTEX_STUB@
        },
        (r.errors@.len() == 0 && accepted(checks_of(r)[0].2) && accepted(checks_of(r)[1].2))
            ==> match r.vertex_shader {
            Some(v) => (validation_of(r) is None <==> accepted(
                preprocessed(v@, VERTEX_STUB@, seq!["VERTEX_UVS_A"@]),
            )),
            None => validation_of(r) is None,
        },
{
    let checks = checks_of(r);
    lemma_config_errors_empty(checks);
    assert(checks[0].2.take(FRAGMENT_STUB@.len() as int) =~= FRAGMENT_STUB@);
    assert(checks[1].2.take(FRAGMENT_STUB@.len() as int) =~= FRAGMENT_STUB@);
    match r.vertex_shader {
        Some(v) => {
            assert(checks[2].2.take(VERTEX_STUB@.len() as int) =~= VERTEX_STUB@);
            if r.errors@.len() == 0 && accepted(checks[0].2) && accepted(checks[1].2) && accepted(
                checks[2].2,
            ) {
                assert forall|i: int| 0 <= i < checks.len() implies accepted(
                    #[trigger] checks[i].2,
                ) by {
                    assert(i == 0 || i == 1 || i == 2);
                }
            }
        },
        None => {
            if r.errors@.len() == 0 && accepted(checks[0].2) && accepted(checks[1].2) {
                assert forall|i: int| 0 <= i < checks.len() implies accepted(
                    #[trigger] checks[i].2,
                ) by {
                    assert(i == 0 || i == 1);
                }
            }
        },
    }
}

/// The message of the single error that codegen errors produce.
pub open spec fn codegen_message(errors: Seq<Seq<char>>) -> Seq<char> {
    "codegen errors: "@ + join(errors, "; "@)
}

/// Appends the error for one configuration when its check failed: `outcome` is the failure's
/// message, `None` when the configuration passed.
pub fn record_outcome(
    errors: &mut Vec<ValidationError>,
    stage: &'static str,
    defines: &[&str],
    outcome: Option<String>,
)
    ensures
        errors_view(final(errors)@) == match outcome {
            None => errors_view(old(errors)@),
            Some(m) => errors_view(old(errors)@).push(
                (stage@, join(str_views(defines@), ","@), m@),
            ),
        },
{
    match outcome {
        Some(message) => {
            let label = crate::text::join_strs(defines, ",");
            assert(defines@.map_values(|p: &str| p@) =~= str_views(defines@));
            let ghost before = errors@;
            let e = ValidationError { shader: stage, defines: label, message };
            errors.push(e);
            assert(errors_view(errors@) =~= errors_view(before).push(e@));
        },
        None => {},
    }
}

/// Validates `source` preprocessed against `stub` and `defines`, appending one error for this
/// configuration exactly when it is not accepted, labelled with `stage` and the defines: the
/// nesting diagnostic when it nests too deeply for naga, naga's diagnostic when naga rejects it.
pub fn validate_shader(
    source: &str,
    stub: &str,
    defines: &[&str],
    stage: &'static str,
    errors: &mut Vec<ValidationError>,
)
    ensures
        errors_view(final(errors)@) == match verdict(
            preprocessed(source@, stub@, str_views(defines@)),
        ) {
            None => errors_view(old(errors)@),
            Some(m) => errors_view(old(errors)@).push(
                (stage@, join(str_views(defines@), ","@), m),
            ),
        },
        final(errors)@.len() == old(errors)@.len() + 1 <==> !accepted(
            preprocessed(source@, stub@, str_views(defines@)),
        ),
        final(errors)@.len() == old(errors)@.len() <==> accepted(
            preprocessed(source@, stub@, str_views(defines@)),
        ),
{
    let ghost before = errors@;
    let preprocessed = preprocess(source, stub, defines);
    let outcome = if nesting_within(preprocessed.as_str()) {
        check_wgsl(preprocessed.as_str())
    } else {
        Some(String::from_str(NESTING_TOO_DEEP))
    };
    record_outcome(errors, stage, defines, outcome);
    assert(errors_view(before).len() == before.len());
    assert(errors_view(errors@).len() == errors@.len());
}


/// The outcome [`validate_compile_result`] gives: one codegen error when codegen failed, else
/// `None` when every configuration is accepted and the rejected configurations' errors otherwise.
pub open spec fn validation_of<D, B, P>(r: &CompileResult<D, B, P>) -> Option<Seq<ErrorView>> {
    if r.errors@.len() > 0 {
        Some(
            seq![
                (
                    "fragment"@,
                    Seq::<char>::empty(),
                    codegen_message(r.errors@.map_values(|e: String| e@)),
                ),
            ],
        )
    } else {
        let e = config_errors(checks_of(r));
        if e.len() == 0 {
            None
        } else {
            Some(e)
        }
    }
}

proof fn lemma_config_errors_step(checks: Seq<Check>, k: int)
    requires
        0 <= k < checks.len(),
    ensures
        config_errors(checks.take(k + 1)) == match verdict(checks[k].2) {
            Some(m) => config_errors(checks.take(k)).push(
                (checks[k].0, join(checks[k].1, ","@), m),
            ),
            None => config_errors(checks.take(k)),
        },
{
    assert(checks.take(k + 1).drop_last() =~= checks.take(k));
    assert(checks.take(k + 1).last() == checks[k]);
}

/// Validates both shaders of a compile result through naga.
///
/// Codegen errors already mean the shader is incomplete: they are reported as one fragment error
/// and nothing is validated. Otherwise the fragment shader is validated with no defines and with
/// the mesh-attribute defines, and the vertex shader, if any, with `VERTEX_UVS_A`. `Ok` means
/// every configuration parsed and validated; `Err` carries one entry per rejected configuration,
/// in that order. A configuration nesting deeper than [`MAX_NESTING`] is rejected with
/// [`NESTING_TOO_DEEP`] without being handed to naga.
pub fn validate_compile_result<D, B, P>(result: &CompileResult<D, B, P>) -> (res: Result<
    (),
    Vec<ValidationError>,
>)
    ensures
        outcome_view(res) == validation_of(result),
        result.errors@.len() == 0 ==> (res is Ok <==> forall|i: int|
            0 <= i < checks_of(result).len() ==> accepted(#[trigger] checks_of(result)[i].2)),
{
    if result.errors.len() > 0 {
        let mut message = String::from_str("codegen errors: ");
        let joined = join_strings(result.errors.as_slice(), "; ");
        message.append(joined.as_str());
        let mut errors: Vec<ValidationError> = Vec::new();
        let e = ValidationError { shader: "fragment", defines: String::new(), message };
        errors.push(e);
        assert(errors_view(errors@) =~= seq![e@]);
        return Err(errors);
    }
    let mut errors: Vec<ValidationError> = Vec::new();
    let no_defines: Vec<&str> = Vec::new();
    let mut mesh_defines: Vec<&str> = Vec::new();
    mesh_defines.push("VERTEX_UVS_A");
    mesh_defines.push("VERTEX_COLORS");
    assert(str_views(no_defines@) =~= Seq::<Seq<char>>::empty());
    assert(str_views(mesh_defines@) =~= mesh_attribute_defines());
    let ghost checks = checks_of(result);
    assert(errors_view(errors@) =~= config_errors(checks.take(0)));

    validate_shader(result.fragment_shader.as_str(), FRAGMENT_STUB, no_defines.as_slice(), "fragment", &mut errors);
    proof {
        lemma_config_errors_step(checks, 0);
    }
    validate_shader(result.fragment_shader.as_str(), FRAGMENT_STUB, mesh_defines.as_slice(), "fragment", &mut errors);
    proof {
        lemma_config_errors_step(checks, 1);
    }
    match &result.vertex_shader {
        Some(vertex) => {
            let mut uv_defines: Vec<&str> = Vec::new();
            uv_defines.push("VERTEX_UVS_A");
            assert(str_views(uv_defines@) =~= seq!["VERTEX_UVS_A"@]);
            validate_shader(vertex.as_str(), VERTEX_STUB, uv_defines.as_slice(), "vertex", &mut errors);
            proof {
                lemma_config_errors_step(checks, 2);
                assert(checks.take(3) =~= checks);
            }
        },
        None => {
            assert(checks.take(2) =~= checks);
        },
    }
    proof {
        lemma_config_errors_empty(checks);
    }
    if errors.len() == 0 {
        Ok(())
    } else {
        Err(errors)
    }
}

} // verus!
