//! The compiled material artifact written next to a `.material` graph each time it is saved:
//!
//! * `foo.material`  — the graph (editor only). Carries a `wgsl_path` link to the compiled shader.
//! * `foo.wgsl`      — the WGSL fragment shader codegen emitted.
//! * `foo.wgsl.meta` — the sidecar with what the resolver needs that the WGSL cannot express.
//!
//! Saving is decided here and performed by the caller: [`save_compiled_with_policy`] says what to
//! write, if anything, [`artifacts_written`] records the link once the writes have landed, and
//! [`artifacts_failed`] clears it when a write fails, so no stale link is followed.

use vstd::prelude::*;
use crate::text::{chars_of, replace_all, replace_chars, string_of};
use crate::validate::{
    checks_of, error_text, errors_view, lemma_config_errors_empty, outcome_view,
    validate_compile_result, validation_of, accepted, CompileResult, ErrorView, ValidationError,
};

verus! {

/// What a save does with a shader that naga rejects.
#[derive(Clone, Copy, Debug, PartialEq, Eq, Structural)]
pub enum InvalidShaderPolicy {
    /// Write nothing and keep the graph linked to the last good `.wgsl`.
    Refuse,
    /// Write the invalid `.wgsl` anyway, for inspecting codegen output, and still report.
    WriteAnyway,
}

impl Default for InvalidShaderPolicy {
    fn default() -> (p: Self)
        ensures
            p == InvalidShaderPolicy::Refuse,
    {
        InvalidShaderPolicy::Refuse
    }
}

/// The parts of a material graph that saving reads and writes.
pub struct MaterialGraph<Alpha> {
    /// Project-relative link to the compiled `.wgsl`, `None` when there is no valid one.
    pub wgsl_path: Option<String>,
    pub alpha_mode: Alpha,
    pub double_sided: bool,
}

/// The sidecar stored next to a compiled `.wgsl`: the codegen outputs a runtime needs to assemble
/// the material without the source graph.
pub struct CompiledMaterialMeta<Domain, Alpha, Binding, Param> {
    /// Project-relative path of the `.material` graph that produced this `.wgsl`.
    pub source_material: String,
    pub domain: Domain,
    pub alpha_mode: Alpha,
    pub double_sided: bool,
    pub requires_transmission: bool,
    pub texture_bindings: Vec<Binding>,
    pub parameters: Vec<Param>,
}

/// The files one save writes, and the link the graph takes once they are written.
pub struct Artifacts<Domain, Alpha, Binding, Param> {
    pub wgsl_fs_path: String,
    pub meta_fs_path: String,
    /// The `.wgsl` contents: the fragment shader.
    pub wgsl: String,
    pub meta: CompiledMaterialMeta<Domain, Alpha, Binding, Param>,
    /// Project-relative path of the `.wgsl`.
    pub wgsl_link: String,
}

/// What a save asks of its caller.
pub enum SaveStep<Domain, Alpha, Binding, Param> {
    /// Nothing is to be written; these are the errors.
    Done(Vec<String>),
    /// Write the artifacts, then call [`artifacts_written`], or [`artifacts_failed`] if a write
    /// fails; these are the errors to report afterwards (empty unless the policy wrote an invalid
    /// shader).
    Write { artifacts: Artifacts<Domain, Alpha, Binding, Param>, errors: Vec<String> },
}

/// What `Path::with_extension` returns for a path and an extension, as strings.
pub uninterp spec fn path_with_extension(path: Seq<char>, extension: Seq<char>) -> Seq<char>;

/// What `Path::strip_prefix` returns for a path and a base, as strings: `None` when `base` is not
/// a prefix of `path` component-wise.
pub uninterp spec fn stripped_path(path: Seq<char>, base: Seq<char>) -> Option<Seq<char>>;

/// Calls `std::path::Path::with_extension`. Trusted: the result, read back as a string, is named
/// `path_with_extension` of the path and the extension. The call panics on an extension that
/// holds a path separator, which `requires` leaves out.
#[verifier::external_body]
fn with_extension(path: &str, extension: &str) -> (r: String)
    requires
        !extension@.contains('/'),
        !extension@.contains('\\'),
    ensures
        r@ == path_with_extension(path@, extension@),
{
    std::path::Path::new(path).with_extension(extension).to_string_lossy().into_owned()
}

/// Calls `std::path::Path::strip_prefix`. Trusted: the result, read back as a string, is named
/// `stripped_path` of the path and the base.
#[verifier::external_body]
fn strip_path_prefix(path: &str, base: &str) -> (r: Option<String>)
    ensures
        r matches Some(s) ==> stripped_path(path@, base@) == Some(s@),
        r is None ==> stripped_path(path@, base@) is None,
{
    match std::path::Path::new(path).strip_prefix(base) {
        Ok(rest) => Some(rest.to_string_lossy().into_owned()),
        Err(_) => None,
    }
}

/// Path of the meta sidecar for a `.wgsl` path: the path with `.meta` appended.
pub fn meta_path_for_wgsl(wgsl_path: &str) -> (p: String)
    ensures
        p@ == wgsl_path@ + ".meta"@,
{
    let mut p = String::from_str(wgsl_path);
    p.append(".meta");
    p
}

/// Default `.wgsl` location for a `.material`: same directory, same stem, `.wgsl` extension.
pub fn default_wgsl_path_for_material(material_fs_path: &str) -> (p: String)
    ensures
        p@ == path_with_extension(material_fs_path@, "wgsl"@),
{
    proof {
        reveal_strlit("wgsl");
        assert(!"wgsl"@.contains('/'));
        assert(!"wgsl"@.contains('\\'));
    }
    with_extension(material_fs_path, "wgsl")
}

/// `fs_path` relative to `project_root` with forward slashes, or all of `fs_path` when it does not
/// lie under the root.
pub open spec fn relative_path(project_root: Seq<char>, fs_path: Seq<char>) -> Seq<char> {
    let p = match stripped_path(fs_path, project_root) {
        Some(rest) => rest,
        None => fs_path,
    };
    replace_all(p, seq!['\\'], seq!['/'])
}

/// A project-relative version of `fs_path`, normalised to forward slashes; `fs_path` itself,
/// normalised the same way, where it cannot be made relative.
pub fn project_relative(project_root: &str, fs_path: &str) -> (p: String)
    ensures
        p@ == relative_path(project_root@, fs_path@),
{
    let path = match strip_path_prefix(fs_path, project_root) {
        Some(rest) => chars_of(rest.as_str()),
        None => chars_of(fs_path),
    };
    let mut back: Vec<char> = Vec::new();
    back.push('\\');
    let mut fore: Vec<char> = Vec::new();
    fore.push('/');
    assert(back@ =~= seq!['\\']);
    assert(fore@ =~= seq!['/']);
    string_of(&replace_chars(&path, &back, &fore))
}


/// Whether `art` is what a save of `graph` with `result` writes for the `.material` at
/// `material` under `root`.
pub open spec fn artifacts_for<D, A, B, P>(
    art: Artifacts<D, A, B, P>,
    graph: MaterialGraph<A>,
    root: Seq<char>,
    material: Seq<char>,
    result: CompileResult<D, B, P>,
) -> bool {
    let wgsl_fs = path_with_extension(material, "wgsl"@);
    &&& art.wgsl_fs_path@ == wgsl_fs
    &&& art.meta_fs_path@ == wgsl_fs + ".meta"@
    &&& art.wgsl@ == result.fragment_shader@
    &&& art.meta.source_material@ == relative_path(root, material)
    &&& art.meta.domain == result.domain
    &&& art.meta.alpha_mode == graph.alpha_mode
    &&& art.meta.double_sided == graph.double_sided
    &&& art.meta.requires_transmission == result.requires_transmission
    &&& art.meta.texture_bindings@ == result.texture_bindings@
    &&& art.meta.parameters@ == result.parameters@
    &&& art.wgsl_link@ == relative_path(root, wgsl_fs)
}

/// The error strings of a step, whether or not it writes.
pub open spec fn step_errors<D, A, B, P>(step: SaveStep<D, A, B, P>) -> Seq<Seq<char>> {
    match step {
        SaveStep::Done(e) => e@.map_values(|m: String| m@),
        SaveStep::Write { errors, .. } => errors@.map_values(|m: String| m@),
    }
}

/// The printed form of each validation error.
pub open spec fn messages(errors: Seq<ErrorView>) -> Seq<Seq<char>> {
    errors.map_values(|e: ErrorView| error_text(e))
}

/// The artifacts a save writes.
fn plan_artifacts<D, A: Copy, B, P>(
    graph: &MaterialGraph<A>,
    project_root: &str,
    material_fs_path: &str,
    result: CompileResult<D, B, P>,
) -> (art: Artifacts<D, A, B, P>)
    ensures
        artifacts_for(art, *graph, project_root@, material_fs_path@, result),
{
    let wgsl_fs_path = default_wgsl_path_for_material(material_fs_path);
    let meta_fs_path = meta_path_for_wgsl(wgsl_fs_path.as_str());
    let wgsl_link = project_relative(project_root, wgsl_fs_path.as_str());
    let meta = CompiledMaterialMeta {
        source_material: project_relative(project_root, material_fs_path),
        domain: result.domain,
        alpha_mode: graph.alpha_mode,
        double_sided: graph.double_sided,
        requires_transmission: result.requires_transmission,
        texture_bindings: result.texture_bindings,
        parameters: result.parameters,
    };
    Artifacts { wgsl_fs_path, meta_fs_path, wgsl: result.fragment_shader, meta, wgsl_link }
}

/// The printed form of each validation error, in order.
pub fn error_messages(errors: &Vec<ValidationError>) -> (m: Vec<String>)
    ensures
        m@.map_values(|s: String| s@) == messages(errors_view(errors@)),
{
    let mut m: Vec<String> = Vec::new();
    let mut i: usize = 0;
    while i < errors.len()
        invariant
            i <= errors@.len(),
            m@.map_values(|s: String| s@) == messages(errors_view(errors@)).take(i as int),
        decreases errors@.len() - i,
    {
        let text = errors[i].to_string();
        let ghost before = m@;
        m.push(text);
        i = i + 1;
        assert(m@ == before.push(text));
        assert(messages(errors_view(errors@)).take(i as int) =~= messages(errors_view(errors@)).take(
            i - 1,
        ).push(error_text(errors@[i - 1]@)));
        assert(m@.map_values(|s: String| s@) =~= messages(errors_view(errors@)).take(i as int));
    }
    assert(messages(errors_view(errors@)).take(i as int) =~= messages(errors_view(errors@)));
    m
}

/// Whether `step`, and the graph going from `before` to `after`, are the save of `result` that
/// the validation outcome `validation` (`None` for a pass, the errors otherwise) and `policy`
/// decide.
pub open spec fn decided<D, A, B, P>(
    step: SaveStep<D, A, B, P>,
    before: MaterialGraph<A>,
    after: MaterialGraph<A>,
    root: Seq<char>,
    material: Seq<char>,
    result: CompileResult<D, B, P>,
    validation: Option<Seq<ErrorView>>,
    policy: InvalidShaderPolicy,
) -> bool {
    if result.errors@.len() > 0 {
        &&& after.wgsl_path is None
        &&& after.alpha_mode == before.alpha_mode
        &&& after.double_sided == before.double_sided
        &&& step is Done
        &&& step_errors(step) == result.errors@.map_values(|m: String| m@)
    } else {
        &&& after == before
        &&& match validation {
            None => step matches SaveStep::Write { artifacts, errors } && artifacts_for(
                artifacts,
                before,
                root,
                material,
                result,
            ) && errors@.len() == 0,
            Some(v) => step_errors(step) == messages(v) && (policy == InvalidShaderPolicy::Refuse
                ==> step is Done) && (policy == InvalidShaderPolicy::WriteAnyway ==> (
            step matches SaveStep::Write { artifacts, .. } && artifacts_for(
                artifacts,
                before,
                root,
                material,
                result,
            ))),
        }
    }
}

/// A save is settled by what goes into it: two steps decided from the same graph, compile
/// result, validation outcome and policy leave the graph alike, report the same errors, and
/// agree on whether anything is written.
pub proof fn law_save_is_determined<D, A, B, P>(
    s1: SaveStep<D, A, B, P>,
    s2: SaveStep<D, A, B, P>,
    before: MaterialGraph<A>,
    after1: MaterialGraph<A>,
    after2: MaterialGraph<A>,
    root: Seq<char>,
    material: Seq<char>,
    result: CompileResult<D, B, P>,
    validation: Option<Seq<ErrorView>>,
    policy: InvalidShaderPolicy,
)
    requires
        decided(s1, before, after1, root, material, result, validation, policy),
        decided(s2, before, after2, root, material, result, validation, policy),
    ensures
        after1 == after2,
        step_errors(s1) == step_errors(s2),
        s1 is Write <==> s2 is Write,
{
}

/// The save decided from the validation outcome `validation` of `result`.
///
/// Codegen errors clear the graph's link and write nothing. Otherwise the graph is left as it is:
/// a valid shader is written; an invalid one is refused under [`InvalidShaderPolicy::Refuse`],
/// keeping the link on the last good `.wgsl`, and written anyway under
/// [`InvalidShaderPolicy::WriteAnyway`]; the validation errors are reported either way.
pub fn save_with_outcome<D, A: Copy, B, P>(
    graph: &mut MaterialGraph<A>,
    project_root: &str,
    material_fs_path: &str,
    result: CompileResult<D, B, P>,
    validation: Result<(), Vec<ValidationError>>,
    policy: InvalidShaderPolicy,
) -> (step: SaveStep<D, A, B, P>)
    ensures
        decided(
            step,
            *old(graph),
            *final(graph),
            project_root@,
            material_fs_path@,
            result,
            outcome_view(validation),
            policy,
        ),
{
    if result.errors.len() > 0 {
        graph.wgsl_path = None;
        return SaveStep::Done(result.errors);
    }
    match validation {
        Ok(()) => {
            let artifacts = plan_artifacts(graph, project_root, material_fs_path, result);
            let errors: Vec<String> = Vec::new();
            assert(errors@.map_values(|m: String| m@) =~= Seq::<Seq<char>>::empty());
            SaveStep::Write { artifacts, errors }
        },
        Err(errors) => {
            let messages = error_messages(&errors);
            match policy {
                InvalidShaderPolicy::Refuse => SaveStep::Done(messages),
                InvalidShaderPolicy::WriteAnyway => {
                    let artifacts = plan_artifacts(graph, project_root, material_fs_path, result);
                    SaveStep::Write { artifacts, errors: messages }
                },
            }
        },
    }
}

/// Whether every configuration `result` is validated under is accepted: within the nesting
/// bound, and parsed and validated by naga.
pub open spec fn all_valid<D, B, P>(result: CompileResult<D, B, P>) -> bool {
    forall|i: int| 0 <= i < checks_of(&result).len() ==> accepted(#[trigger] checks_of(&result)[i].2)
}

/// [`save_compiled`] with an explicit policy for shaders that fail validation: the compiled
/// shaders go through [`validate_compile_result`] before anything is written, and the save is
/// the one [`save_with_outcome`] decides from that outcome.
///
/// Without codegen errors, the errors reported are empty exactly when every configuration is
/// accepted: within the nesting bound, and parsed and validated by naga. Under
/// [`InvalidShaderPolicy::Refuse`] the artifacts are written exactly then, and otherwise nothing
/// is written and the graph's link is left on the last good `.wgsl`; under
/// [`InvalidShaderPolicy::WriteAnyway`] they are written either way.
pub fn save_compiled_with_policy<D, A: Copy, B, P>(
    graph: &mut MaterialGraph<A>,
    project_root: &str,
    material_fs_path: &str,
    result: CompileResult<D, B, P>,
    policy: InvalidShaderPolicy,
) -> (step: SaveStep<D, A, B, P>)
    ensures
        decided(
            step,
            *old(graph),
            *final(graph),
            project_root@,
            material_fs_path@,
            result,
            validation_of(&result),
            policy,
        ),
        result.errors@.len() > 0 ==> {
            &&& final(graph).wgsl_path is None
            &&& final(graph).alpha_mode == old(graph).alpha_mode
            &&& final(graph).double_sided == old(graph).double_sided
            &&& step is Done
            &&& step_errors(step) == result.errors@.map_values(|m: String| m@)
        },
        result.errors@.len() == 0 ==> {
            &&& *final(graph) == *old(graph)
            &&& (step matches SaveStep::Write { artifacts, .. } ==> artifacts_for(
                artifacts,
                *old(graph),
                project_root@,
                material_fs_path@,
                result,
            ))
            &&& (step_errors(step).len() == 0 <==> all_valid(result))
            &&& (policy == InvalidShaderPolicy::WriteAnyway ==> step is Write)
            &&& (policy == InvalidShaderPolicy::Refuse ==> (step is Write <==> all_valid(result)))
        },
{
    let validation = validate_compile_result(&result);
    proof {
        lemma_config_errors_empty(checks_of(&result));
    }
    save_with_outcome(graph, project_root, material_fs_path, result, validation, policy)
}

/// Runs [`save_compiled_with_policy`] under the default policy, which refuses invalid shaders:
/// without codegen errors, the artifacts are written exactly when every configuration is
/// accepted, and otherwise the graph keeps its link.
pub fn save_compiled<D, A: Copy, B, P>(
    graph: &mut MaterialGraph<A>,
    project_root: &str,
    material_fs_path: &str,
    result: CompileResult<D, B, P>,
) -> (step: SaveStep<D, A, B, P>)
    ensures
        decided(
            step,
            *old(graph),
            *final(graph),
            project_root@,
            material_fs_path@,
            result,
            validation_of(&result),
            InvalidShaderPolicy::Refuse,
        ),
        result.errors@.len() > 0 ==> {
            &&& final(graph).wgsl_path is None
            &&& step is Done
            &&& step_errors(step) == result.errors@.map_values(|m: String| m@)
        },
        result.errors@.len() == 0 ==> {
            &&& *final(graph) == *old(graph)
            &&& (step matches SaveStep::Write { artifacts, .. } ==> artifacts_for(
                artifacts,
                *old(graph),
                project_root@,
                material_fs_path@,
                result,
            ))
            &&& (step is Write <==> all_valid(result))
            &&& (step is Write <==> step_errors(step).len() == 0)
        },
{
    save_compiled_with_policy(graph, project_root, material_fs_path, result, InvalidShaderPolicy::default())
}

/// Records a completed write: the graph links to the `.wgsl` just written.
pub fn artifacts_written<D, A, B, P>(graph: &mut MaterialGraph<A>, artifacts: &Artifacts<D, A, B, P>)
    ensures
        final(graph).wgsl_path matches Some(link) && link@ == artifacts.wgsl_link@,
        final(graph).alpha_mode == old(graph).alpha_mode,
        final(graph).double_sided == old(graph).double_sided,
{
    graph.wgsl_path = Some(artifacts.wgsl_link.clone());
}

/// Records a failed write: no valid `.wgsl` is known to stand behind the link any more, so the
/// graph drops it rather than let the resolver follow a stale one.
pub fn artifacts_failed<A>(graph: &mut MaterialGraph<A>)
    ensures
        final(graph).wgsl_path is None,
        final(graph).alpha_mode == old(graph).alpha_mode,
        final(graph).double_sided == old(graph).double_sided,
{
    graph.wgsl_path = None;
}

} // verus!
