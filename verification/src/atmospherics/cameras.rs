//! Which cameras receive the pipeline, and what goes on them.

use vstd::prelude::*;

verus! {

/// A 3D camera, as the routing sees it.
#[derive(Clone, Copy, PartialEq, Eq, Debug, Structural)]
pub struct CameraInfo {
    pub id: u64,
    /// The primary editor viewport camera.
    pub primary: bool,
    /// An editor viewport camera (primary or not).
    pub viewport: bool,
}

/// One routing entry: the camera `target` and the scene entities routed to it.
pub struct Route {
    pub target: u64,
    pub sources: Vec<u64>,
}

/// A route as values.
pub open spec fn route_view(r: Route) -> (u64, Seq<u64>) {
    (r.target, r.sources@)
}

/// The routes as values.
pub open spec fn routes_view(routes: Seq<Route>) -> Seq<(u64, Seq<u64>)> {
    routes.map_values(|r: Route| route_view(r))
}

/// The first 3D camera with this id.
pub open spec fn camera_of(cameras: Seq<CameraInfo>, id: u64) -> Option<CameraInfo>
    decreases cameras.len(),
{
    if cameras.len() == 0 {
        None
    } else if cameras[0].id == id {
        Some(cameras[0])
    } else {
        camera_of(cameras.drop_first(), id)
    }
}

/// Whether the camera `id` takes a scene-wide effect: it is a 3D camera, and the primary
/// viewport camera or not an editor viewport at all (the runtime camera).
pub open spec fn takes_effect(cameras: Seq<CameraInfo>, id: u64) -> bool {
    match camera_of(cameras, id) {
        Some(c) => c.primary || !c.viewport,
        None => false,
    }
}

/// The cameras routed from `source` that take a scene-wide effect, in routing order.
pub open spec fn routed_targets(
    routes: Seq<(u64, Seq<u64>)>,
    source: u64,
    cameras: Seq<CameraInfo>,
) -> Seq<u64>
    decreases routes.len(),
{
    if routes.len() == 0 {
        seq![]
    } else {
        let rest = routed_targets(routes.drop_last(), source, cameras);
        let (target, sources) = routes.last();
        if sources.contains(source) && takes_effect(cameras, target) {
            rest.push(target)
        } else {
            rest
        }
    }
}

/// A camera is a target exactly when some route to it lists the source anywhere among its
/// sources and the camera takes a scene-wide effect; and every target stands in routing order,
/// once per route that reaches it.
pub proof fn law_targets_are_the_routed_effect_cameras(
    routes: Seq<(u64, Seq<u64>)>,
    source: u64,
    cameras: Seq<CameraInfo>,
    c: u64,
)
    ensures
        routed_targets(routes, source, cameras).contains(c) <==> exists|i: int|
            0 <= i < routes.len() && #[trigger] routes[i].0 == c && routes[i].1.contains(source)
                && takes_effect(cameras, c),
        routed_targets(routes, source, cameras).len() <= routes.len(),
    decreases routes.len(),
{
    if routes.len() > 0 {
        let d = routes.drop_last();
        law_targets_are_the_routed_effect_cameras(d, source, cameras, c);
        let rest = routed_targets(d, source, cameras);
        let (target, sources) = routes.last();
        let t = routed_targets(routes, source, cameras);
        if t.contains(c) {
            let k = choose|k: int| 0 <= k < t.len() && t[k] == c;
            if k < rest.len() {
                assert(rest[k] == c);
                assert(rest.contains(c));
                let i = choose|i: int|
                    0 <= i < d.len() && #[trigger] d[i].0 == c && d[i].1.contains(source)
                        && takes_effect(cameras, c);
                assert(routes[i] == d[i]);
            } else {
                assert(routes[routes.len() - 1].0 == c);
            }
        }
        if exists|i: int|
            0 <= i < routes.len() && #[trigger] routes[i].0 == c && routes[i].1.contains(source)
                && takes_effect(cameras, c) {
            let i = choose|i: int|
                0 <= i < routes.len() && #[trigger] routes[i].0 == c && routes[i].1.contains(source)
                    && takes_effect(cameras, c);
            if i < d.len() {
                assert(d[i] == routes[i]);
                assert(rest.contains(c));
                let k = choose|k: int| 0 <= k < rest.len() && rest[k] == c;
                if sources.contains(source) && takes_effect(cameras, target) {
                    assert(t[k] == c);
                }
            } else {
                assert(t == rest.push(target));
                assert(t[rest.len() as int] == c);
            }
        }
    }
}

/// Whether `v` holds `x`.
pub fn contains_id(v: &[u64], x: u64) -> (b: bool)
    ensures
        b == v@.contains(x),
{
    let mut i: usize = 0;
    while i < v.len()
        invariant
            i <= v@.len(),
            forall|j: int| 0 <= j < i ==> v@[j] != x,
        decreases v@.len() - i,
    {
        if v[i] == x {
            assert(v@[i as int] == x);
            return true;
        }
        i = i + 1;
    }
    false
}

fn camera_lookup(cameras: &[CameraInfo], id: u64) -> (r: Option<CameraInfo>)
    ensures
        r == camera_of(cameras@, id),
{
    let mut i: usize = 0;
    assert(cameras@.skip(0) =~= cameras@);
    while i < cameras.len()
        invariant
            i <= cameras@.len(),
            camera_of(cameras@.skip(i as int), id) == camera_of(cameras@, id),
        decreases cameras@.len() - i,
    {
        assert(cameras@.skip(i as int)[0] == cameras@[i as int]);
        if cameras[i].id == id {
            return Some(cameras[i]);
        }
        assert(cameras@.skip(i as int).drop_first() =~= cameras@.skip(i + 1));
        i = i + 1;
    }
    None
}

/// The cameras routed from `source` that take a scene-wide effect: the primary viewport camera
/// and the runtime camera. The other editor viewports and every panel camera carry no
/// atmosphere, and a second atmosphere-bearing camera crashes wgpu.
pub fn targets(routes: &[Route], source: u64, cameras: &[CameraInfo]) -> (t: Vec<u64>)
    ensures
        t@ == routed_targets(routes_view(routes@), source, cameras@),
{
    let ghost rv = routes_view(routes@);
    let mut t: Vec<u64> = Vec::new();
    let mut i: usize = 0;
    while i < routes.len()
        invariant
            i <= routes@.len(),
            rv == routes_view(routes@),
            t@ == routed_targets(rv.take(i as int), source, cameras@),
        decreases routes@.len() - i,
    {
        let target = routes[i].target;
        let wanted = contains_id(routes[i].sources.as_slice(), source) && match camera_lookup(
            cameras,
            target,
        ) {
            Some(c) => c.primary || !c.viewport,
            None => false,
        };
        if wanted {
            t.push(target);
        }
        i = i + 1;
        assert(rv.take(i as int).drop_last() =~= rv.take(i - 1));
        assert(rv.take(i as int).last() == route_view(routes@[i - 1]));
    }
    assert(rv.take(i as int) =~= rv);
    t
}


/// The elements of `s` that `other` does not hold, in order.
pub open spec fn absent_from(s: Seq<u64>, other: Seq<u64>) -> Seq<u64>
    decreases s.len(),
{
    if s.len() == 0 {
        seq![]
    } else {
        let rest = absent_from(s.drop_last(), other);
        if other.contains(s.last()) {
            rest
        } else {
            rest.push(s.last())
        }
    }
}

/// The elements of `s` that `other` does not hold, or all of `s` when `all` is set.
pub open spec fn absent_or_all(s: Seq<u64>, other: Seq<u64>, all: bool) -> Seq<u64> {
    if all {
        s
    } else {
        absent_from(s, other)
    }
}

/// What `absent_from` holds.
pub proof fn lemma_absent_from_at(s: Seq<u64>, other: Seq<u64>, x: u64)
    ensures
        absent_from(s, other).contains(x) <==> s.contains(x) && !other.contains(x),
    decreases s.len(),
{
    if s.len() == 0 {
        assert(!absent_from(s, other).contains(x));
        assert(!s.contains(x));
    } else {
        let d = s.drop_last();
        lemma_absent_from_at(d, other, x);
        if s.contains(x) && !other.contains(x) {
            let k = choose|k: int| 0 <= k < s.len() && s[k] == x;
            if k < s.len() - 1 {
                assert(d[k] == x);
                assert(d.contains(x));
                let a = absent_from(d, other);
                assert(a.contains(x));
                let j = choose|j: int| 0 <= j < a.len() && a[j] == x;
                if !other.contains(s.last()) {
                    assert(a.push(s.last())[j] == x);
                }
            } else {
                assert(absent_from(s, other).last() == x);
            }
        }
        if absent_from(s, other).contains(x) {
            if absent_from(d, other).contains(x) {
                assert(d.contains(x));
                let k = choose|k: int| 0 <= k < d.len() && d[k] == x;
                assert(s[k] == x);
            } else {
                let a = absent_from(d, other);
                assert(!other.contains(s.last()));
                assert(absent_from(s, other) == a.push(s.last()));
                let k = choose|k: int| 0 <= k < a.len() + 1 && a.push(s.last())[k] == x;
                if k < a.len() {
                    assert(a[k] == x);
                }
                assert(x == s.last());
            }
        }
    }
}

/// What `absent_from` holds, for every element.
pub proof fn lemma_absent_from(s: Seq<u64>, other: Seq<u64>)
    ensures
        forall|x: u64| #[trigger]
            absent_from(s, other).contains(x) <==> s.contains(x) && !other.contains(x),
{
    assert forall|x: u64| #[trigger]
        absent_from(s, other).contains(x) <==> s.contains(x) && !other.contains(x) by {
        lemma_absent_from_at(s, other, x);
    }
}

/// One component of the per-camera pipeline.
#[derive(Clone, Copy, PartialEq, Eq, Debug, Structural)]
pub enum PipelinePart {
    /// The authored view, `VolumetricClouds`.
    View,
    /// The authored reconstruction, `CloudReconstruction`.
    Reconstruction,
    /// The sky probe.
    SkyProbe,
    /// The depth prepass, which the froxel volume and the cloud composite read.
    DepthPrepass,
    /// Multisampling off: a multisampled depth view does not bind to the trace.
    MsaaOff,
    /// Auto exposure, installed by the exposure sync.
    Exposure,
}

/// The parts a newly reached camera receives with the install.
pub open spec fn install_set() -> Seq<PipelinePart> {
    seq![PipelinePart::SkyProbe, PipelinePart::DepthPrepass, PipelinePart::MsaaOff]
}

/// The parts copied to a camera from the root.
pub open spec fn copy_set() -> Seq<PipelinePart> {
    seq![PipelinePart::View, PipelinePart::Reconstruction]
}

/// The parts a strip takes off a camera.
pub open spec fn strip_set() -> Seq<PipelinePart> {
    seq![
        PipelinePart::View,
        PipelinePart::Reconstruction,
        PipelinePart::SkyProbe,
        PipelinePart::DepthPrepass,
        PipelinePart::MsaaOff,
        PipelinePart::Exposure,
    ]
}

/// The parts a newly reached camera receives with the install, in order.
pub fn installed_parts() -> (v: Vec<PipelinePart>)
    ensures
        v@ == install_set(),
{
    let mut v: Vec<PipelinePart> = Vec::new();
    v.push(PipelinePart::SkyProbe);
    v.push(PipelinePart::DepthPrepass);
    v.push(PipelinePart::MsaaOff);
    assert(v@ =~= install_set());
    v
}

/// The parts a strip takes off a camera, in order: the pipeline owns the whole bundle, so a strip
/// takes back everything the install, the copies and the exposure sync put there.
pub fn stripped_parts() -> (v: Vec<PipelinePart>)
    ensures
        v@ == strip_set(),
{
    let mut v: Vec<PipelinePart> = Vec::new();
    v.push(PipelinePart::View);
    v.push(PipelinePart::Reconstruction);
    v.push(PipelinePart::SkyProbe);
    v.push(PipelinePart::DepthPrepass);
    v.push(PipelinePart::MsaaOff);
    v.push(PipelinePart::Exposure);
    assert(v@ =~= strip_set());
    v
}

/// A strip resets what the pipeline installed: a part is taken off by a strip exactly when the
/// install, a copy from the root, or the exposure sync puts it on a camera.
pub proof fn law_a_strip_takes_back_every_part(p: PipelinePart)
    ensures
        strip_set().contains(p) <==> install_set().contains(p) || copy_set().contains(p) || p
            == PipelinePart::Exposure,
{
    let i: int = match p {
        PipelinePart::View => 0,
        PipelinePart::Reconstruction => 1,
        PipelinePart::SkyProbe => 2,
        PipelinePart::DepthPrepass => 3,
        PipelinePart::MsaaOff => 4,
        PipelinePart::Exposure => 5,
    };
    assert(strip_set()[i] == p);
    match p {
        PipelinePart::View => assert(copy_set()[0] == p),
        PipelinePart::Reconstruction => assert(copy_set()[1] == p),
        PipelinePart::SkyProbe => assert(install_set()[0] == p),
        PipelinePart::DepthPrepass => assert(install_set()[1] == p),
        PipelinePart::MsaaOff => assert(install_set()[2] == p),
        PipelinePart::Exposure => {},
    }
}

/// The weatherscape root as the camera sync reads it.
#[derive(Clone, Copy, PartialEq, Eq, Debug, Structural)]
pub struct RootState {
    pub id: u64,
    /// The authored view (`VolumetricClouds`) changed since the last sync.
    pub view_changed: bool,
    /// The authored reconstruction changed since the last sync.
    pub reconstruction_changed: bool,
    /// The authored reconstruction carries a raised reset flag.
    pub reset_raised: bool,
}

/// What one camera sync does.
pub struct CameraSync {
    /// Cameras the pipeline is taken off: each loses every part of [`stripped_parts`], so the
    /// pipeline resets what it installed.
    pub strip: Vec<u64>,
    /// Cameras the pipeline is newly installed on, each receiving [`installed_parts`].
    pub install: Vec<u64>,
    /// Cameras that take a fresh copy of the authored view.
    pub copy_view: Vec<u64>,
    /// Cameras that take a fresh copy of the authored reconstruction.
    pub copy_reconstruction: Vec<u64>,
    /// Whether the root's reset flag is lowered, once it has been handed to the cameras.
    pub lower_reset: bool,
}

fn filter_absent(s: &Vec<u64>, other: &[u64], all: bool) -> (r: Vec<u64>)
    ensures
        r@ == absent_or_all(s@, other@, all),
{
    let mut r: Vec<u64> = Vec::new();
    let mut i: usize = 0;
    while i < s.len()
        invariant
            i <= s@.len(),
            r@ == absent_or_all(s@.take(i as int), other@, all),
        decreases s@.len() - i,
    {
        let x = s[i];
        if all || !contains_id(other, x) {
            r.push(x);
        }
        i = i + 1;
        assert(s@.take(i as int).drop_last() =~= s@.take(i - 1));
        assert(s@.take(i as int).last() == x);
    }
    assert(s@.take(i as int) =~= s@);
    r
}

/// Keeps the per-camera half of the pipeline on exactly the cameras routed to the weatherscape
/// root. No root takes the pipeline off every camera it is installed on. With a root, the
/// cameras it no longer reaches are stripped, the newly reached ones get the install, and the
/// authored view and reconstruction are copied to a camera when it is new or they moved; a raised
/// reset flag is handed over once and lowered on the root.
pub fn sync(root: Option<RootState>, routes: &[Route], cameras: &[CameraInfo], installed: &[u64]) -> (plan: CameraSync)
    ensures
        match root {
            None => {
                &&& plan.strip@ == installed@
                &&& plan.install@.len() == 0
                &&& plan.copy_view@.len() == 0
                &&& plan.copy_reconstruction@.len() == 0
                &&& !plan.lower_reset
            },
            Some(r) => {
                let wanted = routed_targets(routes_view(routes@), r.id, cameras@);
                &&& plan.strip@ == absent_from(installed@, wanted)
                &&& plan.install@ == absent_from(wanted, installed@)
                &&& plan.copy_view@ == absent_or_all(wanted, installed@, r.view_changed)
                &&& plan.copy_reconstruction@ == absent_or_all(
                    wanted,
                    installed@,
                    r.reconstruction_changed,
                )
                &&& plan.lower_reset == r.reset_raised
            },
        },
{
    let mut all_installed: Vec<u64> = Vec::new();
    let mut k: usize = 0;
    while k < installed.len()
        invariant
            k <= installed@.len(),
            all_installed@ == installed@.take(k as int),
        decreases installed@.len() - k,
    {
        all_installed.push(installed[k]);
        k = k + 1;
        assert(installed@.take(k as int) =~= installed@.take(k - 1).push(installed@[k - 1]));
    }
    assert(installed@.take(k as int) =~= installed@);
    match root {
        None => CameraSync {
            strip: all_installed,
            install: Vec::new(),
            copy_view: Vec::new(),
            copy_reconstruction: Vec::new(),
            lower_reset: false,
        },
        Some(r) => {
            let wanted = targets(routes, r.id, cameras);
            CameraSync {
                strip: filter_absent(&all_installed, wanted.as_slice(), false),
                install: filter_absent(&wanted, installed, false),
                copy_view: filter_absent(&wanted, installed, r.view_changed),
                copy_reconstruction: filter_absent(&wanted, installed, r.reconstruction_changed),
                lower_reset: r.reset_raised,
            }
        },
    }
}

/// The cameras that carry the pipeline once a sync's strips and installs have been applied.
pub open spec fn carriers_after(installed: Seq<u64>, strip: Seq<u64>, install: Seq<u64>) -> Set<u64> {
    Set::new(|c: u64| (installed.contains(c) && !strip.contains(c)) || install.contains(c))
}

/// After a sync with a root, exactly the cameras routed to it that take a scene-wide effect carry
/// the pipeline; after a sync without one, no camera does.
pub proof fn law_sync_installs_exactly_the_targets(
    root: Option<RootState>,
    routes: Seq<(u64, Seq<u64>)>,
    cameras: Seq<CameraInfo>,
    installed: Seq<u64>,
)
    ensures
        match root {
            None => carriers_after(installed, installed, seq![]) == Set::<u64>::empty(),
            Some(r) => {
                let wanted = routed_targets(routes, r.id, cameras);
                carriers_after(
                    installed,
                    absent_from(installed, wanted),
                    absent_from(wanted, installed),
                ) == wanted.to_set()
            },
        },
{
    match root {
        None => {
            assert(carriers_after(installed, installed, seq![]) =~= Set::<u64>::empty());
        },
        Some(r) => {
            let wanted = routed_targets(routes, r.id, cameras);
            lemma_absent_from(installed, wanted);
            lemma_absent_from(wanted, installed);
            assert(carriers_after(
                installed,
                absent_from(installed, wanted),
                absent_from(wanted, installed),
            ) =~= wanted.to_set());
        },
    }
}

} // verus!
