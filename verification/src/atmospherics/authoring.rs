//! The authored roots: the weatherscape's identity and what an older scene file's root is
//! missing, the celestial lights' markers, the sun clock's hold, and where the graybox terrain
//! is built.

use vstd::prelude::*;
use crate::atmospherics::cameras::{routed_targets, routes_view, targets, CameraInfo, Route};
use crate::text::chars_of;

verus! {

/// Marks the weatherscape root and carries its identity, which a scene file keeps across a
/// save and reload where entities are reallocated.
#[derive(Clone, Copy, PartialEq, Eq, Debug, Default, Structural)]
pub struct Weatherscape {
    pub id: u64,
}

/// Marks the authored graybox terrain root.
#[derive(Clone, Copy, PartialEq, Eq, Debug, Default, Structural)]
pub struct GrayboxTerrain;

/// The largest of `ids`, or 0 for none.
pub open spec fn max_id(ids: Seq<u64>) -> u64
    decreases ids.len(),
{
    if ids.len() == 0 {
        0
    } else {
        let m = max_id(ids.drop_last());
        if ids.last() > m {
            ids.last()
        } else {
            m
        }
    }
}

/// `max_id` bounds every id and is one of them, unless there are none.
pub proof fn lemma_max_id(ids: Seq<u64>)
    ensures
        forall|i: int| 0 <= i < ids.len() ==> #[trigger] ids[i] <= max_id(ids),
        ids.len() > 0 ==> ids.contains(max_id(ids)),
    decreases ids.len(),
{
    if ids.len() > 0 {
        lemma_max_id(ids.drop_last());
        assert forall|i: int| 0 <= i < ids.len() implies #[trigger] ids[i] <= max_id(ids) by {
            if i < ids.len() - 1 {
                assert(ids[i] == ids.drop_last()[i]);
            }
        }
        if ids.last() <= max_id(ids.drop_last()) && ids.len() > 1 {
            let k = choose|k: int|
                0 <= k < ids.drop_last().len() && ids.drop_last()[k] == max_id(ids.drop_last());
            assert(ids[k] == max_id(ids));
        } else {
            assert(ids[ids.len() - 1] == max_id(ids));
        }
    }
}

/// The id for a new weatherscape root: one past the largest in the world, so it is new.
pub fn next_id(ids: &[u64]) -> (id: u64)
    requires
        forall|i: int| 0 <= i < ids@.len() ==> #[trigger] ids@[i] < u64::MAX,
    ensures
        id == max_id(ids@) + 1,
{
    proof {
        lemma_max_id(ids@);
    }
    let mut m: u64 = 0;
    let mut i: usize = 0;
    while i < ids.len()
        invariant
            i <= ids@.len(),
            m == max_id(ids@.take(i as int)),
        decreases ids@.len() - i,
    {
        if ids[i] > m {
            m = ids[i];
        }
        i = i + 1;
        assert(ids@.take(i as int).drop_last() =~= ids@.take(i - 1));
    }
    assert(ids@.take(i as int) =~= ids@);
    proof {
        if ids@.len() > 0 {
            let k = choose|k: int| 0 <= k < ids@.len() && ids@[k] == max_id(ids@);
            assert(ids@[k] < u64::MAX);
        }
    }
    m + 1
}

/// A minted id is new: it is none of the ids already in the world.
pub proof fn law_next_id_is_fresh(ids: Seq<u64>)
    ensures
        !ids.contains((max_id(ids) + 1) as u64) || max_id(ids) == u64::MAX,
{
    lemma_max_id(ids);
}

/// A component of the weatherscape root that a file from an earlier bundle may lack.
#[derive(Clone, Copy, PartialEq, Eq, Debug, Structural)]
pub enum RootPart {
    Package,
    NightGrade,
    Atmosphere,
    View,
    Reconstruction,
}

/// Which of the root's late-added components a root carries.
#[derive(Clone, Copy, PartialEq, Eq, Debug, Structural)]
pub struct RootParts {
    pub package: bool,
    pub night_grade: bool,
    pub atmosphere: bool,
    pub view: bool,
    pub reconstruction: bool,
}

/// The parts a root lacks, in the order they are inserted.
pub open spec fn missing_spec(p: RootParts) -> Seq<RootPart> {
    let a = if p.package {
        seq![]
    } else {
        seq![RootPart::Package]
    };
    let b = if p.night_grade {
        a
    } else {
        a.push(RootPart::NightGrade)
    };
    let c = if p.atmosphere {
        b
    } else {
        b.push(RootPart::Atmosphere)
    };
    let d = if p.view {
        c
    } else {
        c.push(RootPart::View)
    };
    if p.reconstruction {
        d
    } else {
        d.push(RootPart::Reconstruction)
    }
}

/// The parts a root lacks, each to be inserted with its default, so a scene file from an
/// earlier bundle still carries the whole surface once it loads.
pub fn missing_parts(p: RootParts) -> (m: Vec<RootPart>)
    ensures
        m@ == missing_spec(p),
{
    let mut m: Vec<RootPart> = Vec::new();
    if !p.package {
        m.push(RootPart::Package);
    }
    if !p.night_grade {
        m.push(RootPart::NightGrade);
    }
    if !p.atmosphere {
        m.push(RootPart::Atmosphere);
    }
    if !p.view {
        m.push(RootPart::View);
    }
    if !p.reconstruction {
        m.push(RootPart::Reconstruction);
    }
    assert(m@ =~= missing_spec(p));
    m
}

/// Whether the root carries `part`.
pub open spec fn carries(p: RootParts, part: RootPart) -> bool {
    match part {
        RootPart::Package => p.package,
        RootPart::NightGrade => p.night_grade,
        RootPart::Atmosphere => p.atmosphere,
        RootPart::View => p.view,
        RootPart::Reconstruction => p.reconstruction,
    }
}

proof fn lemma_push_part(s: Seq<RootPart>, y: RootPart, x: RootPart)
    ensures
        s.push(y).contains(x) <==> s.contains(x) || x == y,
        s.no_duplicates() && !s.contains(y) ==> s.push(y).no_duplicates(),
{
    if s.push(y).contains(x) {
        let i = choose|i: int| 0 <= i < s.push(y).len() && s.push(y)[i] == x;
        if i < s.len() {
            assert(s[i] == x);
        }
    }
    if s.contains(x) {
        let i = choose|i: int| 0 <= i < s.len() && s[i] == x;
        assert(s.push(y)[i] == x);
    }
    if x == y {
        assert(s.push(y)[s.len() as int] == x);
    }
    if s.no_duplicates() && !s.contains(y) {
        assert forall|i: int, j: int|
            0 <= i < s.push(y).len() && 0 <= j < s.push(y).len() && i != j implies s.push(y)[i]
            != s.push(y)[j] by {
            if i == s.len() {
                assert(s[j] == s.push(y)[j]);
            } else if j == s.len() {
                assert(s[i] == s.push(y)[i]);
            }
        }
    }
}

/// Completion inserts exactly what the root lacks: a part is listed exactly when the root does
/// not carry it, so a part the root carries is never replaced by its default, and none is listed
/// twice.
pub proof fn law_only_missing_parts_are_inserted(p: RootParts, part: RootPart)
    ensures
        missing_spec(p).contains(part) <==> !carries(p, part),
        missing_spec(p).no_duplicates(),
{
    let e = Seq::<RootPart>::empty();
    let a = if p.package { e } else { e.push(RootPart::Package) };
    let b = if p.night_grade { a } else { a.push(RootPart::NightGrade) };
    let c = if p.atmosphere { b } else { b.push(RootPart::Atmosphere) };
    let d = if p.view { c } else { c.push(RootPart::View) };
    let m = if p.reconstruction { d } else { d.push(RootPart::Reconstruction) };
    assert(missing_spec(p) == m);
    assert(!e.contains(part));
    assert(e.no_duplicates());
    lemma_push_part(e, RootPart::Package, part);
    lemma_push_part(e, RootPart::Package, RootPart::NightGrade);
    lemma_push_part(a, RootPart::NightGrade, part);
    lemma_push_part(a, RootPart::NightGrade, RootPart::Atmosphere);
    lemma_push_part(a, RootPart::NightGrade, RootPart::View);
    lemma_push_part(a, RootPart::NightGrade, RootPart::Reconstruction);
    lemma_push_part(e, RootPart::Package, RootPart::Atmosphere);
    lemma_push_part(e, RootPart::Package, RootPart::View);
    lemma_push_part(e, RootPart::Package, RootPart::Reconstruction);
    lemma_push_part(b, RootPart::Atmosphere, part);
    lemma_push_part(b, RootPart::Atmosphere, RootPart::View);
    lemma_push_part(b, RootPart::Atmosphere, RootPart::Reconstruction);
    lemma_push_part(c, RootPart::View, part);
    lemma_push_part(c, RootPart::View, RootPart::Reconstruction);
    lemma_push_part(d, RootPart::Reconstruction, part);
}

/// The root with `part` inserted.
pub open spec fn with_part(p: RootParts, part: RootPart) -> RootParts {
    match part {
        RootPart::Package => RootParts { package: true, ..p },
        RootPart::NightGrade => RootParts { night_grade: true, ..p },
        RootPart::Atmosphere => RootParts { atmosphere: true, ..p },
        RootPart::View => RootParts { view: true, ..p },
        RootPart::Reconstruction => RootParts { reconstruction: true, ..p },
    }
}

/// The root with every part of `parts` inserted.
pub open spec fn with_parts(p: RootParts, parts: Seq<RootPart>) -> RootParts
    decreases parts.len(),
{
    if parts.len() == 0 {
        p
    } else {
        with_part(with_parts(p, parts.drop_last()), parts.last())
    }
}

/// Completion is whole and settles: once the missing parts are inserted, nothing is missing.
pub proof fn law_completion_settles(p: RootParts)
    ensures
        missing_spec(with_parts(p, missing_spec(p))).len() == 0,
{
    let m = missing_spec(p);
    reveal_with_fuel(with_parts, 6);
    assert(with_parts(p, m) == RootParts {
        package: true,
        night_grade: true,
        atmosphere: true,
        view: true,
        reconstruction: true,
    });
}

/// The marker the celestial drive selects a light by.
#[derive(Clone, Copy, PartialEq, Eq, Debug, Structural)]
pub enum LightMarker {
    Sun,
    Moon,
}

/// `c` with ASCII upper case folded to lower case.
pub open spec fn ascii_lower(c: char) -> char {
    if 'A' <= c && c <= 'Z' {
        ((c as u32) + 32) as char
    } else {
        c
    }
}

/// Whether `a` and `b` are equal ignoring ASCII case.
pub open spec fn eq_ignore_ascii_case(a: Seq<char>, b: Seq<char>) -> bool {
    a.len() == b.len() && forall|i: int| 0 <= i < a.len() ==> ascii_lower(#[trigger] a[i])
        == ascii_lower(b[i])
}

fn lower(c: char) -> (l: char)
    ensures
        l == ascii_lower(c),
{
    if 'A' <= c && c <= 'Z' {
        let u = c as u32 + 32;
        proof {
            assert(u == (c as u32) + 32);
        }
        char_from_ascii(u)
    } else {
        c
    }
}

/// The ASCII character with code `u`.
fn char_from_ascii(u: u32) -> (c: char)
    requires
        u < 128,
    ensures
        c == u as char,
{
    let b = u as u8;
    let c = b as char;
    assert(c == u as char);
    c
}

fn eq_ignore_case(a: &[char], b: &[char]) -> (r: bool)
    ensures
        r == eq_ignore_ascii_case(a@, b@),
{
    if a.len() != b.len() {
        return false;
    }
    let mut i: usize = 0;
    while i < a.len()
        invariant
            i <= a@.len(),
            a@.len() == b@.len(),
            forall|j: int| 0 <= j < i ==> ascii_lower(#[trigger] a@[j]) == ascii_lower(b@[j]),
        decreases a@.len() - i,
    {
        if lower(a[i]) != lower(b[i]) {
            return false;
        }
        i = i + 1;
    }
    true
}

/// The marker for a light under a root that lost it, by the light's name: `sun` or `moon` in
/// any ASCII case. A light saved before the sun's marker reflected carries the light and its
/// name but not the marker.
pub open spec fn marker_spec(name: Seq<char>) -> Option<LightMarker> {
    if eq_ignore_ascii_case(name, "sun"@) {
        Some(LightMarker::Sun)
    } else if eq_ignore_ascii_case(name, "moon"@) {
        Some(LightMarker::Moon)
    } else {
        None
    }
}

/// The marker an unmarked light under a root takes, by its name.
pub fn light_marker(name: &str) -> (m: Option<LightMarker>)
    ensures
        m == marker_spec(name@),
{
    let n = chars_of(name);
    if eq_ignore_case(&n, &chars_of("sun")) {
        Some(LightMarker::Sun)
    } else if eq_ignore_case(&n, &chars_of("moon")) {
        Some(LightMarker::Moon)
    } else {
        None
    }
}

/// A directional light that carries neither celestial marker, with its name and its parent.
pub struct UnmarkedLight {
    pub id: u64,
    pub name: String,
    pub parent: u64,
}

/// The markers the unmarked lights take: a light under one of `roots` named `sun` or `moon`.
pub open spec fn marks_spec(roots: Seq<u64>, lights: Seq<UnmarkedLight>) -> Seq<(u64, LightMarker)>
    decreases lights.len(),
{
    if lights.len() == 0 {
        seq![]
    } else {
        let rest = marks_spec(roots, lights.drop_last());
        let l = lights.last();
        if roots.contains(l.parent) {
            match marker_spec(l.name@) {
                Some(m) => rest.push((l.id, m)),
                None => rest,
            }
        } else {
            rest
        }
    }
}

/// The markers to put back on the lights under weatherscape roots, by name: a light saved
/// before the sun's marker reflected as a component carries the light and not the marker, and
/// the celestial drive would have nothing to write.
pub fn lights_to_mark(roots: &[u64], lights: &[UnmarkedLight]) -> (m: Vec<(u64, LightMarker)>)
    ensures
        m@ == marks_spec(roots@, lights@),
{
    let mut m: Vec<(u64, LightMarker)> = Vec::new();
    let mut i: usize = 0;
    while i < lights.len()
        invariant
            i <= lights@.len(),
            m@ == marks_spec(roots@, lights@.take(i as int)),
        decreases lights@.len() - i,
    {
        let light = &lights[i];
        if crate::atmospherics::cameras::contains_id(roots, light.parent) {
            match light_marker(light.name.as_str()) {
                Some(marker) => m.push((light.id, marker)),
                None => {},
            }
        }
        i = i + 1;
        assert(lights@.take(i as int).drop_last() =~= lights@.take(i - 1));
    }
    assert(lights@.take(i as int) =~= lights@);
    m
}

/// Whether the sun clock is held, given whether the host is editing the scene: held while the
/// scene is edited, running under play and simulation and in a shipped game. `Some` carries the
/// new hold when it differs from `held`, so an unchanged hold is not written.
pub fn clock_hold(editing: bool, held: bool) -> (r: Option<bool>)
    ensures
        r == (if held != editing {
            Some(editing)
        } else {
            None
        }),
{
    if held != editing {
        Some(editing)
    } else {
        None
    }
}

/// For each unbuilt terrain root, the first camera it is routed to that takes a scene-wide
/// effect, if any.
pub open spec fn builds_spec(
    roots: Seq<u64>,
    routes: Seq<(u64, Seq<u64>)>,
    cameras: Seq<CameraInfo>,
) -> Seq<(u64, u64)>
    decreases roots.len(),
{
    if roots.len() == 0 {
        seq![]
    } else {
        let rest = builds_spec(roots.drop_last(), routes, cameras);
        let t = routed_targets(routes, roots.last(), cameras);
        if t.len() > 0 {
            rest.push((roots.last(), t[0]))
        } else {
            rest
        }
    }
}

/// Where the harness scene is built: under each root that has none yet, following the first
/// camera the root is routed to. A root routed to no camera waits.
pub fn terrain_builds(unbuilt: &[u64], routes: &[Route], cameras: &[CameraInfo]) -> (b: Vec<(u64, u64)>)
    ensures
        b@ == builds_spec(unbuilt@, routes_view(routes@), cameras@),
{
    let mut b: Vec<(u64, u64)> = Vec::new();
    let mut i: usize = 0;
    while i < unbuilt.len()
        invariant
            i <= unbuilt@.len(),
            b@ == builds_spec(unbuilt@.take(i as int), routes_view(routes@), cameras@),
        decreases unbuilt@.len() - i,
    {
        let root = unbuilt[i];
        let t = targets(routes, root, cameras);
        if t.len() > 0 {
            b.push((root, t[0]));
        }
        i = i + 1;
        assert(unbuilt@.take(i as int).drop_last() =~= unbuilt@.take(i - 1));
    }
    assert(unbuilt@.take(i as int) =~= unbuilt@);
    b
}

} // verus!
