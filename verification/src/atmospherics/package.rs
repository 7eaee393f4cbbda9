//! The authored Bauer package reference, and when the publication derived from it is reloaded
//! and republished. The load itself, and the field built from it, belong to the caller.

use vstd::prelude::*;
use vstd::string::StringExecFns;
use crate::atmospherics::textures::opt_view;

verus! {

/// A package is a project-relative path: the host's reflected save drops an asset handle.
pub struct BauerPackage {
    pub path: String,
}

impl Default for BauerPackage {
    fn default() -> (p: Self)
        ensures
            p.path@ == "bauer/cumulonimbus-candidate"@,
    {
        BauerPackage { path: String::from_str("bauer/cumulonimbus-candidate") }
    }
}

/// What the last accepted publication was built from, so a root whose package and hour did not
/// change is not re-accepted every frame.
pub struct Publication {
    /// The package path last accepted, if a root was seen.
    pub authored: Option<String>,
    /// The clock's hour, in steps of a tenth of an hour, last published.
    pub hour_steps: i64,
    /// Whether the accepted package loaded.
    pub loaded: bool,
}

/// What the caller does after a publication step.
pub enum PublishStep {
    /// Nothing changed.
    Nothing,
    /// Publish the unavailable (default) field.
    ResetField,
    /// Load the package at `path` (project-relative), then report with [`Publication::loaded`].
    Load { path: String },
    /// Publish the loaded package at hour `hour_steps / 10`.
    Publish { hour_steps: i64 },
}

/// A publication as values.
pub type PublicationView = (Option<Seq<char>>, i64, bool);

/// A step as values.
pub enum StepView {
    Nothing,
    ResetField,
    Load(Seq<char>),
    Publish(i64),
}

/// The value of a step.
pub open spec fn step_view(s: PublishStep) -> StepView {
    match s {
        PublishStep::Nothing => StepView::Nothing,
        PublishStep::ResetField => StepView::ResetField,
        PublishStep::Load { path } => StepView::Load(path@),
        PublishStep::Publish { hour_steps } => StepView::Publish(hour_steps),
    }
}

/// A publication's state seeing the root `root` (its package path and the clock's hour steps),
/// and what the caller is asked to do.
pub open spec fn observe_spec(
    st: PublicationView,
    root: Option<(Seq<char>, i64)>,
) -> (PublicationView, StepView) {
    let (authored, steps, loaded) = st;
    match root {
        None => if authored is Some {
            ((None, steps, false), StepView::ResetField)
        } else {
            (st, StepView::Nothing)
        },
        Some((path, now)) => if authored == Some(path) {
            if steps == now {
                (st, StepView::Nothing)
            } else if loaded {
                ((authored, now, loaded), StepView::Publish(now))
            } else {
                ((authored, now, loaded), StepView::ResetField)
            }
        } else {
            ((Some(path), now, false), StepView::Load(path))
        },
    }
}

/// A publication's state once a requested load has finished.
pub open spec fn loaded_spec(st: PublicationView, ok: bool) -> (PublicationView, StepView) {
    let (authored, steps, _) = st;
    ((authored, steps, ok), if ok {
        StepView::Publish(steps)
    } else {
        StepView::ResetField
    })
}

impl Publication {
    /// The publication as values.
    pub open spec fn view_of(&self) -> PublicationView {
        (opt_view(self.authored), self.hour_steps, self.loaded)
    }

    /// Nothing accepted yet.
    pub fn new() -> (p: Self)
        ensures
            p.view_of() == (None::<Seq<char>>, 0i64, false),
    {
        Publication { authored: None, hour_steps: 0, loaded: false }
    }

    /// Sees the weatherscape root, if any, with its package path and the clock's hour in tenths.
    ///
    /// The root going resets the field once. A new package asks for a load; the same package at a
    /// new hour republishes, or resets the field if the package failed to load; the same package
    /// at the same hour does nothing.
    pub fn observe(&mut self, root: Option<(&str, i64)>) -> (step: PublishStep)
        ensures
            (final(self).view_of(), step_view(step)) == observe_spec(
                old(self).view_of(),
                match root {
                    Some((p, h)) => Some((p@, h)),
                    None => None,
                },
            ),
    {
        match root {
            None => {
                if self.authored.is_some() {
                    self.authored = None;
                    self.loaded = false;
                    PublishStep::ResetField
                } else {
                    PublishStep::Nothing
                }
            },
            Some((path, now)) => {
                let same = match &self.authored {
                    Some(a) => crate::preprocess::chars_eq(
                        &crate::text::chars_of(a.as_str()),
                        &crate::text::chars_of(path),
                    ),
                    None => false,
                };
                if same {
                    if self.hour_steps == now {
                        PublishStep::Nothing
                    } else {
                        self.hour_steps = now;
                        if self.loaded {
                            PublishStep::Publish { hour_steps: now }
                        } else {
                            PublishStep::ResetField
                        }
                    }
                } else {
                    self.authored = Some(String::from_str(path));
                    self.hour_steps = now;
                    self.loaded = false;
                    PublishStep::Load { path: String::from_str(path) }
                }
            },
        }
    }

    /// Reports how a requested load went: a loaded package is published, a failed one leaves the
    /// field unavailable.
    pub fn loaded(&mut self, ok: bool) -> (step: PublishStep)
        ensures
            (final(self).view_of(), step_view(step)) == loaded_spec(old(self).view_of(), ok),
    {
        self.loaded = ok;
        if ok {
            PublishStep::Publish { hour_steps: self.hour_steps }
        } else {
            PublishStep::ResetField
        }
    }
}

/// A root whose package and hour did not change is not re-accepted: seeing the same root twice
/// in a row, the second sight asks for nothing.
pub proof fn law_an_unchanged_root_is_accepted_once(
    st: PublicationView,
    root: Option<(Seq<char>, i64)>,
)
    ensures
        observe_spec(observe_spec(st, root).0, root).1 == StepView::Nothing,
{
}

/// A load that succeeded is what the next hour publishes from: after a successful load, a new
/// hour of the same package republishes rather than reloads.
pub proof fn law_a_loaded_package_republishes(
    st: PublicationView,
    path: Seq<char>,
    hour: i64,
    later: i64,
)
    requires
        hour != later,
    ensures
        ({
            let s1 = observe_spec(st, Some((path, hour))).0;
            let s2 = if observe_spec(st, Some((path, hour))).1 is Load {
                loaded_spec(s1, true).0
            } else {
                s1
            };
            s2.2 ==> observe_spec(s2, Some((path, later))).1 == StepView::Publish(later)
        }),
{
}

} // verus!
