//! The course of a path: what a ray that meets something does next, how many bounces and
//! crossings it may have, which layer its light counts for, and in which medium it
//! travels. Radiance, directions and distances are the tracer's; what it finds at each
//! step comes in as an event.

use crate::raytracer::pt::medium;
use crate::raytracer::pt::medium::{MediumStack, MediumView};
use vstd::prelude::*;

verus! {

/// Bounces of a path where there are no media.
pub const MAX_BOUNCES: usize = 10;

/// Bounces of a path where there are: a cloud scatters often.
pub const MAX_BOUNCES_IN_MEDIA: usize = 64;

/// From this bounce on a path may be ended at random.
pub const RR_START: usize = 3;

/// Crossings of hulls and cutouts, which are no bounces.
pub const MAX_PRESENCE_SKIPS: usize = 16;

/// How often a path may bounce.
pub fn max_bounces(has_media: bool) -> (r: usize)
    ensures
        r == if has_media {
            MAX_BOUNCES_IN_MEDIA
        } else {
            MAX_BOUNCES
        },
{
    if has_media {
        MAX_BOUNCES_IN_MEDIA
    } else {
        MAX_BOUNCES
    }
}

/// Where a path stands.
#[derive(Clone, Copy, Debug)]
pub struct PathState {
    pub depth: usize,
    pub skips: usize,
    /// The path has not bounced yet.
    pub from_camera: bool,
    /// Whether its first bounce was specular.
    pub first_specular: Option<bool>,
    /// The first thing that it met has been recorded.
    pub recorded: bool,
    pub media: MediumStack,
}

/// What the state of a path is.
#[verifier::ext_equal]
pub struct PathView {
    pub depth: int,
    pub skips: int,
    pub from_camera: bool,
    pub first_specular: Option<bool>,
    pub recorded: bool,
    pub media: MediumView,
}

impl View for PathState {
    type V = PathView;

    open spec fn view(&self) -> PathView {
        PathView {
            depth: self.depth as int,
            skips: self.skips as int,
            from_camera: self.from_camera,
            first_specular: self.first_specular,
            recorded: self.recorded,
            media: self.media@,
        }
    }
}

/// A path that leaves the camera.
pub open spec fn first_state(atmosphere: Option<u32>) -> PathView {
    PathView {
        depth: 0,
        skips: 0,
        from_camera: true,
        first_specular: None,
        recorded: false,
        media: MediumView { media: seq![], atmosphere },
    }
}

/// What a ray meets: the interior of the surface, whether it is a fibre, whether it
/// scatters or emits light, and whether its presence lets this ray through.
#[derive(Clone, Copy, Debug, PartialEq, Eq, Structural)]
pub struct HitFacts {
    pub interior: Option<u32>,
    pub is_hair: bool,
    pub has_lobes: bool,
    pub emits: bool,
    pub passes: bool,
}

/// What becomes of a meeting.
#[derive(Clone, Copy, Debug, PartialEq, Eq, Structural)]
pub enum Meeting {
    /// An invisible hull: the ray changes its medium and goes on.
    Hull(u32),
    /// The surface is not present here: the ray goes on.
    Cutout,
    /// The ray scatters.
    Surface,
}

/// The interior of a hull: of a surface that only bounds a medium.
pub open spec fn hull_interior(h: HitFacts) -> Option<u32> {
    if !h.is_hair && !h.has_lobes && !h.emits {
        h.interior
    } else {
        None
    }
}

/// What becomes of a meeting, after so many crossings.
pub open spec fn met(skips: int, h: HitFacts) -> Meeting {
    if skips >= MAX_PRESENCE_SKIPS {
        Meeting::Surface
    } else {
        match hull_interior(h) {
            Some(medium) => Meeting::Hull(medium),
            None => if h.passes {
                Meeting::Cutout
            } else {
                Meeting::Surface
            },
        }
    }
}

/// What a path does at a step.
#[derive(Clone, Copy, Debug)]
pub enum PathEvent {
    /// It scatters in the medium.
    Scatter { survives: bool },
    /// It leaves the scene, or has no light left to carry.
    Ends,
    /// It crosses a hull.
    Crossing { interior: u32, front_face: bool },
    /// It passes a cutout.
    Cutout,
    /// It scatters at a surface; through it into or out of an interior where it has one.
    Bounce { specular: bool, through: Option<(u32, bool)>, survives: bool },
}

/// The media after a crossing.
pub open spec fn crossed(media: MediumView, interior: u32, inwards: bool) -> MediumView {
    if inwards {
        medium::entered(media, interior)
    } else {
        medium::left(media)
    }
}

/// The path after a bounce; none where it was ended at random or may not bounce again.
pub open spec fn bounced(s: PathView, specular: bool, survives: bool, max: int) -> Option<PathView> {
    if (s.depth + 1 >= RR_START && !survives) || s.depth + 1 >= max {
        None
    } else {
        Some(
            PathView {
                depth: s.depth + 1,
                from_camera: false,
                first_specular: Some(
                    match s.first_specular {
                        Some(b) => b,
                        None => specular,
                    },
                ),
                recorded: true,
                ..s
            },
        )
    }
}

/// The path after an event; none where it has ended.
pub open spec fn stepped(s: PathView, e: PathEvent, max: int) -> Option<PathView> {
    match e {
        PathEvent::Scatter { survives } => bounced(s, false, survives, max),
        PathEvent::Ends => None,
        PathEvent::Crossing { interior, front_face } => Some(
            PathView {
                skips: s.skips + 1,
                media: crossed(s.media, interior, front_face),
                ..s
            },
        ),
        PathEvent::Cutout => Some(PathView { skips: s.skips + 1, recorded: true, ..s }),
        PathEvent::Bounce { specular, through, survives } => {
            let media = match through {
                Some((interior, inwards)) => crossed(s.media, interior, inwards),
                None => s.media,
            };
            bounced(PathView { media, ..s }, specular, survives, max)
        },
    }
}

/// Whether an event is one that can come: hulls and cutouts only as long as they are let
/// through.
pub open spec fn can_come(s: PathView, e: PathEvent) -> bool {
    (e is Crossing || e is Cutout) ==> s.skips < MAX_PRESENCE_SKIPS
}

/// Whether light that the path finds now counts for the diffuse layer.
pub open spec fn counts_as_diffuse(s: PathView) -> bool {
    s.first_specular != Some(true)
}

impl PathState {
    /// A path that leaves the camera.
    pub fn new(atmosphere: Option<u32>) -> (r: PathState)
        ensures
            r@ == first_state(atmosphere),
    {
        let r: PathState = PathState {
            depth: 0,
            skips: 0,
            from_camera: true,
            first_specular: None,
            recorded: false,
            media: MediumStack::new(atmosphere),
        };
        assert(r@ =~= first_state(atmosphere));
        r
    }

    /// Whether light that the path finds now counts for the diffuse layer.
    pub fn is_diffuse(&self) -> (r: bool)
        ensures
            r == counts_as_diffuse(self@),
    {
        match self.first_specular {
            Some(b) => !b,
            None => true,
        }
    }

    /// Whether the bounce that follows may be the random end of the path.
    pub fn plays_roulette(&self) -> (r: bool)
        ensures
            r == (self@.depth + 1 >= RR_START),
    {
        self.depth >= RR_START - 1
    }

    /// What becomes of a meeting.
    pub fn meet(&self, h: &HitFacts) -> (r: Meeting)
        ensures
            r == met(self@.skips, *h),
    {
        if self.skips >= MAX_PRESENCE_SKIPS {
            return Meeting::Surface;
        }
        match interior_of_hull(h) {
            Some(medium) => Meeting::Hull(medium),
            None => if h.passes {
                Meeting::Cutout
            } else {
                Meeting::Surface
            },
        }
    }

    /// The path after an event; none where it has ended.
    pub fn step(&self, e: PathEvent, max: usize) -> (r: Option<PathState>)
        requires
            self@.depth < max,
            can_come(self@, e),
        ensures
            opt_path(r) == stepped(self@, e, max as int),
    {
        let mut next: PathState = *self;
        match e {
            PathEvent::Scatter { survives } => bounce(next, false, survives, max),
            PathEvent::Ends => None,
            PathEvent::Crossing { interior, front_face } => {
                next.skips = self.skips + 1;
                next.media = cross(self.media, interior, front_face);
                Some(next)
            },
            PathEvent::Cutout => {
                next.skips = self.skips + 1;
                next.recorded = true;
                Some(next)
            },
            PathEvent::Bounce { specular, through, survives } => {
                match through {
                    Some((interior, inwards)) => {
                        next.media = cross(self.media, interior, inwards);
                    },
                    None => {},
                }
                bounce(next, specular, survives, max)
            },
        }
    }
}

/// What an optional state is.
pub open spec fn opt_path(s: Option<PathState>) -> Option<PathView> {
    match s {
        Some(s) => Some(s@),
        None => None,
    }
}

/// The interior of a hull.
pub fn interior_of_hull(h: &HitFacts) -> (r: Option<u32>)
    ensures
        r == hull_interior(*h),
{
    if !h.is_hair && !h.has_lobes && !h.emits {
        h.interior
    } else {
        None
    }
}

/// The media after a crossing.
pub fn cross(media: MediumStack, interior: u32, inwards: bool) -> (r: MediumStack)
    ensures
        r@ == crossed(media@, interior, inwards),
{
    let mut next: MediumStack = media;
    if inwards {
        next.push(interior);
    } else {
        next.pop();
    }
    next
}

/// The path after a bounce.
fn bounce(s: PathState, specular: bool, survives: bool, max: usize) -> (r: Option<PathState>)
    requires
        s@.depth < max,
    ensures
        opt_path(r) == bounced(s@, specular, survives, max as int),
{
    if (s.depth >= RR_START - 1 && !survives) || s.depth + 1 >= max {
        return None;
    }
    let mut next: PathState = s;
    next.depth = s.depth + 1;
    next.from_camera = false;
    next.first_specular = Some(
        match s.first_specular {
            Some(b) => b,
            None => specular,
        },
    );
    next.recorded = true;
    Some(next)
}

/// The media around a shadow ray: those of the point that it leaves, which is in one
/// medium at most.
pub fn shadow_media(atmosphere: Option<u32>, medium: Option<u32>) -> (r: MediumStack)
    ensures
        r@ == (MediumView {
            media: match medium {
                Some(m) => if Some(m) != atmosphere {
                    seq![m]
                } else {
                    seq![]
                },
                None => seq![],
            },
            atmosphere,
        }),
        current_after(r@, atmosphere, medium),
{
    let mut media: MediumStack = MediumStack::new(atmosphere);
    match medium {
        Some(m) => {
            let same: bool = match atmosphere {
                Some(a) => a == m,
                None => false,
            };
            if !same {
                media.push(m);
                assert(media@.media =~= seq![m]);
            } else {
                assert(media@.media =~= seq![]);
            }
        },
        None => {
            assert(media@.media =~= seq![]);
        },
    }
    media
}

/// The stack stands in that medium, or in the atmosphere where there is none.
pub open spec fn current_after(
    s: MediumView,
    atmosphere: Option<u32>,
    medium: Option<u32>,
) -> bool {
    medium::current_medium(s) == match medium {
        Some(m) => Some(m),
        None => atmosphere,
    }
}

/// The path after a number of events.
pub open spec fn walked(s: PathView, events: Seq<PathEvent>, max: int) -> Option<PathView>
    decreases events.len(),
{
    if events.len() == 0 {
        Some(s)
    } else {
        match walked(s, events.drop_last(), max) {
            Some(t) => if can_come(t, events.last()) {
                stepped(t, events.last(), max)
            } else {
                None
            },
            None => None,
        }
    }
}

/// A path ends: one that is still on its way has taken fewer steps than its bounces and
/// crossings together.
pub proof fn paths_end(atmosphere: Option<u32>, events: Seq<PathEvent>, max: int)
    requires
        max >= 1,
    ensures
        walked(first_state(atmosphere), events, max) matches Some(t) ==> {
            &&& events.len() == t.depth + t.skips
            &&& t.depth < max
            &&& t.skips <= MAX_PRESENCE_SKIPS
        },
    decreases events.len(),
{
    if events.len() > 0 {
        paths_end(atmosphere, events.drop_last(), max);
    }
}

/// The layer that a path counts for is settled by its first bounce.
pub proof fn layer_is_settled(s: PathView, e: PathEvent, max: int)
    requires
        s.first_specular is Some,
    ensures
        stepped(s, e, max) matches Some(t) ==> t.first_specular == s.first_specular,
{
}

/// Through a hull and out again a path is back in the medium that it was in.
pub proof fn crossing_returns(s: PathView, interior: u32, max: int)
    requires
        s.media.media.len() < medium::MAX_NESTED,
    ensures
        ({
            let t = stepped(s, PathEvent::Crossing { interior, front_face: true }, max)->0;
            let u = stepped(t, PathEvent::Crossing { interior, front_face: false }, max)->0;
            &&& medium::current_medium(t.media) == Some(interior)
            &&& u.media == s.media
        }),
{
    medium::leaving_returns(s.media, interior);
}

} // verus!
