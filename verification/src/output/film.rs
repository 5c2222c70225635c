//! The production film: beauty plus auxiliary layers. Every layer is a full-resolution
//! plane; scalar layers (depth, id) live in x.

use crate::math::Vec3;
use vstd::prelude::*;

verus! {

/// The rows of an image.
pub open spec fn image_views(v: Seq<Vec<Vec3>>) -> Seq<Seq<Vec3>> {
    v.map_values(|row: Vec<Vec3>| row@)
}

/// A rendered frame with all its layers.
#[derive(Debug)]
pub struct Film {
    pub beauty: Vec<Vec<Vec3>>,
    pub diffuse: Vec<Vec<Vec3>>,
    pub specular: Vec<Vec<Vec3>>,
    pub albedo: Vec<Vec<Vec3>>,
    pub normal: Vec<Vec<Vec3>>,
    /// x = depth (mean over samples that hit; background stays 0).
    pub depth: Vec<Vec<Vec3>>,
    /// x = dominant object id, y = coverage of that id in [0,1].
    pub id: Vec<Vec<Vec3>>,
    /// Names by object id, in the order of the ids.
    pub manifest: Vec<(u32, String)>,
}

/// What a film is.
pub struct FilmView {
    pub beauty: Seq<Seq<Vec3>>,
    pub diffuse: Seq<Seq<Vec3>>,
    pub specular: Seq<Seq<Vec3>>,
    pub albedo: Seq<Seq<Vec3>>,
    pub normal: Seq<Seq<Vec3>>,
    pub depth: Seq<Seq<Vec3>>,
    pub id: Seq<Seq<Vec3>>,
    pub manifest: Seq<(u32, Seq<char>)>,
}

pub open spec fn manifest_views(v: Seq<(u32, String)>) -> Seq<(u32, Seq<char>)> {
    v.map_values(|e: (u32, String)| (e.0, e.1@))
}

impl View for Film {
    type V = FilmView;

    open spec fn view(&self) -> FilmView {
        FilmView {
            beauty: image_views(self.beauty@),
            diffuse: image_views(self.diffuse@),
            specular: image_views(self.specular@),
            albedo: image_views(self.albedo@),
            normal: image_views(self.normal@),
            depth: image_views(self.depth@),
            id: image_views(self.id@),
            manifest: manifest_views(self.manifest@),
        }
    }
}

impl Film {
    /// The length of the first row, or 0 where there is none.
    pub fn width(&self) -> (r: usize)
        ensures
            r == if self@.beauty.len() > 0 {
                self@.beauty[0].len()
            } else {
                0
            },
    {
        if self.beauty.len() > 0 {
            self.beauty[0].len()
        } else {
            0
        }
    }

    /// The number of rows.
    pub fn height(&self) -> (r: usize)
        ensures
            r == self@.beauty.len(),
    {
        self.beauty.len()
    }
}

/// How often an id occurs.
pub open spec fn votes_for(ids: Seq<u32>, id: u32) -> nat
    decreases ids.len(),
{
    if ids.len() == 0 {
        0
    } else {
        votes_for(ids.drop_last(), id) + if ids.last() == id {
            1nat
        } else {
            0
        }
    }
}

proof fn unseen_has_no_votes(ids: Seq<u32>, id: u32)
    requires
        !ids.contains(id),
    ensures
        votes_for(ids, id) == 0,
    decreases ids.len(),
{
    if ids.len() > 0 {
        assert(ids[ids.len() - 1] == ids.last());
        assert forall|k: int| 0 <= k < ids.drop_last().len() implies ids.drop_last()[k] != id by {
            assert(ids[k] != id);
        }
        unseen_has_no_votes(ids.drop_last(), id);
    }
}

/// Each id that occurs, once, with how often it does.
spec fn is_tally(ids: Seq<u32>, tally: Seq<(u32, u32)>) -> bool {
    &&& forall|k: int|
        0 <= k < tally.len() ==> (#[trigger] tally[k]).1 == votes_for(ids, tally[k].0)
            && ids.contains(tally[k].0)
    &&& forall|j: int, k: int|
        0 <= j < k < tally.len() ==> (#[trigger] tally[j]).0 != (#[trigger] tally[k]).0
    &&& forall|i: int|
        0 <= i < ids.len() ==> exists|k: int|
            0 <= k < tally.len() && (#[trigger] tally[k]).0 == #[trigger] ids[i]
}

/// One more vote.
fn add_vote(tally: &mut Vec<(u32, u32)>, id: u32, Ghost(ids): Ghost<Seq<u32>>)
    requires
        is_tally(ids, old(tally)@),
        ids.len() < u32::MAX,
    ensures
        is_tally(ids.push(id), final(tally)@),
{
    let ghost before = tally@;
    let ghost more = ids.push(id);
    let n: usize = tally.len();
    proof {
        assert(more.drop_last() =~= ids);
        assert forall|x: u32| ids.contains(x) implies more.contains(x) by {
            let k = choose|k: int| 0 <= k < ids.len() && ids[k] == x;
            assert(more[k] == x);
        }
        assert(more[ids.len() as int] == id);
        assert(more.contains(id));
    }
    let mut k: usize = 0;
    while k < n
        invariant
            k <= n == tally@.len(),
            tally@ == before,
            forall|j: int| 0 <= j < k ==> (#[trigger] before[j]).0 != id,
        ensures
            k <= n == tally@.len(),
            tally@ == before,
            k < n ==> before[k as int].0 == id,
            k == n ==> forall|j: int| 0 <= j < n ==> (#[trigger] before[j]).0 != id,
        decreases n - k,
    {
        if tally[k].0 == id {
            break;
        }
        k += 1;
    }
    if k < n {
        let count: u32 = tally[k].1;
        proof {
            assert(before[k as int].1 == votes_for(ids, id));
            votes_bounded(ids, id);
        }
        tally.set(k, (id, count + 1));
        proof {
            assert forall|i: int| 0 <= i < more.len() implies exists|j: int|
                0 <= j < tally@.len() && (#[trigger] tally@[j]).0 == #[trigger] more[i] by {
                if i < ids.len() {
                    assert(ids[i] == more[i]);
                    let j = choose|j: int|
                        0 <= j < before.len() && (#[trigger] before[j]).0 == ids[i];
                    assert(tally@[j].0 == more[i]);
                } else {
                    assert(tally@[k as int].0 == more[i]);
                }
            }
        }
    } else {
        tally.push((id, 1));
        proof {
            if ids.contains(id) {
                let i = choose|i: int| 0 <= i < ids.len() && ids[i] == id;
                let j = choose|j: int| 0 <= j < before.len() && (#[trigger] before[j]).0 == ids[i];
                assert(before[j].0 != id);
            }
            unseen_has_no_votes(ids, id);
            assert forall|i: int| 0 <= i < more.len() implies exists|j: int|
                0 <= j < tally@.len() && (#[trigger] tally@[j]).0 == #[trigger] more[i] by {
                if i < ids.len() {
                    assert(ids[i] == more[i]);
                    let j = choose|j: int|
                        0 <= j < before.len() && (#[trigger] before[j]).0 == ids[i];
                    assert(tally@[j].0 == more[i]);
                } else {
                    assert(tally@[n as int].0 == more[i]);
                }
            }
        }
    }
}

proof fn votes_bounded(ids: Seq<u32>, id: u32)
    ensures
        votes_for(ids, id) <= ids.len(),
    decreases ids.len(),
{
    if ids.len() > 0 {
        votes_bounded(ids.drop_last(), id);
    }
}

/// The object id that most samples of a pixel hit, and how many of them did: an id that
/// occurs, with no other occurring more often. No samples give no votes for id 0.
pub fn dominant_id(ids: &Vec<u32>) -> (r: (u32, u32))
    requires
        ids@.len() <= u32::MAX,
    ensures
        ids@.len() == 0 ==> r == (0u32, 0u32),
        ids@.len() > 0 ==> ids@.contains(r.0),
        r.1 == votes_for(ids@, r.0),
        forall|id: u32| #[trigger] votes_for(ids@, id) <= r.1,
{
    let n: usize = ids.len();
    let mut tally: Vec<(u32, u32)> = Vec::new();
    let mut i: usize = 0;
    assert(ids@.take(0) =~= seq![]);
    while i < n
        invariant
            i <= n == ids@.len(),
            n <= u32::MAX,
            is_tally(ids@.take(i as int), tally@),
        decreases n - i,
    {
        add_vote(&mut tally, ids[i], Ghost(ids@.take(i as int)));
        assert(ids@.take(i + 1) =~= ids@.take(i as int).push(ids@[i as int]));
        i += 1;
    }
    assert(ids@.take(n as int) =~= ids@);
    let m: usize = tally.len();
    if m == 0 {
        proof {
            if n > 0 {
                let j = choose|j: int| 0 <= j < tally@.len() && (#[trigger] tally@[j]).0 == ids@[0];
                assert(false);
            }
            assert forall|id: u32| #[trigger] votes_for(ids@, id) == 0 by {
                unseen_has_no_votes(ids@, id);
            }
        }
        return (0, 0);
    }
    let mut best: (u32, u32) = tally[0];
    let mut k: usize = 1;
    while k < m
        invariant
            1 <= k <= m == tally@.len(),
            is_tally(ids@, tally@),
            exists|j: int| 0 <= j < m && #[trigger] tally@[j] == best,
            forall|j: int| 0 <= j < k ==> (#[trigger] tally@[j]).1 <= best.1,
        decreases m - k,
    {
        if tally[k].1 > best.1 {
            best = tally[k];
        }
        k += 1;
    }
    proof {
        assert forall|id: u32| #[trigger] votes_for(ids@, id) <= best.1 by {
            if ids@.contains(id) {
                let i = choose|i: int| 0 <= i < ids@.len() && ids@[i] == id;
                let j = choose|j: int| 0 <= j < tally@.len() && (#[trigger] tally@[j]).0 == ids@[i];
                assert(tally@[j].1 <= best.1);
            } else {
                unseen_has_no_votes(ids@, id);
            }
        }
    }
    best
}

} // verus!
