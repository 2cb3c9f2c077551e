//! The scene: an insertion-ordered list of spheres, answering the
//! nearest-intersection query by a linear scan that shrinks the far end of
//! the range to the closest hit found so far. When two members report the
//! same distance the earlier-inserted one wins (the scan only accepts a
//! strictly nearer hit).

use vstd::prelude::*;
use crate::hittable::{HitInfo, HitV, Hittable, hit_view, t_range_wf};
use crate::ray::{Ray, RayV, ray_wf};
use crate::sphere::{
    Sphere, SphereV, lemma_ray_wf_a_pos, lemma_sphere_hit_in_range, lemma_sphere_hit_narrow,
    lemma_sphere_hit_widen, sphere_hit_spec, sphere_wf,
};

verus! {

/// A scene of spheres.
pub struct HittableList {
    objects: Vec<Sphere>,
}

impl View for HittableList {
    type V = Seq<SphereV>;

    closed spec fn view(&self) -> Seq<SphereV> {
        self.objects@.map_values(|o: Sphere| o@)
    }
}

/// Every member is a sphere the tracer can work over.
pub open spec fn list_wf(objs: Seq<SphereV>) -> bool {
    forall|i: int| 0 <= i < objs.len() ==> sphere_wf(#[trigger] objs[i])
}

/// The scan's answer over a sequence of spheres: the answer over all but
/// the last member, improved by the last member if it reports a hit
/// strictly nearer than the best so far.
pub open spec fn list_hit_spec(objs: Seq<SphereV>, r: RayV, t_min: int, t_max: int) -> Option<
    HitV,
>
    decreases objs.len(),
{
    if objs.len() == 0 {
        None
    } else {
        let prefix = list_hit_spec(objs.drop_last(), r, t_min, t_max);
        let closest = match prefix {
            Some(h) => h.t,
            None => t_max,
        };
        match sphere_hit_spec(objs.last(), r, t_min, closest) {
            Some(h2) => Some(h2),
            None => prefix,
        }
    }
}

impl HittableList {
    /// An empty scene.
    pub fn new() -> (r: Self)
        ensures
            r@ == Seq::<SphereV>::empty(),
    {
        let r = Self { objects: Vec::new() };
        proof {
            assert(r@ =~= Seq::<SphereV>::empty());
        }
        r
    }

    /// Remove every object.
    pub fn clear(&mut self)
        ensures
            final(self)@ == Seq::<SphereV>::empty(),
    {
        self.objects = Vec::new();
        proof {
            assert(self@ =~= Seq::<SphereV>::empty());
        }
    }

    /// Append an object; it is considered after all earlier ones when hits
    /// tie.
    pub fn add(&mut self, obj: Sphere)
        ensures
            final(self)@ == old(self)@.push(obj@),
    {
        self.objects.push(obj);
        proof {
            assert(self@ =~= old(self)@.push(obj@));
        }
    }
}

impl Default for HittableList {
    /// An empty scene.
    fn default() -> (r: Self)
        ensures
            r@ == Seq::<SphereV>::empty(),
    {
        Self::new()
    }
}

impl Hittable for HittableList {
    open spec fn hit_ok(&self, r: RayV, t_min: int, t_max: int) -> bool {
        list_wf(self@) && ray_wf(r) && t_range_wf(t_min, t_max)
    }

    open spec fn hit_spec(&self, r: RayV, t_min: int, t_max: int) -> Option<HitV> {
        list_hit_spec(self@, r, t_min, t_max)
    }

    fn hit(&self, ray: &Ray, t_min: i128, t_max: i128) -> (res: Option<HitInfo>) {
        let mut res: Option<HitInfo> = None;
        let mut closest: i128 = t_max;
        let n = self.objects.len();
        proof {
            assert(self@.len() == n as int);
        }
        let mut i: usize = 0;
        while i < n
            invariant
                i <= n,
                n == self.objects.len(),
                self@.len() == n as int,
                self@ == self.objects@.map_values(|o: Sphere| o@),
                list_wf(self@),
                ray_wf(ray@),
                t_range_wf(t_min as int, t_max as int),
                hit_view(res) == list_hit_spec(
                    self@.take(i as int),
                    ray@,
                    t_min as int,
                    t_max as int,
                ),
                closest as int == match hit_view(res) {
                    Some(h) => h.t,
                    None => t_max as int,
                },
                match hit_view(res) {
                    Some(h) => t_min < h.t < t_max,
                    None => true,
                },
            decreases n - i,
        {
            let obj = self.objects[i];
            proof {
                assert(obj@ == self@[i as int]);
                assert(sphere_wf(obj@));
            }
            let sub = obj.hit(ray, t_min, closest);
            proof {
                lemma_sphere_hit_in_range(obj@, ray@, t_min as int, closest as int);
                assert(self@.take(i + 1).drop_last() =~= self@.take(i as int));
                assert(self@.take(i + 1).last() == self@[i as int]);
            }
            if let Some(info) = sub {
                closest = info.t;
                res = Some(info);
            }
            i = i + 1;
        }
        proof {
            assert(self@.take(n as int) =~= self@);
        }
        res
    }
}

/// One direction of order independence: when one scene reports a hit, a
/// scene holding the same spheres reports one no farther away.
proof fn lemma_list_hit_transfer(
    objs1: Seq<SphereV>,
    objs2: Seq<SphereV>,
    r: RayV,
    t_min: int,
    t_max: int,
)
    requires
        ray_wf(r),
        objs1.to_multiset() == objs2.to_multiset(),
        list_hit_spec(objs1, r, t_min, t_max) is Some,
    ensures
        list_hit_spec(objs2, r, t_min, t_max) is Some,
        list_hit_spec(objs2, r, t_min, t_max)->Some_0.t <= list_hit_spec(
            objs1,
            r,
            t_min,
            t_max,
        )->Some_0.t,
{
    lemma_list_hit_nearest(objs1, r, t_min, t_max);
    lemma_list_hit_nearest(objs2, r, t_min, t_max);
    objs1.to_multiset_ensures();
    objs2.to_multiset_ensures();
    let h1 = list_hit_spec(objs1, r, t_min, t_max)->Some_0;
    let i = choose|i: int|
        0 <= i < objs1.len() && sphere_hit_spec(#[trigger] objs1[i], r, t_min, t_max) == Some(h1);
    assert(objs1.contains(objs1[i]));
    assert(objs1.to_multiset().count(objs1[i]) > 0);
    assert(objs2.to_multiset().count(objs1[i]) > 0);
    assert(objs2.contains(objs1[i]));
    let j = choose|j: int| 0 <= j < objs2.len() && objs2[j] == objs1[i];
    assert(sphere_hit_spec(objs2[j], r, t_min, t_max) == Some(h1));
}

/// The nearest distance does not depend on insertion order: two scenes
/// holding the same spheres agree on whether a ray hits and on the distance
/// of the nearest hit. (Only when two members report the very same distance
/// does the order matter, and then only for which of the tied records is
/// returned: the earlier-inserted one.)
pub proof fn lemma_list_hit_order_independent(
    objs1: Seq<SphereV>,
    objs2: Seq<SphereV>,
    r: RayV,
    t_min: int,
    t_max: int,
)
    requires
        ray_wf(r),
        objs1.to_multiset() == objs2.to_multiset(),
    ensures
        (list_hit_spec(objs1, r, t_min, t_max) is Some) == (list_hit_spec(
            objs2,
            r,
            t_min,
            t_max,
        ) is Some),
        (list_hit_spec(objs1, r, t_min, t_max) is Some) ==> list_hit_spec(
            objs1,
            r,
            t_min,
            t_max,
        )->Some_0.t == list_hit_spec(objs2, r, t_min, t_max)->Some_0.t,
{
    if list_hit_spec(objs1, r, t_min, t_max) is Some {
        lemma_list_hit_transfer(objs1, objs2, r, t_min, t_max);
        lemma_list_hit_transfer(objs2, objs1, r, t_min, t_max);
    } else if list_hit_spec(objs2, r, t_min, t_max) is Some {
        lemma_list_hit_transfer(objs2, objs1, r, t_min, t_max);
    }
}

/// The scan always answers with the hit of globally smallest parametric
/// distance among its members, never a farther one, and answers `None`
/// exactly when no member reports a hit. When two members report the same
/// distance, the scan's answer is still one of smallest distance.
#[verifier::rlimit(100)]
pub proof fn lemma_list_hit_nearest(objs: Seq<SphereV>, r: RayV, t_min: int, t_max: int)
    requires
        ray_wf(r),
    ensures
        match list_hit_spec(objs, r, t_min, t_max) {
            Some(h) => {
                &&& t_min < h.t < t_max
                &&& exists|i: int|
                    0 <= i < objs.len() && sphere_hit_spec(#[trigger] objs[i], r, t_min, t_max)
                        == Some(h)
                &&& forall|i: int|
                    0 <= i < objs.len() ==> match sphere_hit_spec(
                        #[trigger] objs[i],
                        r,
                        t_min,
                        t_max,
                    ) {
                        Some(g) => g.t >= h.t,
                        None => true,
                    }
            },
            None => forall|i: int|
                0 <= i < objs.len() ==> sphere_hit_spec(#[trigger] objs[i], r, t_min, t_max) is None,
        },
    decreases objs.len(),
{
    lemma_ray_wf_a_pos(r);
    if objs.len() == 0 {
    } else {
        let n = objs.len() as int;
        let prefix_objs = objs.drop_last();
        let last = objs.last();
        assert(forall|i: int| 0 <= i < n - 1 ==> prefix_objs[i] == #[trigger] objs[i]);
        assert(objs[n - 1] == last);
        lemma_list_hit_nearest(prefix_objs, r, t_min, t_max);
        let prefix = list_hit_spec(prefix_objs, r, t_min, t_max);
        let closest = match prefix {
            Some(h) => h.t,
            None => t_max,
        };
        lemma_sphere_hit_in_range(last, r, t_min, closest);
        match sphere_hit_spec(last, r, t_min, closest) {
            Some(h2) => {
                lemma_sphere_hit_widen(last, r, t_min, closest, t_max);
                assert(list_hit_spec(objs, r, t_min, t_max) == Some(h2));
                assert(sphere_hit_spec(objs[n - 1], r, t_min, t_max) == Some(h2));
                assert(exists|i: int|
                    0 <= i < n && sphere_hit_spec(#[trigger] objs[i], r, t_min, t_max) == Some(h2));
                assert forall|i: int| 0 <= i < n implies match sphere_hit_spec(
                    #[trigger] objs[i],
                    r,
                    t_min,
                    t_max,
                ) {
                    Some(g) => g.t >= h2.t,
                    None => true,
                } by {
                    if i < n - 1 {
                        assert(objs[i] == prefix_objs[i]);
                    }
                }
            },
            None => {
                match prefix {
                    Some(hp) => {
                        assert(list_hit_spec(objs, r, t_min, t_max) == Some(hp));
                        let j = choose|j: int|
                            0 <= j < n - 1 && sphere_hit_spec(
                                #[trigger] prefix_objs[j],
                                r,
                                t_min,
                                t_max,
                            ) == Some(hp);
                        assert(objs[j] == prefix_objs[j]);
                        assert(exists|i: int|
                            0 <= i < n && sphere_hit_spec(#[trigger] objs[i], r, t_min, t_max)
                                == Some(hp));
                        assert forall|i: int| 0 <= i < n implies match sphere_hit_spec(
                            #[trigger] objs[i],
                            r,
                            t_min,
                            t_max,
                        ) {
                            Some(g) => g.t >= hp.t,
                            None => true,
                        } by {
                            if i < n - 1 {
                                assert(objs[i] == prefix_objs[i]);
                            } else {
                                match sphere_hit_spec(last, r, t_min, t_max) {
                                    Some(g) => {
                                        if g.t < hp.t {
                                            lemma_sphere_hit_narrow(last, r, t_min, hp.t, t_max);
                                            assert(false);
                                        }
                                    },
                                    None => {},
                                }
                            }
                        }
                    },
                    None => {
                        assert(list_hit_spec(objs, r, t_min, t_max) is None);
                        assert forall|i: int| 0 <= i < n implies sphere_hit_spec(
                            #[trigger] objs[i],
                            r,
                            t_min,
                            t_max,
                        ) is None by {
                            if i < n - 1 {
                                assert(objs[i] == prefix_objs[i]);
                            }
                        }
                    },
                }
            },
        }
    }
}

} // verus!
