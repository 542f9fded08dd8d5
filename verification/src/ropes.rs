use vstd::prelude::*;
use slab::Slab;
use crate::measure::{Approach, Crossing, Reach};
use crate::network::{Network, Point, REPETITIONS, Stick, hop, lemma_filter_agree, pair};
use crate::order::{is_permutation, random_order};
use crate::scalar::Scalar;
use crate::slots::{
    lists_ascending, slab_clone, slab_get, slab_insert, slab_keys, slab_new, slab_points,
    slab_remove, slab_set,
};
use crate::vector::Vector;

verus! {

/// A network of point masses and the links between them.
pub struct Ropes {
    points: Slab<Point>,
    sticks: Vec<Stick>,
}

impl View for Ropes {
    type V = Network;

    closed spec fn view(&self) -> Network {
        Network { points: slab_points(self.points), sticks: self.sticks@ }
    }
}

impl Ropes {
    /// The invariant of the stored network; see [`Network::wf`].
    pub open spec fn wf(&self) -> bool {
        self@.wf()
    }

    /// The empty network.
    pub fn new() -> (ropes: Self)
        ensures
            ropes.wf(),
            ropes@ == Network::empty(),
    {
        let ropes = Self { points: slab_new(), sticks: Vec::new() };
        assert(ropes@ =~= Network::empty());
        ropes
    }

    /// Adds a free point at rest at `position` and returns its key, which
    /// named no live point before.
    pub fn add_point(&mut self, position: Vector<Scalar>) -> (key: usize)
        requires
            old(self).wf(),
        ensures
            final(self).wf(),
            !old(self)@.live(key),
            final(self)@ == old(self)@.add_point(key, position),
    {
        let key = slab_insert(&mut self.points, Point::new(position));
        assert(self@ =~= old(self)@.add_point(key, position));
        key
    }

    /// Flips the lock of the point under `key`; does nothing if there is none.
    pub fn toggle_locked(&mut self, key: usize)
        requires
            old(self).wf(),
        ensures
            final(self).wf(),
            final(self)@ == old(self)@.toggle_locked(key),
    {
        match slab_get(&self.points, key) {
            Some(point) => {
                let flipped = Point {
                    position: point.position,
                    last_position: point.last_position,
                    locked: !point.locked,
                };
                slab_set(&mut self.points, key, flipped);
                assert(self@ =~= old(self)@.toggle_locked(key));
            },
            None => {},
        }
    }

    /// Whether a link joins `key1` and `key2`, in either order.
    pub fn has_stick(&self, key1: usize, key2: usize) -> (found: bool)
        ensures
            found == self@.joined(key1, key2),
    {
        let mut i: usize = 0;
        while i < self.sticks.len()
            invariant
                i <= self.sticks.len(),
                forall|j: int| 0 <= j < i ==> (#[trigger] self.sticks@[j]).points != pair(key1, key2),
            decreases self.sticks.len() - i,
        {
            if self.sticks[i].joins(key1, key2) {
                assert(self@.sticks[i as int].points == pair(key1, key2));
                return true;
            }
            i += 1;
        }
        false
    }

    /// Asks for a link between the points under `key1` and `key2`.
    ///
    /// Equal keys create no link: by the editor's convention they flip the
    /// lock of that point. Otherwise a link is created if both keys are live
    /// and no link joins them yet, with the distance that `measure` returns
    /// for the two positions as its rest length; in every other case nothing
    /// changes.
    pub fn add_stick<M>(&mut self, key1: usize, key2: usize, measure: M) where
        M: Fn(Vector<Scalar>, Vector<Scalar>) -> Scalar,

        requires
            old(self).wf(),
            old(self)@.links_anew(key1, key2) ==> measure.requires(
                (old(self)@.points[key1].position, old(self)@.points[key2].position),
            ),
        ensures
            final(self).wf(),
            exists|length: Scalar|
                {
                    &&& final(self)@ == #[trigger] old(self)@.add_stick(key1, key2, length)
                    &&& old(self)@.links_anew(key1, key2) ==> measure.ensures(
                        (old(self)@.points[key1].position, old(self)@.points[key2].position),
                        length,
                    )
                },
    {
        if key1 == key2 {
            self.toggle_locked(key1);
            assert(self@ == old(self)@.add_stick(key1, key2, Scalar { bits: 0 }));
            return ;
        }
        let first = slab_get(&self.points, key1);
        let second = slab_get(&self.points, key2);
        match (first, second) {
            (Some(point1), Some(point2)) => {
                if !self.has_stick(key1, key2) {
                    let length = measure(point1.position, point2.position);
                    self.sticks.push(Stick::new(key1, key2, length));
                    assert(self@ =~= old(self)@.add_stick(key1, key2, length));
                    return ;
                }
            },
            _ => {},
        }
        assert(self@ == old(self)@.add_stick(key1, key2, Scalar { bits: 0 }));
    }

    /// Drops every link that names a key which is no longer live, once the
    /// points in `erased` have left the slab.
    fn drop_dangling(&mut self, Ghost(before): Ghost<Network>, Ghost(erased): Ghost<Set<usize>>)
        requires
            before.wf(),
            old(self)@.sticks == before.sticks,
            old(self)@.points == before.points.remove_keys(erased),
        ensures
            final(self).wf(),
            final(self)@ == before.remove_points(erased),
    {
        let ghost left = self@.points.dom();
        let ghost alive = |s: Stick| left.contains(s.points.0) && left.contains(s.points.1);
        let mut kept: Vec<Stick> = Vec::new();
        let mut i: usize = 0;
        while i < self.sticks.len()
            invariant
                i <= self.sticks.len(),
                self@ == old(self)@,
                left == self@.points.dom(),
                alive == (|s: Stick| left.contains(s.points.0) && left.contains(s.points.1)),
                kept@ == self.sticks@.take(i as int).filter(alive),
            decreases self.sticks.len() - i,
        {
            let stick = self.sticks[i];
            let first = slab_get(&self.points, stick.points.0);
            let second = slab_get(&self.points, stick.points.1);
            proof {
                assert(self.sticks@.take(i + 1) =~= self.sticks@.take(i as int).push(stick));
                self.sticks@.take(i as int).lemma_filter_push(stick, alive);
            }
            if first.is_some() && second.is_some() {
                kept.push(stick);
            }
            i += 1;
        }
        proof {
            assert(self.sticks@.take(i as int) =~= self.sticks@);
            lemma_filter_agree(before.sticks, alive, Stick::clear_of(erased));
            before.lemma_remove_points_wf(erased);
        }
        self.sticks = kept;
        assert(self@ =~= before.remove_points(erased));
    }

    /// Removes the point under `key` and, with it, every link that names it.
    /// Does nothing if `key` is not live.
    pub fn remove_point(&mut self, key: usize)
        requires
            old(self).wf(),
        ensures
            final(self).wf(),
            final(self)@ == old(self)@.remove_points(Set::empty().insert(key)),
            !final(self)@.live(key),
            forall|i: int|
                0 <= i < final(self)@.sticks.len() ==> !(#[trigger] final(self)@.sticks[i]).names(
                    key,
                ),
    {
        let ghost before = self@;
        let ghost erased = set![key];
        let _ = slab_remove(&mut self.points, key);
        assert(self@.points =~= before.points.remove_keys(erased));
        self.drop_dangling(Ghost(before), Ghost(erased));
        proof {
            before.law_cascade(erased);
        }
    }

    /// Erases every point that the eraser, dragged from `last` to `current`,
    /// touches during the tick, together with every link that names one.
    ///
    /// For each point `measure` is given the eraser's path, the point's own
    /// path from its last position to its position, and `radius`; the point
    /// is erased where the approach that it returns meets the point (see
    /// [`Approach::meets`]).
    pub fn remove_points<M>(
        &mut self,
        last: Vector<Scalar>,
        current: Vector<Scalar>,
        radius: Scalar,
        measure: M,
    ) where
        M: Fn(Vector<Scalar>, Vector<Scalar>, Vector<Scalar>, Vector<Scalar>, Scalar) -> Approach,

        requires
            old(self).wf(),
            forall|key: usize| #[trigger]
                old(self)@.live(key) ==> measure.requires(
                    (
                        last,
                        current,
                        old(self)@.points[key].last_position,
                        old(self)@.points[key].position,
                        radius,
                    ),
                ),
        ensures
            final(self).wf(),
            exists|taken: Map<usize, Approach>|
                {
                    &&& #[trigger] old(self)@.swept(last, current, radius, measure, taken)
                    &&& final(self)@ == old(self)@.remove_points(old(self)@.touched(taken))
                },
    {
        let ghost before = self@;
        let ghost mut erased: Set<usize> = Set::empty();
        let ghost mut taken: Map<usize, Approach> = Map::empty();
        let keys = slab_keys(&self.points);
        let mut i: usize = 0;
        assert(self@.points =~= before.points.remove_keys(erased));
        while i < keys.len()
            invariant
                i <= keys.len(),
                before.wf(),
                lists_ascending(keys@, before.points.dom()),
                self@.sticks == before.sticks,
                self@.points == before.points.remove_keys(erased),
                forall|key: usize| #[trigger]
                    before.live(key) ==> measure.requires(
                        (
                            last,
                            current,
                            before.points[key].last_position,
                            before.points[key].position,
                            radius,
                        ),
                    ),
                forall|j: int|
                    0 <= j < i ==> {
                        &&& measure.ensures(
                            (
                                last,
                                current,
                                before.points[#[trigger] keys@[j]].last_position,
                                before.points[keys@[j]].position,
                                radius,
                            ),
                            taken[keys@[j]],
                        )
                        &&& erased.contains(keys@[j]) == taken[keys@[j]].meets()
                    },
                forall|key: usize|
                    erased.contains(key) ==> exists|j: int| 0 <= j < i && keys@[j] == key,
            decreases keys.len() - i,
        {
            let key = keys[i];
            assert(before.live(key));
            let point = slab_get(&self.points, key).unwrap();
            let approach = measure(last, current, point.last_position, point.position, radius);
            proof {
                assert forall|j: int| 0 <= j < i implies keys@[j] != key by {
                    assert(keys@[j] < keys@[i as int]);
                }
                taken = taken.insert(key, approach);
            }
            if approach.touches() {
                let _ = slab_remove(&mut self.points, key);
                proof {
                    assert(self@.points =~= before.points.remove_keys(erased.insert(key)));
                    erased = erased.insert(key);
                }
            }
            i += 1;
        }
        self.drop_dangling(Ghost(before), Ghost(erased));
        proof {
            assert forall|key: usize| #[trigger] before.live(key) implies {
                &&& measure.ensures(
                    (
                        last,
                        current,
                        before.points[key].last_position,
                        before.points[key].position,
                        radius,
                    ),
                    taken[key],
                )
                &&& erased.contains(key) == taken[key].meets()
            } by {
                let j = choose|j: int| 0 <= j < keys@.len() && keys@[j] == key;
                assert(keys@[j] == key);
            }
            assert(before.swept(last, current, radius, measure, taken));
            assert(erased =~= before.touched(taken));
        }
    }

    /// Erases every link that the eraser, dragged from `last` to `current`,
    /// crosses during the tick.
    ///
    /// For each link `measure` is given the eraser's path and the paths of
    /// the link's two endpoints, each from its last position to its
    /// position, the endpoint with the lesser key first; the link is erased
    /// where the crossing that it returns severs it (see
    /// [`Crossing::severs`]).
    pub fn remove_sticks<M>(&mut self, last: Vector<Scalar>, current: Vector<Scalar>, measure: M) where
        M: Fn(
            Vector<Scalar>,
            Vector<Scalar>,
            Vector<Scalar>,
            Vector<Scalar>,
            Vector<Scalar>,
            Vector<Scalar>,
        ) -> Crossing,

        requires
            old(self).wf(),
            forall|i: int|
                0 <= i < old(self)@.sticks.len() ==> measure.requires(
                    (
                        last,
                        current,
                        old(self)@.points[(#[trigger] old(self)@.sticks[i]).points.0].last_position,
                        old(self)@.points[old(self)@.sticks[i].points.0].position,
                        old(self)@.points[old(self)@.sticks[i].points.1].last_position,
                        old(self)@.points[old(self)@.sticks[i].points.1].position,
                    ),
                ),
        ensures
            final(self).wf(),
            exists|taken: Seq<Crossing>|
                {
                    &&& #[trigger] old(self)@.crossed(last, current, measure, taken)
                    &&& final(self)@ == old(self)@.remove_sticks(old(self)@.severed(taken))
                },
    {
        let ghost before = self@;
        let ghost mut cut: Set<(usize, usize)> = Set::empty();
        let ghost mut taken: Seq<Crossing> = Seq::empty();
        let mut kept: Vec<Stick> = Vec::new();
        let mut i: usize = 0;
        while i < self.sticks.len()
            invariant
                i <= self.sticks.len(),
                self@ == before,
                before.wf(),
                forall|j: int|
                    0 <= j < before.sticks.len() ==> measure.requires(
                        (
                            last,
                            current,
                            before.points[(#[trigger] before.sticks[j]).points.0].last_position,
                            before.points[before.sticks[j].points.0].position,
                            before.points[before.sticks[j].points.1].last_position,
                            before.points[before.sticks[j].points.1].position,
                        ),
                    ),
                taken.len() == i,
                forall|j: int|
                    0 <= j < i ==> {
                        &&& measure.ensures(
                            (
                                last,
                                current,
                                before.points[(#[trigger] before.sticks[j]).points.0].last_position,
                                before.points[before.sticks[j].points.0].position,
                                before.points[before.sticks[j].points.1].last_position,
                                before.points[before.sticks[j].points.1].position,
                            ),
                            taken[j],
                        )
                        &&& cut.contains(before.sticks[j].points) == taken[j].severs()
                    },
                forall|pair: (usize, usize)|
                    cut.contains(pair) ==> exists|j: int|
                        0 <= j < i && (#[trigger] before.sticks[j]).points == pair,
                kept@ == before.sticks.take(i as int).filter(Stick::spared_by(cut)),
            decreases self.sticks.len() - i,
        {
            let stick = self.sticks[i];
            assert(stick == before.sticks[i as int]);
            let point1 = slab_get(&self.points, stick.points.0).unwrap();
            let point2 = slab_get(&self.points, stick.points.1).unwrap();
            let crossing = measure(
                last,
                current,
                point1.last_position,
                point1.position,
                point2.last_position,
                point2.position,
            );
            let hit = crossing.cuts();
            proof {
                let seen = before.sticks.take(i as int);
                let wider = if hit {
                    cut.insert(stick.points)
                } else {
                    cut
                };
                assert forall|j: int| 0 <= j < seen.len() implies Stick::spared_by(cut)(
                    #[trigger] seen[j],
                ) == Stick::spared_by(wider)(seen[j]) by {
                    assert(before.sticks[j].points != before.sticks[i as int].points);
                }
                assert forall|j: int| 0 <= j < i implies cut.contains(
                    (#[trigger] before.sticks[j]).points,
                ) == wider.contains(before.sticks[j].points) by {
                    assert(before.sticks[j].points != before.sticks[i as int].points);
                }
                lemma_filter_agree(seen, Stick::spared_by(cut), Stick::spared_by(wider));
                assert(before.sticks.take(i + 1) =~= seen.push(stick));
                seen.lemma_filter_push(stick, Stick::spared_by(wider));
                cut = wider;
                taken = taken.push(crossing);
            }
            if !hit {
                kept.push(stick);
            }
            i += 1;
        }
        proof {
            assert(before.sticks.take(i as int) =~= before.sticks);
            assert(before.crossed(last, current, measure, taken));
            assert forall|pair: (usize, usize)| cut.contains(pair) == before.severed(
                taken,
            ).contains(pair) by {
                if cut.contains(pair) {
                    let j = choose|j: int|
                        0 <= j < i && (#[trigger] before.sticks[j]).points == pair;
                    assert(taken[j].severs());
                }
                if before.severed(taken).contains(pair) {
                    let j = choose|j: int|
                        0 <= j < before.sticks.len() && (#[trigger] before.sticks[j]).points
                            == pair && taken[j].severs();
                    assert(cut.contains(before.sticks[j].points));
                }
            }
            assert(cut =~= before.severed(taken));
            before.lemma_remove_sticks_wf(cut);
        }
        self.sticks = kept;
        assert(self@ =~= before.remove_sticks(cut));
    }

    /// The live keys, ascending.
    pub fn keys(&self) -> (keys: Vec<usize>)
        ensures
            lists_ascending(keys@, self@.points.dom()),
    {
        slab_keys(&self.points)
    }

    /// The point under `key`, if it is live.
    pub fn point(&self, key: usize) -> (found: Option<Point>)
        ensures
            found == (if self@.live(key) {
                Some(self@.points[key])
            } else {
                None
            }),
    {
        slab_get(&self.points, key)
    }

    /// The links, in storage order.
    pub fn sticks(&self) -> (links: Vec<Stick>)
        ensures
            links@ == self@.sticks,
    {
        let mut links: Vec<Stick> = Vec::new();
        let mut i: usize = 0;
        while i < self.sticks.len()
            invariant
                i <= self.sticks.len(),
                links@ == self.sticks@.take(i as int),
            decreases self.sticks.len() - i,
        {
            links.push(self.sticks[i]);
            assert(self.sticks@.take(i + 1) =~= self.sticks@.take(i as int).push(
                self.sticks@[i as int],
            ));
            i += 1;
        }
        assert(self.sticks@.take(i as int) =~= self.sticks@);
        links
    }

    /// Looks for a point near `position`: the least live key whose position
    /// lies strictly within `distance` of it, or nothing when none does.
    ///
    /// The live points are measured by ascending key until one is near:
    /// `measure` is given `position`, the point's position and `distance`,
    /// and the point is near where the reach that it returns is (see
    /// [`Reach::near`]).
    pub fn get_point<M>(&self, position: Vector<Scalar>, distance: Scalar, measure: M) -> (found:
        Option<usize>) where M: Fn(Vector<Scalar>, Vector<Scalar>, Scalar) -> Reach
        requires
            forall|key: usize| #[trigger]
                self@.live(key) ==> measure.requires(
                    (position, self@.points[key].position, distance),
                ),
        ensures
            exists|taken: Map<usize, Reach>| #[trigger]
                self@.nearest(position, distance, measure, found, taken),
    {
        let ghost mut taken: Map<usize, Reach> = Map::empty();
        let keys = slab_keys(&self.points);
        let mut i: usize = 0;
        while i < keys.len()
            invariant
                i <= keys.len(),
                lists_ascending(keys@, self@.points.dom()),
                forall|key: usize| #[trigger]
                    self@.live(key) ==> measure.requires(
                        (position, self@.points[key].position, distance),
                    ),
                forall|j: int|
                    0 <= j < i ==> {
                        &&& measure.ensures(
                            (position, self@.points[#[trigger] keys@[j]].position, distance),
                            taken[keys@[j]],
                        )
                        &&& !taken[keys@[j]].near()
                    },
            decreases keys.len() - i,
        {
            let key = keys[i];
            assert(self@.live(key));
            let point = slab_get(&self.points, key).unwrap();
            let reach = measure(position, point.position, distance);
            proof {
                assert forall|j: int| 0 <= j < i implies keys@[j] != key by {
                    assert(keys@[j] < keys@[i as int]);
                }
                taken = taken.insert(key, reach);
            }
            if reach.within() {
                proof {
                    assert forall|other: usize| #[trigger]
                        self@.live(other) && other <= key implies {
                        &&& measure.ensures(
                            (position, self@.points[other].position, distance),
                            taken[other],
                        )
                        &&& taken[other].near() <==> other == key
                    } by {
                        let j = choose|j: int| 0 <= j < keys@.len() && keys@[j] == other;
                        assert(keys@[j] == other);
                        if j > i {
                            assert(keys@[i as int] < keys@[j]);
                        }
                    }
                    assert(self@.nearest(position, distance, measure, Some(key), taken));
                }
                return Some(key);
            }
            i += 1;
        }
        proof {
            assert forall|other: usize| #[trigger] self@.live(other) implies {
                &&& measure.ensures(
                    (position, self@.points[other].position, distance),
                    taken[other],
                )
                &&& !taken[other].near()
            } by {
                let j = choose|j: int| 0 <= j < keys@.len() && keys@[j] == other;
                assert(keys@[j] == other);
            }
            assert(self@.nearest(position, distance, measure, None, taken));
        }
        None
    }

    /// Where the point under `key` is at the fraction `t` of the tick: what
    /// `lerp` returns for its last position, its position and `t`. Nothing
    /// if `key` is not live.
    pub fn get_position<L>(&self, key: usize, t: Scalar, lerp: L) -> (found: Option<
        Vector<Scalar>,
    >) where L: Fn(Vector<Scalar>, Vector<Scalar>, Scalar) -> Vector<Scalar>
        requires
            self@.live(key) ==> self@.samples(key, t, lerp),
        ensures
            found is Some <==> self@.live(key),
            found is Some ==> self@.sampled(key, t, lerp, found->0),
    {
        match slab_get(&self.points, key) {
            Some(point) => Some(lerp(point.last_position, point.position, t)),
            None => None,
        }
    }

    /// Every point at the fraction `t` of the tick, by ascending key: where
    /// `lerp` puts it, and whether it is locked.
    pub fn get_points<L>(&self, t: Scalar, lerp: L) -> (out: Vec<(Vector<Scalar>, bool)>) where
        L: Fn(Vector<Scalar>, Vector<Scalar>, Scalar) -> Vector<Scalar>,

        requires
            forall|key: usize| #[trigger] self@.live(key) ==> self@.samples(key, t, lerp),
        ensures
            exists|keys: Seq<usize>|
                {
                    &&& #[trigger] lists_ascending(keys, self@.points.dom())
                    &&& out@.len() == keys.len()
                    &&& forall|i: int|
                        0 <= i < keys.len() ==> {
                            &&& self@.sampled(keys[i], t, lerp, (#[trigger] out@[i]).0)
                            &&& out@[i].1 == self@.points[keys[i]].locked
                        }
                },
    {
        let keys = slab_keys(&self.points);
        let mut out: Vec<(Vector<Scalar>, bool)> = Vec::new();
        let mut i: usize = 0;
        while i < keys.len()
            invariant
                i <= keys.len(),
                lists_ascending(keys@, self@.points.dom()),
                forall|key: usize| #[trigger] self@.live(key) ==> self@.samples(key, t, lerp),
                out@.len() == i,
                forall|j: int|
                    0 <= j < i ==> {
                        &&& self@.sampled(keys@[j], t, lerp, (#[trigger] out@[j]).0)
                        &&& out@[j].1 == self@.points[keys@[j]].locked
                    },
            decreases keys.len() - i,
        {
            let key = keys[i];
            assert(self@.live(key));
            let point = slab_get(&self.points, key).unwrap();
            out.push((lerp(point.last_position, point.position, t), point.locked));
            i += 1;
        }
        out
    }

    /// The two ends of every link at the fraction `t` of the tick, in
    /// storage order: where `lerp` puts the endpoint with the lesser key,
    /// then the one with the greater.
    pub fn get_sticks<L>(&self, t: Scalar, lerp: L) -> (out: Vec<(Vector<Scalar>, Vector<Scalar>)>) where
        L: Fn(Vector<Scalar>, Vector<Scalar>, Scalar) -> Vector<Scalar>,

        requires
            self.wf(),
            forall|key: usize| #[trigger] self@.live(key) ==> self@.samples(key, t, lerp),
        ensures
            out@.len() == self@.sticks.len(),
            forall|i: int|
                0 <= i < out@.len() ==> {
                    &&& self@.sampled(self@.sticks[i].points.0, t, lerp, (#[trigger] out@[i]).0)
                    &&& self@.sampled(self@.sticks[i].points.1, t, lerp, out@[i].1)
                },
    {
        let mut out: Vec<(Vector<Scalar>, Vector<Scalar>)> = Vec::new();
        let mut i: usize = 0;
        while i < self.sticks.len()
            invariant
                i <= self.sticks.len(),
                self.wf(),
                forall|key: usize| #[trigger] self@.live(key) ==> self@.samples(key, t, lerp),
                out@.len() == i,
                forall|j: int|
                    0 <= j < i ==> {
                        &&& self@.sampled(self@.sticks[j].points.0, t, lerp, (#[trigger] out@[j]).0)
                        &&& self@.sampled(self@.sticks[j].points.1, t, lerp, out@[j].1)
                    },
            decreases self.sticks.len() - i,
        {
            let stick = self.sticks[i];
            assert(stick == self@.sticks[i as int]);
            assert(self@.live(stick.points.0) && self@.live(stick.points.1));
            let point1 = slab_get(&self.points, stick.points.0).unwrap();
            let point2 = slab_get(&self.points, stick.points.1).unwrap();
            let end1 = lerp(point1.last_position, point1.position, t);
            let end2 = lerp(point2.last_position, point2.position, t);
            out.push((end1, end2));
            i += 1;
        }
        out
    }

    /// Advances every free point by one integration step: it moves to what
    /// `step` returns for its position and its last position, and its old
    /// position becomes its last position. Locked points are left alone.
    pub fn integrate<I>(&mut self, step: &I) where
        I: Fn(Vector<Scalar>, Vector<Scalar>) -> Vector<Scalar>,

        requires
            old(self).wf(),
            forall|key: usize| #[trigger]
                old(self)@.live(key) && !old(self)@.points[key].locked ==> step.requires(
                    (old(self)@.points[key].position, old(self)@.points[key].last_position),
                ),
        ensures
            final(self).wf(),
            old(self)@.integrated(*step, final(self)@),
    {
        let ghost before = self@;
        let keys = slab_keys(&self.points);
        let mut i: usize = 0;
        while i < keys.len()
            invariant
                i <= keys.len(),
                before.wf(),
                lists_ascending(keys@, before.points.dom()),
                self@.sticks == before.sticks,
                self@.points.dom() == before.points.dom(),
                forall|key: usize| #[trigger]
                    before.live(key) && !before.points[key].locked ==> step.requires(
                        (before.points[key].position, before.points[key].last_position),
                    ),
                forall|j: int|
                    0 <= j < i ==> {
                        &&& self@.points[#[trigger] keys@[j]] == before.points[keys@[j]].advanced(
                            self@.points[keys@[j]].position,
                        )
                        &&& !before.points[keys@[j]].locked ==> step.ensures(
                            (before.points[keys@[j]].position, before.points[keys@[j]].last_position),
                            self@.points[keys@[j]].position,
                        )
                    },
                forall|j: int|
                    i <= j < keys@.len() ==> self@.points[#[trigger] keys@[j]]
                        == before.points[keys@[j]],
            decreases keys.len() - i,
        {
            let key = keys[i];
            assert(before.live(key));
            let point = slab_get(&self.points, key).unwrap();
            if !point.locked {
                let position = step(point.position, point.last_position);
                let ghost earlier = self@.points;
                slab_set(
                    &mut self.points,
                    key,
                    Point { position, last_position: point.position, locked: false },
                );
                assert(self@.points.dom() =~= before.points.dom());
                assert forall|j: int| 0 <= j < keys@.len() && j != i implies self@.points[
                #[trigger] keys@[j]] == earlier[keys@[j]] by {
                    if j < i {
                        assert(keys@[j] < keys@[i as int]);
                    } else {
                        assert(keys@[i as int] < keys@[j]);
                    }
                }
            }
            i += 1;
        }
        proof {
            assert forall|key: usize| #[trigger] before.live(key) implies {
                &&& self@.points[key] == before.points[key].advanced(self@.points[key].position)
                &&& !before.points[key].locked ==> step.ensures(
                    (before.points[key].position, before.points[key].last_position),
                    self@.points[key].position,
                )
            } by {
                let j = choose|j: int| 0 <= j < keys@.len() && keys@[j] == key;
                assert(keys@[j] == key);
            }
        }
    }

    /// Makes one relaxation pass, visiting the links at the indices of
    /// `order`, one after the other.
    ///
    /// At each link `solve` is given the positions of its two endpoints, the
    /// one with the lesser key first, and the link's rest length, and
    /// proposes a new position for each: a free endpoint takes it, a locked
    /// one stays. A link whose endpoints are at the same place has no
    /// direction to be relaxed along: it is left as it is, and `solve` is
    /// not asked. An index beyond the links is passed over.
    pub fn relax<R>(&mut self, order: &Vec<usize>, solve: &R) where
        R: Fn(Vector<Scalar>, Vector<Scalar>, Scalar) -> (Vector<Scalar>, Vector<Scalar>),

        requires
            old(self).wf(),
            Network::solves(*solve),
        ensures
            final(self).wf(),
            old(self)@.relaxed(order@, *solve, final(self)@),
            old(self)@.holds_still(final(self)@),
    {
        let ghost before = self@;
        let ghost mut trace: Seq<Network> = seq![before];
        let mut i: usize = 0;
        while i < order.len()
            invariant
                i <= order.len(),
                self.wf(),
                before.holds_still(self@),
                Network::solves(*solve),
                trace.len() == i + 1,
                trace[0] == before,
                trace[i as int] == self@,
                forall|j: int| 0 <= j < i ==> #[trigger] hop(trace, order@, *solve, j),
            decreases order.len() - i,
        {
            let index = order[i];
            let ghost earlier = self@;
            if index < self.sticks.len() {
                let stick = self.sticks[index];
                assert(stick == earlier.sticks[index as int]);
                assert(earlier.live(stick.points.0) && earlier.live(stick.points.1));
                let first = slab_get(&self.points, stick.points.0).unwrap();
                let second = slab_get(&self.points, stick.points.1).unwrap();
                if !first.position.coincides(second.position) {
                    let ends = solve(first.position, second.position, stick.length);
                    let ghost halfway = earlier.points.insert(
                        stick.points.0,
                        first.settled(ends.0),
                    );
                    if !first.locked {
                        slab_set(
                            &mut self.points,
                            stick.points.0,
                            Point {
                                position: ends.0,
                                last_position: first.last_position,
                                locked: false,
                            },
                        );
                    }
                    assert(self@.points =~= halfway);
                    if !second.locked {
                        slab_set(
                            &mut self.points,
                            stick.points.1,
                            Point {
                                position: ends.1,
                                last_position: second.last_position,
                                locked: false,
                            },
                        );
                    }
                    assert(self@.points =~= halfway.insert(stick.points.1, second.settled(ends.1)));
                    assert(self@.points.dom() =~= earlier.points.dom());
                }
                proof {
                    assert(earlier.relaxes(stick, *solve, self@));
                    assert(earlier.holds_still(self@));
                    before.lemma_holds_still_chain(earlier, self@);
                }
            }
            proof {
                let longer = trace.push(self@);
                assert forall|j: int| 0 <= j < i + 1 implies #[trigger] hop(
                    longer,
                    order@,
                    *solve,
                    j,
                ) by {
                    if j < i {
                        assert(hop(trace, order@, *solve, j));
                    }
                }
                trace = longer;
            }
            i += 1;
        }
    }

    /// Advances the network by one tick.
    ///
    /// Every free point first makes one integration step (see
    /// [`Ropes::integrate`]). Then the links are relaxed in
    /// [`REPETITIONS`] passes (see [`Ropes::relax`]), each pass visiting
    /// every link once in a freshly drawn random order. Locked points do not
    /// move, and neither the points nor the links come or go.
    pub fn tick<I, R>(&mut self, step: I, solve: R) where
        I: Fn(Vector<Scalar>, Vector<Scalar>) -> Vector<Scalar>,
        R: Fn(Vector<Scalar>, Vector<Scalar>, Scalar) -> (Vector<Scalar>, Vector<Scalar>),

        requires
            old(self).wf(),
            forall|key: usize| #[trigger]
                old(self)@.live(key) && !old(self)@.points[key].locked ==> step.requires(
                    (old(self)@.points[key].position, old(self)@.points[key].last_position),
                ),
            Network::solves(solve),
        ensures
            final(self).wf(),
            exists|stages: Seq<Network>, orders: Seq<Seq<usize>>| #[trigger]
                old(self)@.ticked(step, solve, final(self)@, stages, orders),
            final(self)@.sticks == old(self)@.sticks,
            final(self)@.points.dom() == old(self)@.points.dom(),
            forall|key: usize|
                #![trigger old(self)@.live(key)]
                #![trigger final(self)@.points[key]]
                old(self)@.live(key) ==> {
                    &&& final(self)@.points[key].locked == old(self)@.points[key].locked
                    &&& old(self)@.points[key].locked ==> final(self)@.points[key] == old(
                        self,
                    )@.points[key]
                    &&& !old(self)@.points[key].locked ==> final(self)@.points[key].last_position
                        == old(self)@.points[key].position
                },
    {
        let ghost before = self@;
        self.integrate(&step);
        let ghost moved = self@;
        let ghost mut stages: Seq<Network> = seq![moved];
        let ghost mut orders: Seq<Seq<usize>> = Seq::empty();
        let mut pass: u8 = 0;
        while pass < REPETITIONS
            invariant
                pass <= REPETITIONS,
                self.wf(),
                moved.holds_still(self@),
                moved.sticks == before.sticks,
                Network::solves(solve),
                stages.len() == pass + 1,
                orders.len() == pass,
                stages[0] == moved,
                stages[pass as int] == self@,
                forall|p: int|
                    0 <= p < pass ==> {
                        &&& is_permutation(#[trigger] orders[p], before.sticks.len())
                        &&& stages[p].relaxed(orders[p], solve, stages[p + 1])
                    },
            decreases REPETITIONS - pass,
        {
            let order = random_order(self.sticks.len());
            let ghost earlier = self@;
            self.relax(&order, &solve);
            proof {
                stages = stages.push(self@);
                orders = orders.push(order@);
                moved.lemma_holds_still_chain(earlier, self@);
            }
            pass += 1;
        }
        proof {
            assert(before.ticked(step, solve, self@, stages, orders));
            assert forall|key: usize| #[trigger] before.live(key) implies {
                &&& self@.points[key].locked == before.points[key].locked
                &&& before.points[key].locked ==> self@.points[key] == before.points[key]
                &&& !before.points[key].locked ==> self@.points[key].last_position
                    == before.points[key].position
            } by {
                assert(moved.live(key));
            }
        }
    }
}

impl Clone for Ropes {
    /// An independent copy: the same points under the same keys and the same
    /// links in the same order.
    fn clone(&self) -> (copy: Self)
        ensures
            copy@ == self@,
    {
        let mut sticks: Vec<Stick> = Vec::new();
        let mut i: usize = 0;
        while i < self.sticks.len()
            invariant
                i <= self.sticks.len(),
                sticks@ == self.sticks@.take(i as int),
            decreases self.sticks.len() - i,
        {
            sticks.push(self.sticks[i]);
            assert(self.sticks@.take(i + 1) =~= self.sticks@.take(i as int).push(
                self.sticks@[i as int],
            ));
            i += 1;
        }
        assert(self.sticks@.take(i as int) =~= self.sticks@);
        Ropes { points: slab_clone(&self.points), sticks }
    }
}

} // verus!
