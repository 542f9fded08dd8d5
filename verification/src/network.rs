use vstd::prelude::*;
use crate::measure::{Approach, Crossing, Reach};
use crate::order::is_permutation;
use crate::scalar::Scalar;
use crate::vector::Vector;

verus! {

/// How many relaxation passes one tick makes.
pub const REPETITIONS: u8 = 8;

/// A point mass: where it is, where it was one tick ago, and whether it is
/// pinned in place.
#[derive(Clone, Copy, Debug)]
pub struct Point {
    pub position: Vector<Scalar>,
    pub last_position: Vector<Scalar>,
    pub locked: bool,
}

impl Point {
    /// A free point at rest at `position`.
    pub open spec fn resting(position: Vector<Scalar>) -> Point {
        Point { position, last_position: position, locked: false }
    }

    /// The same point with its lock flag flipped.
    pub open spec fn toggled(self) -> Point {
        Point { locked: !self.locked, ..self }
    }

    /// The same point with `position` in place of its current position.
    pub open spec fn placed(self, position: Vector<Scalar>) -> Point {
        Point { position, ..self }
    }

    /// The point after one integration step that takes it to `position`:
    /// a locked point stays as it is, a free one remembers where it was.
    pub open spec fn advanced(self, position: Vector<Scalar>) -> Point {
        if self.locked {
            self
        } else {
            Point { position, last_position: self.position, locked: false }
        }
    }

    /// The point after a relaxation that proposes `position` for it: a locked
    /// point ignores the proposal.
    pub open spec fn settled(self, position: Vector<Scalar>) -> Point {
        if self.locked {
            self
        } else {
            self.placed(position)
        }
    }

    /// A free point at rest at `position`.
    pub fn new(position: Vector<Scalar>) -> (point: Self)
        ensures
            point == Point::resting(position),
    {
        Point { position, last_position: position, locked: false }
    }
}

/// The two keys in ascending order: the one form under which a link between
/// them is stored.
pub open spec fn pair(a: usize, b: usize) -> (usize, usize) {
    if a <= b {
        (a, b)
    } else {
        (b, a)
    }
}

/// A link of fixed rest length between two points, named by their keys in
/// ascending order.
#[derive(Clone, Copy, Debug)]
pub struct Stick {
    pub points: (usize, usize),
    pub length: Scalar,
}

impl Stick {
    /// The link between `a` and `b`, in either order, with the given rest length.
    pub open spec fn between(a: usize, b: usize, length: Scalar) -> Stick {
        Stick { points: pair(a, b), length }
    }

    /// The test that a link names no key of `erased`.
    pub open spec fn clear_of(erased: Set<usize>) -> spec_fn(Stick) -> bool {
        |s: Stick| !erased.contains(s.points.0) && !erased.contains(s.points.1)
    }

    /// The test that a link's key pair is `pair`.
    pub open spec fn joining(pair: (usize, usize)) -> spec_fn(Stick) -> bool {
        |s: Stick| s.points == pair
    }

    /// The test that a link's key pair is not in `cut`.
    pub open spec fn spared_by(cut: Set<(usize, usize)>) -> spec_fn(Stick) -> bool {
        |s: Stick| !cut.contains(s.points)
    }

    /// Whether `key` is one of the link's endpoints.
    pub open spec fn names(self, key: usize) -> bool {
        self.points.0 == key || self.points.1 == key
    }

    /// The link between `key1` and `key2`, in either order, with the given
    /// rest length.
    pub fn new(key1: usize, key2: usize, length: Scalar) -> (stick: Self)
        ensures
            stick == Stick::between(key1, key2, length),
    {
        if key1 <= key2 {
            Stick { points: (key1, key2), length }
        } else {
            Stick { points: (key2, key1), length }
        }
    }

    /// Whether this is the link between `key1` and `key2`, in either order.
    pub fn joins(&self, key1: usize, key2: usize) -> (same: bool)
        ensures
            same == (self.points == pair(key1, key2)),
    {
        if key1 <= key2 {
            self.points.0 == key1 && self.points.1 == key2
        } else {
            self.points.0 == key2 && self.points.1 == key1
        }
    }
}

/// Whether every link of `sticks` joins two distinct members of `live`,
/// ascending, and no two links join the same two points.
pub open spec fn links_ok(sticks: Seq<Stick>, live: Set<usize>) -> bool {
    &&& forall|i: int|
        0 <= i < sticks.len() ==> {
            &&& (#[trigger] sticks[i]).points.0 < sticks[i].points.1
            &&& live.contains(sticks[i].points.0)
            &&& live.contains(sticks[i].points.1)
        }
    &&& forall|i: int, j: int|
        0 <= i < j < sticks.len() ==> (#[trigger] sticks[i]).points != (#[trigger] sticks[j]).points
}

/// The mathematical content of a network: its live points by key, and its
/// links in storage order.
pub struct Network {
    pub points: Map<usize, Point>,
    pub sticks: Seq<Stick>,
}

impl Network {
    /// Whether `key` names a live point.
    pub open spec fn live(self, key: usize) -> bool {
        self.points.dom().contains(key)
    }

    /// Every link joins two distinct live points, ascending, and no two links
    /// join the same two points.
    pub open spec fn wf(self) -> bool {
        links_ok(self.sticks, self.points.dom())
    }

    /// Whether some link joins `a` and `b`, in either order.
    pub open spec fn joined(self, a: usize, b: usize) -> bool {
        exists|i: int| 0 <= i < self.sticks.len() && (#[trigger] self.sticks[i]).points == pair(a, b)
    }

    /// How many links join `a` and `b`, in either order.
    pub open spec fn links_between(self, a: usize, b: usize) -> nat {
        self.sticks.filter(Stick::joining(pair(a, b))).len()
    }

    /// The network without points or links.
    pub open spec fn empty() -> Network {
        Network { points: Map::empty(), sticks: Seq::empty() }
    }

    /// The network with a free point at rest at `position` under `key`.
    pub open spec fn add_point(self, key: usize, position: Vector<Scalar>) -> Network {
        Network { points: self.points.insert(key, Point::resting(position)), sticks: self.sticks }
    }

    /// The network with the lock of `key` flipped; itself if `key` is not live.
    pub open spec fn toggle_locked(self, key: usize) -> Network {
        if self.live(key) {
            Network {
                points: self.points.insert(key, self.points[key].toggled()),
                sticks: self.sticks,
            }
        } else {
            self
        }
    }

    /// Whether asking for a link between `a` and `b` creates one: the keys
    /// differ, both are live, and no link joins them yet.
    pub open spec fn links_anew(self, a: usize, b: usize) -> bool {
        a != b && self.live(a) && self.live(b) && !self.joined(a, b)
    }

    /// The network after a link between `a` and `b` is asked for, `length`
    /// being the distance measured between them. Equal keys flip the lock of
    /// that point instead; a dead key or an existing link changes nothing.
    pub open spec fn add_stick(self, a: usize, b: usize, length: Scalar) -> Network {
        if a == b {
            self.toggle_locked(a)
        } else if self.links_anew(a, b) {
            Network { points: self.points, sticks: self.sticks.push(Stick::between(a, b, length)) }
        } else {
            self
        }
    }

    /// The network without the points in `erased` and without every link
    /// that names one of them.
    pub open spec fn remove_points(self, erased: Set<usize>) -> Network {
        Network {
            points: self.points.remove_keys(erased),
            sticks: self.sticks.filter(Stick::clear_of(erased)),
        }
    }

    /// The network without the links whose key pairs are in `cut`.
    pub open spec fn remove_sticks(self, cut: Set<(usize, usize)>) -> Network {
        Network { points: self.points, sticks: self.sticks.filter(Stick::spared_by(cut)) }
    }

    /// Whether `found` is what a search for a point near `position` may
    /// return, `taken` holding what `measure` returned on the way.
    ///
    /// The search measures the live points by ascending key, each by its
    /// position, and stops at the first that is near. So every live key up
    /// to `found`, or every live key where nothing is found, has a reach in
    /// `taken` that `measure` can return for it, and of these only `found`
    /// is near.
    pub open spec fn nearest<M>(
        self,
        position: Vector<Scalar>,
        distance: Scalar,
        measure: M,
        found: Option<usize>,
        taken: Map<usize, Reach>,
    ) -> bool where M: Fn(Vector<Scalar>, Vector<Scalar>, Scalar) -> Reach {
        &&& found is Some ==> self.live(found->0)
        &&& forall|key: usize| #[trigger]
            self.live(key) && (found is Some ==> key <= found->0) ==> {
                &&& measure.ensures((position, self.points[key].position, distance), taken[key])
                &&& taken[key].near() <==> found == Some(key)
            }
    }

    /// Whether `lerp` accepts the point under `key` at the fraction `t`.
    pub open spec fn samples<L>(self, key: usize, t: Scalar, lerp: L) -> bool where
        L: Fn(Vector<Scalar>, Vector<Scalar>, Scalar) -> Vector<Scalar>,
     {
        lerp.requires((self.points[key].last_position, self.points[key].position, t))
    }

    /// Whether `blended` is what the interpolation `lerp` may return for the
    /// point under `key` at the fraction `t` of the tick: it is given the
    /// point's last position, its position, and `t`.
    pub open spec fn sampled<L>(self, key: usize, t: Scalar, lerp: L, blended: Vector<Scalar>) -> bool where
        L: Fn(Vector<Scalar>, Vector<Scalar>, Scalar) -> Vector<Scalar>,
     {
        lerp.ensures((self.points[key].last_position, self.points[key].position, t), blended)
    }

    /// Whether `taken` holds, for each live point, an approach that
    /// `measure` can return for an eraser dragged from `last` to `current`:
    /// it is given the eraser's path, the point's own path over the tick,
    /// from its last position to its position, and the radius.
    pub open spec fn swept<M>(
        self,
        last: Vector<Scalar>,
        current: Vector<Scalar>,
        radius: Scalar,
        measure: M,
        taken: Map<usize, Approach>,
    ) -> bool where
        M: Fn(Vector<Scalar>, Vector<Scalar>, Vector<Scalar>, Vector<Scalar>, Scalar) -> Approach,
     {
        forall|key: usize| #[trigger]
            self.live(key) ==> measure.ensures(
                (
                    last,
                    current,
                    self.points[key].last_position,
                    self.points[key].position,
                    radius,
                ),
                taken[key],
            )
    }

    /// The live keys whose approach in `taken` meets the point.
    pub open spec fn touched(self, taken: Map<usize, Approach>) -> Set<usize> {
        Set::new(|key: usize| self.live(key) && taken[key].meets())
    }

    /// Whether `taken` holds, for each link in storage order, a crossing
    /// that `measure` can return for an eraser dragged from `last` to
    /// `current`: it is given the eraser's path and the paths of the link's
    /// two endpoints over the tick, the one with the lesser key first.
    pub open spec fn crossed<M>(
        self,
        last: Vector<Scalar>,
        current: Vector<Scalar>,
        measure: M,
        taken: Seq<Crossing>,
    ) -> bool where
        M: Fn(
            Vector<Scalar>,
            Vector<Scalar>,
            Vector<Scalar>,
            Vector<Scalar>,
            Vector<Scalar>,
            Vector<Scalar>,
        ) -> Crossing,
     {
        &&& taken.len() == self.sticks.len()
        &&& forall|i: int|
            0 <= i < self.sticks.len() ==> measure.ensures(
                (
                    last,
                    current,
                    self.points[(#[trigger] self.sticks[i]).points.0].last_position,
                    self.points[self.sticks[i].points.0].position,
                    self.points[self.sticks[i].points.1].last_position,
                    self.points[self.sticks[i].points.1].position,
                ),
                taken[i],
            )
    }

    /// The key pairs of the links whose crossing in `taken` severs them.
    pub open spec fn severed(self, taken: Seq<Crossing>) -> Set<(usize, usize)> {
        Set::new(
            |pair: (usize, usize)|
                exists|i: int|
                    0 <= i < self.sticks.len() && (#[trigger] self.sticks[i]).points == pair
                        && taken[i].severs(),
        )
    }

    /// Whether `after` is what one integration step may make of the network:
    /// the links and the live keys are the same, a locked point is as it
    /// was, and a free point remembers its position as its last position and
    /// moves to a position that `step` can return for the two it had.
    pub open spec fn integrated<I>(self, step: I, after: Network) -> bool where
        I: Fn(Vector<Scalar>, Vector<Scalar>) -> Vector<Scalar>,
     {
        &&& after.sticks == self.sticks
        &&& after.points.dom() == self.points.dom()
        &&& forall|key: usize|
            #![trigger self.live(key)]
            #![trigger after.points[key]]
            self.live(key) ==> {
                &&& after.points[key] == self.points[key].advanced(after.points[key].position)
                &&& !self.points[key].locked ==> step.ensures(
                    (self.points[key].position, self.points[key].last_position),
                    after.points[key].position,
                )
            }
    }

    /// Whether `solve` accepts every pair of distinct places with every rest
    /// length.
    pub open spec fn solves<R>(solve: R) -> bool where
        R: Fn(Vector<Scalar>, Vector<Scalar>, Scalar) -> (Vector<Scalar>, Vector<Scalar>),
     {
        forall|first: Vector<Scalar>, second: Vector<Scalar>, length: Scalar|
            !first.coincident(second) ==> #[trigger] solve.requires((first, second, length))
    }

    /// Whether `after` is what relaxing one link may make of the network.
    ///
    /// Where the link's two endpoints are at the same place there is no
    /// direction to part them along, and nothing changes. Otherwise `solve`,
    /// given the positions of the two endpoints and the link's rest length,
    /// proposes a position for each, which a free endpoint takes and a
    /// locked one ignores; nothing else changes.
    pub open spec fn relaxes<R>(self, stick: Stick, solve: R, after: Network) -> bool where
        R: Fn(Vector<Scalar>, Vector<Scalar>, Scalar) -> (Vector<Scalar>, Vector<Scalar>),
     {
        let first = self.points[stick.points.0];
        let second = self.points[stick.points.1];
        if first.position.coincident(second.position) {
            after == self
        } else {
            exists|ends: (Vector<Scalar>, Vector<Scalar>)|
                {
                    &&& #[trigger] solve.ensures(
                        (first.position, second.position, stick.length),
                        ends,
                    )
                    &&& after == Network {
                        points: self.points.insert(stick.points.0, first.settled(ends.0)).insert(
                            stick.points.1,
                            second.settled(ends.1),
                        ),
                        sticks: self.sticks,
                    }
                }
        }
    }

    /// Whether `after` is what a visit to the link at `index` may make of
    /// the network; an index beyond the links changes nothing.
    pub open spec fn visits<R>(self, index: usize, solve: R, after: Network) -> bool where
        R: Fn(Vector<Scalar>, Vector<Scalar>, Scalar) -> (Vector<Scalar>, Vector<Scalar>),
     {
        if index < self.sticks.len() {
            self.relaxes(self.sticks[index as int], solve, after)
        } else {
            after == self
        }
    }

    /// Whether `after` is what one relaxation pass may make of the network
    /// when it visits the links in the given order, each visit starting from
    /// what the one before it left.
    pub open spec fn relaxed<R>(self, order: Seq<usize>, solve: R, after: Network) -> bool where
        R: Fn(Vector<Scalar>, Vector<Scalar>, Scalar) -> (Vector<Scalar>, Vector<Scalar>),
     {
        exists|trace: Seq<Network>|
            {
                &&& trace.len() == order.len() + 1
                &&& trace[0] == self
                &&& trace[order.len() as int] == after
                &&& forall|i: int| 0 <= i < order.len() ==> #[trigger] hop(trace, order, solve, i)
            }
    }

    /// Whether a relaxation that starts from `self` may end in `after` as
    /// far as the frame goes: the links, the live keys, every lock flag,
    /// every last position and every locked point are the same.
    pub open spec fn holds_still(self, after: Network) -> bool {
        &&& after.sticks == self.sticks
        &&& after.points.dom() == self.points.dom()
        &&& forall|key: usize|
            #![trigger self.live(key)]
            #![trigger after.points[key]]
            self.live(key) ==> {
                &&& after.points[key].locked == self.points[key].locked
                &&& after.points[key].last_position == self.points[key].last_position
                &&& self.points[key].locked ==> after.points[key] == self.points[key]
            }
    }

    /// Whether `after` is what one tick may make of the network: one
    /// integration step, then as many relaxation passes as
    /// [`REPETITIONS`], each over all the links in an order of its own.
    /// `stages` holds the state before each pass and after the last,
    /// `orders` the order of each pass.
    pub open spec fn ticked<I, R>(
        self,
        step: I,
        solve: R,
        after: Network,
        stages: Seq<Network>,
        orders: Seq<Seq<usize>>,
    ) -> bool where
        I: Fn(Vector<Scalar>, Vector<Scalar>) -> Vector<Scalar>,
        R: Fn(Vector<Scalar>, Vector<Scalar>, Scalar) -> (Vector<Scalar>, Vector<Scalar>),
     {
        &&& stages.len() == REPETITIONS + 1
        &&& orders.len() == REPETITIONS
        &&& self.integrated(step, stages[0])
        &&& stages[REPETITIONS as int] == after
        &&& forall|pass: int|
            0 <= pass < REPETITIONS ==> {
                &&& is_permutation(#[trigger] orders[pass], self.sticks.len())
                &&& stages[pass].relaxed(orders[pass], solve, stages[pass + 1])
            }
    }
}

/// Whether the visit at place `i` of `order` leads from the state at place
/// `i` of `trace` to the next one.
pub open spec fn hop<R>(trace: Seq<Network>, order: Seq<usize>, solve: R, i: int) -> bool where
    R: Fn(Vector<Scalar>, Vector<Scalar>, Scalar) -> (Vector<Scalar>, Vector<Scalar>),
 {
    trace[i].visits(order[i], solve, trace[i + 1])
}

/// Filtering keeps a list of links in order, as long as the links that stay
/// have both endpoints in the set that is left.
pub proof fn lemma_filter_links_ok(
    sticks: Seq<Stick>,
    live: Set<usize>,
    keep: spec_fn(Stick) -> bool,
    left: Set<usize>,
)
    requires
        links_ok(sticks, live),
        forall|i: int|
            0 <= i < sticks.len() && keep(#[trigger] sticks[i]) ==> left.contains(
                sticks[i].points.0,
            ) && left.contains(sticks[i].points.1),
    ensures
        links_ok(sticks.filter(keep), left),
    decreases sticks.len(),
{
    sticks.lemma_filter_len(keep);
    if sticks.len() > 0 {
        let rest = sticks.drop_last();
        let last = sticks.last();
        assert(sticks =~= rest.push(last));
        rest.lemma_filter_push(last, keep);
        lemma_filter_links_ok(rest, live, keep, left);
        if keep(last) {
            let front = rest.filter(keep);
            assert forall|i: int| 0 <= i < front.len() implies (#[trigger] front[i]).points
                != last.points by {
                assert(front.contains(front[i]));
                rest.lemma_filter_contains_rev(keep, front[i]);
                let k = choose|k: int| 0 <= k < rest.len() && rest[k] == front[i];
                assert(sticks[k].points != sticks[sticks.len() - 1].points);
            }
            assert(sticks[sticks.len() - 1] == last);
        }
    }
}

/// Two tests that agree on every link of a list filter it alike.
pub proof fn lemma_filter_agree(
    sticks: Seq<Stick>,
    p: spec_fn(Stick) -> bool,
    q: spec_fn(Stick) -> bool,
)
    requires
        forall|i: int| 0 <= i < sticks.len() ==> p(#[trigger] sticks[i]) == q(sticks[i]),
    ensures
        sticks.filter(p) == sticks.filter(q),
    decreases sticks.len(),
{
    sticks.lemma_filter_len(p);
    sticks.lemma_filter_len(q);
    if sticks.len() > 0 {
        let rest = sticks.drop_last();
        let last = sticks.last();
        assert(sticks =~= rest.push(last));
        rest.lemma_filter_push(last, p);
        rest.lemma_filter_push(last, q);
        lemma_filter_agree(rest, p, q);
    } else {
        assert(sticks.filter(p) =~= sticks.filter(q));
    }
}

/// In a list of links in order, a key pair occurs once if some link joins
/// it and not at all otherwise.
pub proof fn lemma_count_joining(sticks: Seq<Stick>, live: Set<usize>, pair: (usize, usize))
    requires
        links_ok(sticks, live),
    ensures
        sticks.filter(Stick::joining(pair)).len() == (if exists|i: int|
            0 <= i < sticks.len() && (#[trigger] sticks[i]).points == pair {
            1nat
        } else {
            0nat
        }),
    decreases sticks.len(),
{
    let same = Stick::joining(pair);
    sticks.lemma_filter_len(same);
    if sticks.len() > 0 {
        let rest = sticks.drop_last();
        let last = sticks.last();
        assert(sticks =~= rest.push(last));
        rest.lemma_filter_push(last, same);
        lemma_count_joining(rest, live, pair);
        if exists|i: int| 0 <= i < rest.len() && (#[trigger] rest[i]).points == pair {
            let i = choose|i: int| 0 <= i < rest.len() && (#[trigger] rest[i]).points == pair;
            assert(sticks[i].points == pair);
            assert(sticks[i].points != sticks[sticks.len() - 1].points);
        } else if last.points == pair {
            assert(sticks[sticks.len() - 1].points == pair);
        } else {
            assert forall|i: int| 0 <= i < sticks.len() implies (#[trigger] sticks[i]).points
                != pair by {
                if i < rest.len() {
                    assert(rest[i].points != pair);
                }
            }
        }
    }
}

impl Network {
    /// Asking for a link leaves a network in order.
    pub proof fn lemma_add_stick_wf(self, a: usize, b: usize, length: Scalar)
        requires
            self.wf(),
        ensures
            self.add_stick(a, b, length).wf(),
    {
        if a != b && self.links_anew(a, b) {
            let longer = self.sticks.push(Stick::between(a, b, length));
            assert forall|i: int, j: int| 0 <= i < j < longer.len() implies (#[trigger] longer[i]).points
                != (#[trigger] longer[j]).points by {
                if j == self.sticks.len() {
                    assert(self.sticks[i].points != pair(a, b));
                }
            }
        }
    }

    /// Removing points leaves a network in order.
    pub proof fn lemma_remove_points_wf(self, erased: Set<usize>)
        requires
            self.wf(),
        ensures
            self.remove_points(erased).wf(),
    {
        lemma_filter_links_ok(
            self.sticks,
            self.points.dom(),
            Stick::clear_of(erased),
            self.points.remove_keys(erased).dom(),
        );
    }

    /// Removing links leaves a network in order.
    pub proof fn lemma_remove_sticks_wf(self, cut: Set<(usize, usize)>)
        requires
            self.wf(),
        ensures
            self.remove_sticks(cut).wf(),
    {
        lemma_filter_links_ok(
            self.sticks,
            self.points.dom(),
            Stick::spared_by(cut),
            self.points.dom(),
        );
    }

    /// Once points are removed, no link that is left names any of them.
    pub proof fn law_cascade(self, erased: Set<usize>)
        ensures
            forall|i: int, key: usize|
                #![trigger self.remove_points(erased).sticks[i], erased.contains(key)]
                0 <= i < self.remove_points(erased).sticks.len() && erased.contains(key)
                    ==> !self.remove_points(erased).sticks[i].names(key),
    {
        let left = self.remove_points(erased).sticks;
        assert forall|i: int, key: usize|
            #![trigger left[i], erased.contains(key)]
            0 <= i < left.len() && erased.contains(key) implies !left[i].names(key) by {
            self.sticks.lemma_filter_pred(Stick::clear_of(erased), i);
        }
    }

    /// In a network in order there is one link between two points if some
    /// link joins them, and none otherwise.
    pub proof fn lemma_links_between(self, a: usize, b: usize)
        requires
            self.wf(),
        ensures
            self.links_between(a, b) == (if self.joined(a, b) {
                1nat
            } else {
                0nat
            }),
    {
        lemma_count_joining(self.sticks, self.points.dom(), pair(a, b));
    }

    /// Pair deduplication: after a link between `a` and `b` is asked for and
    /// then one between `b` and `a`, whatever distances were measured, there
    /// is exactly one link between the two if they are distinct live points,
    /// and none otherwise.
    pub proof fn law_pair_dedup(self, a: usize, b: usize, first: Scalar, second: Scalar)
        requires
            self.wf(),
        ensures
            self.add_stick(a, b, first).add_stick(b, a, second).links_between(a, b) == (if a != b
                && self.live(a) && self.live(b) {
                1nat
            } else {
                0nat
            }),
    {
        let once = self.add_stick(a, b, first);
        let twice = once.add_stick(b, a, second);
        self.lemma_add_stick_wf(a, b, first);
        once.lemma_add_stick_wf(b, a, second);
        twice.lemma_links_between(a, b);
        assert(pair(a, b) == pair(b, a));
        if a != b && self.live(a) && self.live(b) {
            if self.joined(a, b) {
                let i = choose|i: int|
                    0 <= i < self.sticks.len() && (#[trigger] self.sticks[i]).points == pair(a, b);
                assert(once.sticks[i].points == pair(b, a));
                assert(twice.sticks[i].points == pair(a, b));
            } else {
                let i = self.sticks.len() as int;
                assert(once.sticks[i].points == pair(b, a));
                assert(once.joined(b, a));
                assert(twice.sticks[i].points == pair(a, b));
            }
        } else if a == b {
            assert(twice.sticks == self.sticks);
            if twice.joined(a, b) {
                let i = choose|i: int|
                    0 <= i < twice.sticks.len() && (#[trigger] twice.sticks[i]).points == pair(
                        a,
                        b,
                    );
                assert(twice.sticks[i].points.0 < twice.sticks[i].points.1);
            }
        } else {
            assert(twice.sticks == self.sticks);
            if twice.joined(a, b) {
                let i = choose|i: int|
                    0 <= i < twice.sticks.len() && (#[trigger] twice.sticks[i]).points == pair(
                        a,
                        b,
                    );
                assert(self.live(self.sticks[i].points.0) && self.live(self.sticks[i].points.1));
            }
        }
    }

    /// A link from a point to itself: asking for one never creates a link
    /// and flips the lock of that point, leaving everything else as it was;
    /// asking twice restores the network.
    pub proof fn law_self_link_toggles(self, key: usize, first: Scalar, second: Scalar)
        ensures
            self.add_stick(key, key, first).sticks == self.sticks,
            self.add_stick(key, key, first).points.dom() == self.points.dom(),
            self.live(key) ==> self.add_stick(key, key, first).points[key]
                == self.points[key].toggled(),
            self.live(key) ==> self.add_stick(key, key, first).points[key].locked
                != self.points[key].locked,
            forall|other: usize|
                other != key && self.live(other) ==> #[trigger] self.add_stick(
                    key,
                    key,
                    first,
                ).points[other] == self.points[other],
            self.add_stick(key, key, first).add_stick(key, key, second) == self,
    {
        let once = self.add_stick(key, key, first);
        let twice = once.add_stick(key, key, second);
        assert(once.points.dom() =~= self.points.dom());
        if self.live(key) {
            assert(once.live(key));
            assert(once.points[key] == self.points[key].toggled());
            assert(self.points[key].toggled().toggled() == self.points[key]);
            assert(twice.points =~= self.points);
        }
        assert(twice =~= self);
    }

    /// Sampling follows the kernel: where `lerp` returns its first argument
    /// at the fraction `t`, a point sampled at `t` is at its last position,
    /// and where it returns its second argument, at its position.
    pub proof fn law_sampling_ends<L>(self, key: usize, t: Scalar, lerp: L, blended: Vector<Scalar>) where
        L: Fn(Vector<Scalar>, Vector<Scalar>, Scalar) -> Vector<Scalar>,

        requires
            self.sampled(key, t, lerp, blended),
        ensures
            (forall|from: Vector<Scalar>, to: Vector<Scalar>, at: Vector<Scalar>|
                lerp.ensures((from, to, t), at) ==> at == from) ==> blended
                == self.points[key].last_position,
            (forall|from: Vector<Scalar>, to: Vector<Scalar>, at: Vector<Scalar>|
                lerp.ensures((from, to, t), at) ==> at == to) ==> blended
                == self.points[key].position,
    {
    }

    /// What holds still over one stretch and over the next holds still over both.
    pub proof fn lemma_holds_still_chain(self, between: Network, after: Network)
        requires
            self.holds_still(between),
            between.holds_still(after),
        ensures
            self.holds_still(after),
    {
        assert forall|key: usize| #[trigger] self.live(key) implies {
            &&& after.points[key].locked == self.points[key].locked
            &&& after.points[key].last_position == self.points[key].last_position
            &&& self.points[key].locked ==> after.points[key] == self.points[key]
        } by {
            assert(between.live(key));
        }
    }

    proof fn lemma_trace_holds_still<R>(
        self,
        trace: Seq<Network>,
        order: Seq<usize>,
        solve: R,
        n: int,
    ) where R: Fn(Vector<Scalar>, Vector<Scalar>, Scalar) -> (Vector<Scalar>, Vector<Scalar>)
        requires
            self.wf(),
            trace.len() == order.len() + 1,
            trace[0] == self,
            forall|i: int| 0 <= i < order.len() ==> #[trigger] hop(trace, order, solve, i),
            0 <= n <= order.len(),
        ensures
            self.holds_still(trace[n]),
            trace[n].wf(),
        decreases n,
    {
        if n > 0 {
            self.lemma_trace_holds_still(trace, order, solve, n - 1);
            let earlier = trace[n - 1];
            let later = trace[n];
            assert(hop(trace, order, solve, n - 1));
            if order[n - 1] < earlier.sticks.len() {
                let stick = earlier.sticks[order[n - 1] as int];
                assert(earlier.live(stick.points.0) && earlier.live(stick.points.1));
                assert(later.points.dom() =~= earlier.points.dom());
            }
            assert(earlier.holds_still(later));
            self.lemma_holds_still_chain(earlier, later);
        }
    }

    /// The lock invariant over one relaxation pass: whatever the order and
    /// whatever `solve` proposes, the links, the live keys, every lock flag
    /// and every last position stay, and a locked point stays as it is.
    pub proof fn law_relaxed_holds_still<R>(self, order: Seq<usize>, solve: R, after: Network) where
        R: Fn(Vector<Scalar>, Vector<Scalar>, Scalar) -> (Vector<Scalar>, Vector<Scalar>),

        requires
            self.wf(),
            self.relaxed(order, solve, after),
        ensures
            self.holds_still(after),
            after.wf(),
    {
        let trace = choose|trace: Seq<Network>|
            {
                &&& trace.len() == order.len() + 1
                &&& trace[0] == self
                &&& trace[order.len() as int] == after
                &&& forall|i: int| 0 <= i < order.len() ==> #[trigger] hop(trace, order, solve, i)
            };
        self.lemma_trace_holds_still(trace, order, solve, order.len() as int);
    }

    proof fn lemma_stages_hold_still<I, R>(
        self,
        step: I,
        solve: R,
        after: Network,
        stages: Seq<Network>,
        orders: Seq<Seq<usize>>,
        n: int,
    ) where
        I: Fn(Vector<Scalar>, Vector<Scalar>) -> Vector<Scalar>,
        R: Fn(Vector<Scalar>, Vector<Scalar>, Scalar) -> (Vector<Scalar>, Vector<Scalar>),

        requires
            self.wf(),
            self.ticked(step, solve, after, stages, orders),
            0 <= n <= REPETITIONS,
        ensures
            stages[0].holds_still(stages[n]),
            stages[n].wf(),
        decreases n,
    {
        if n > 0 {
            self.lemma_stages_hold_still(step, solve, after, stages, orders, n - 1);
            assert(is_permutation(orders[n - 1], self.sticks.len()));
            stages[n - 1].law_relaxed_holds_still(orders[n - 1], solve, stages[n]);
            stages[0].lemma_holds_still_chain(stages[n - 1], stages[n]);
        }
    }

    /// The lock invariant over one tick: whatever `step` and `solve` return
    /// and whatever orders are drawn, a locked point has the position and
    /// the last position that it had before the tick; the links, the live
    /// keys and every lock flag stay too, and a free point's last position
    /// is the position that it had.
    pub proof fn law_locked_points_stay<I, R>(
        self,
        step: I,
        solve: R,
        after: Network,
        stages: Seq<Network>,
        orders: Seq<Seq<usize>>,
    ) where
        I: Fn(Vector<Scalar>, Vector<Scalar>) -> Vector<Scalar>,
        R: Fn(Vector<Scalar>, Vector<Scalar>, Scalar) -> (Vector<Scalar>, Vector<Scalar>),

        requires
            self.wf(),
            self.ticked(step, solve, after, stages, orders),
        ensures
            after.wf(),
            after.sticks == self.sticks,
            after.points.dom() == self.points.dom(),
            forall|key: usize|
                #![trigger self.live(key)]
                #![trigger after.points[key]]
                self.live(key) ==> {
                    &&& after.points[key].locked == self.points[key].locked
                    &&& self.points[key].locked ==> after.points[key] == self.points[key]
                    &&& !self.points[key].locked ==> after.points[key].last_position
                        == self.points[key].position
                },
    {
        self.lemma_stages_hold_still(step, solve, after, stages, orders, REPETITIONS as int);
        let moved = stages[0];
        assert forall|key: usize| #[trigger] self.live(key) implies {
            &&& after.points[key].locked == self.points[key].locked
            &&& self.points[key].locked ==> after.points[key] == self.points[key]
            &&& !self.points[key].locked ==> after.points[key].last_position
                == self.points[key].position
        } by {
            assert(moved.live(key));
        }
    }
}

} // verus!
