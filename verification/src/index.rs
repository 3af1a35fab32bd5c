//! An index-keyed buffer over grid points, with the rectangular areas
//! used to describe which keys changed.

use vstd::prelude::*;

verus! {

broadcast use vstd::std_specs::vec::group_vec_axioms;

/// A grid position.
#[derive(Clone, Copy, PartialEq, Eq, Structural, Debug, Hash)]
pub struct Point2 {
    pub x: i16,
    pub y: i16,
}

/// An inclusive rectangle of grid positions; empty when `start`
/// exceeds `end` on either axis.
#[derive(Clone, Copy, PartialEq, Eq, Structural, Debug)]
pub struct PointRange {
    pub start: Point2,
    pub end: Point2,
}

/// A set of grid positions: nothing, everything, a listed set, or a
/// rectangle.
#[derive(Debug)]
pub enum IndexArea {
    Empty,
    Full,
    Points(Vec<Point2>),
    Range(PointRange),
}

/// Whether an area covers a position.
pub open spec fn area_contains(a: IndexArea, p: Point2) -> bool {
    match a {
        IndexArea::Empty => false,
        IndexArea::Full => true,
        IndexArea::Points(v) => v@.contains(p),
        IndexArea::Range(r) => r.start.x <= p.x <= r.end.x && r.start.y <= p.y <= r.end.y,
    }
}

/// A rectangle grown to cover one more position.
pub open spec fn spec_extend(r: PointRange, p: Point2) -> PointRange {
    PointRange {
        start: Point2 {
            x: if p.x < r.start.x { p.x } else { r.start.x },
            y: if p.y < r.start.y { p.y } else { r.start.y },
        },
        end: Point2 {
            x: if p.x > r.end.x { p.x } else { r.end.x },
            y: if p.y > r.end.y { p.y } else { r.end.y },
        },
    }
}

/// The rectangle covering the positions of `s[i..]`, grown from `acc`.
pub open spec fn spec_points_bound(s: Seq<Point2>, i: int, acc: PointRange) -> PointRange
    decreases s.len() - i,
{
    if i < 0 || i >= s.len() {
        acc
    } else {
        spec_points_bound(s, i + 1, spec_extend(acc, s[i]))
    }
}

/// The bounding rectangle of an area other than `Full`: inverted (and
/// so empty) for `Empty`, the coordinate-wise extremes for a point set
/// (the zero position standing in for an empty one), the rectangle
/// itself otherwise.
pub open spec fn spec_bound(a: IndexArea) -> PointRange {
    match a {
        IndexArea::Empty => PointRange {
            start: Point2 { x: i16::MAX, y: i16::MAX },
            end: Point2 { x: i16::MIN, y: i16::MIN },
        },
        IndexArea::Full => PointRange {
            start: Point2 { x: 0, y: 0 },
            end: Point2 { x: 0, y: 0 },
        },
        IndexArea::Points(v) => if v@.len() == 0 {
            PointRange { start: Point2 { x: 0, y: 0 }, end: Point2 { x: 0, y: 0 } }
        } else {
            spec_points_bound(v@, 1, PointRange { start: v@[0], end: v@[0] })
        },
        IndexArea::Range(r) => r,
    }
}

/// Whether a rectangle covers a position.
pub open spec fn in_bound(r: PointRange, p: Point2) -> bool {
    r.start.x <= p.x <= r.end.x && r.start.y <= p.y <= r.end.y
}

impl IndexArea {
    /// The bounding rectangle of the area: the degenerate inverted
    /// rectangle for `Empty`, the coordinate-wise extremes for a set
    /// (zero standing in on an empty set), and the rectangle itself.
    /// A `Full` area has no bounding rectangle; callers never ask for
    /// one.
    #[verifier::loop_isolation(false)]
    pub fn range(&self) -> (r: PointRange)
        requires
            !(*self is Full),
        ensures
            r == spec_bound(*self),
            forall|p: Point2| area_contains(*self, p) ==> in_bound(r, p),
            *self is Range ==> r == self->Range_0,
            *self is Empty ==> r.start.x > r.end.x,
    {
        match self {
            IndexArea::Empty => PointRange {
                start: Point2 { x: i16::MAX, y: i16::MAX },
                end: Point2 { x: i16::MIN, y: i16::MIN },
            },
            IndexArea::Full => PointRange {
                start: Point2 { x: 0, y: 0 },
                end: Point2 { x: 0, y: 0 },
            },
            IndexArea::Points(v) => {
                let n: usize = v.len();
                if n == 0 {
                    return PointRange {
                        start: Point2 { x: 0, y: 0 },
                        end: Point2 { x: 0, y: 0 },
                    };
                }
                let mut min_x: i16 = v[0].x;
                let mut max_x: i16 = v[0].x;
                let mut min_y: i16 = v[0].y;
                let mut max_y: i16 = v[0].y;
                let mut i: usize = 1;
                while i < n
                    invariant
                        1 <= i <= n,
                        n == v@.len(),
                        forall|j: int|
                            0 <= j < i ==> min_x <= (#[trigger] v@[j]).x <= max_x && min_y
                                <= v@[j].y <= max_y,
                        spec_points_bound(v@, 1, PointRange { start: v@[0], end: v@[0] })
                            == spec_points_bound(
                            v@,
                            i as int,
                            PointRange {
                                start: Point2 { x: min_x, y: min_y },
                                end: Point2 { x: max_x, y: max_y },
                            },
                        ),
                    decreases n - i,
                {
                    if v[i].x < min_x {
                        min_x = v[i].x;
                    }
                    if v[i].x > max_x {
                        max_x = v[i].x;
                    }
                    if v[i].y < min_y {
                        min_y = v[i].y;
                    }
                    if v[i].y > max_y {
                        max_y = v[i].y;
                    }
                    i = i + 1;
                }
                proof {
                    assert forall|p: Point2| area_contains(*self, p) implies min_x <= p.x <= max_x
                        && min_y <= p.y <= max_y by {
                        let k = choose|k: int| 0 <= k < v@.len() && v@[k] == p;
                        assert(v@[k] == p);
                    }
                }
                PointRange {
                    start: Point2 { x: min_x, y: min_y },
                    end: Point2 { x: max_x, y: max_y },
                }
            }
            IndexArea::Range(r) => *r,
        }
    }

    /// Every position of the area's bounding rectangle, row by row
    /// with `x` varying fastest.
    #[verifier::loop_isolation(false)]
    pub fn iter(&self) -> (r: Vec<Point2>)
        requires
            !(*self is Full),
        ensures
            forall|p: Point2| r@.contains(p) <==> in_bound(spec_bound(*self), p),
            forall|p: Point2| area_contains(*self, p) ==> r@.contains(p),
    {
        let range = self.range();
        let mut out: Vec<Point2> = Vec::new();
        if range.start.x > range.end.x || range.start.y > range.end.y {
            proof {
                assert forall|p: Point2| area_contains(*self, p) implies out@.contains(p) by {
                    assert(in_bound(range, p));
                }
                assert forall|p: Point2| !out@.contains(p) by {
                    if out@.contains(p) {
                        let k = choose|k: int| 0 <= k < out@.len() && out@[k] == p;
                        assert(false);
                    }
                }
            }
            return out;
        }
        let mut y: i32 = range.start.y as i32;
        while y <= range.end.y as i32
            invariant
                range.start.y as i32 <= y <= range.end.y as i32 + 1,
                range.start.x <= range.end.x,
                forall|p: Point2|
                    (range.start.x <= p.x <= range.end.x && range.start.y <= p.y && (
                    p.y as i32) < y) ==> out@.contains(p),
                forall|k: int|
                    0 <= k < out@.len() ==> range.start.x <= (#[trigger] out@[k]).x <= range.end.x
                        && range.start.y <= out@[k].y <= range.end.y,
            decreases range.end.y as i32 + 1 - y,
        {
            let mut x: i32 = range.start.x as i32;
            while x <= range.end.x as i32
                invariant
                    range.start.x as i32 <= x <= range.end.x as i32 + 1,
                    range.start.y as i32 <= y <= range.end.y as i32,
                    forall|p: Point2|
                        (range.start.x <= p.x <= range.end.x && range.start.y <= p.y && (
                        p.y as i32) < y) ==> out@.contains(p),
                    forall|p: Point2|
                        (range.start.x <= p.x && (p.x as i32) < x && p.y as i32 == y)
                            ==> out@.contains(p),
                    forall|k: int|
                        0 <= k < out@.len() ==> range.start.x <= (#[trigger] out@[k]).x
                            <= range.end.x && range.start.y <= out@[k].y <= range.end.y,
                decreases range.end.x as i32 + 1 - x,
            {
                let ghost pre = out@;
                out.push(Point2 { x: x as i16, y: y as i16 });
                proof {
                    assert(out@ == pre.push(Point2 { x: x as i16, y: y as i16 }));
                    assert forall|p: Point2|
                        (range.start.x <= p.x && (p.x as i32) < x + 1 && p.y as i32 == y) implies
                        out@.contains(p) by {
                        if (p.x as i32) < x {
                            assert(pre.contains(p));
                            let k = choose|k: int| 0 <= k < pre.len() && pre[k] == p;
                            assert(out@[k] == p);
                        } else {
                            assert(p == Point2 { x: x as i16, y: y as i16 });
                            assert(out@[out@.len() - 1] == p);
                        }
                    }
                    assert forall|p: Point2|
                        (range.start.x <= p.x <= range.end.x && range.start.y <= p.y && (
                        p.y as i32) < y) implies out@.contains(p) by {
                        assert(pre.contains(p));
                        let k = choose|k: int| 0 <= k < pre.len() && pre[k] == p;
                        assert(out@[k] == p);
                    }
                }
                x = x + 1;
            }
            y = y + 1;
        }
        proof {
            assert forall|p: Point2| out@.contains(p) <==> in_bound(range, p) by {
                if in_bound(range, p) {
                    assert(out@.contains(p));
                }
                if out@.contains(p) {
                    let k = choose|k: int| 0 <= k < out@.len() && out@[k] == p;
                    assert(in_bound(range, out@[k]));
                }
            }
            assert forall|p: Point2| area_contains(*self, p) implies out@.contains(p) by {
                assert(in_bound(range, p));
            }
        }
        out
    }
}

impl IndexArea {
    /// The union of two areas.  It covers every position either side
    /// covers — exactly, except that joining two rectangles gives
    /// their bounding rectangle, which may cover more.
    #[verifier::loop_isolation(false)]
    pub fn union(self, other: IndexArea) -> (r: IndexArea)
        ensures
            forall|p: Point2|
                area_contains(self, p) || area_contains(other, p) ==> area_contains(r, p),
            (!(self is Full) && !(other is Full) && !(self is Range && other is Range)) ==> (forall|
                p: Point2,
            |
                area_contains(r, p) ==> area_contains(self, p) || area_contains(other, p)),
    {
        match (self, other) {
            (IndexArea::Empty, a) => a,
            (a, IndexArea::Empty) => a,
            (IndexArea::Full, _) => IndexArea::Full,
            (_, IndexArea::Full) => IndexArea::Full,
            (IndexArea::Points(va), IndexArea::Points(vb)) => {
                let joined = concat_points(va, vb);
                IndexArea::Points(joined)
            }
            (IndexArea::Range(ra), IndexArea::Points(vb)) => {
                let pts = IndexArea::Range(ra).iter();
                let joined = concat_points(vb, pts);
                IndexArea::Points(joined)
            }
            (IndexArea::Points(va), IndexArea::Range(rb)) => {
                let pts = IndexArea::Range(rb).iter();
                let joined = concat_points(va, pts);
                IndexArea::Points(joined)
            }
            (IndexArea::Range(ra), IndexArea::Range(rb)) => IndexArea::Range(
                PointRange {
                    start: Point2 {
                        x: if ra.start.x < rb.start.x {
                            ra.start.x
                        } else {
                            rb.start.x
                        },
                        y: if ra.start.y < rb.start.y {
                            ra.start.y
                        } else {
                            rb.start.y
                        },
                    },
                    end: Point2 {
                        x: if ra.end.x > rb.end.x {
                            ra.end.x
                        } else {
                            rb.end.x
                        },
                        y: if ra.end.y > rb.end.y {
                            ra.end.y
                        } else {
                            rb.end.y
                        },
                    },
                },
            ),
        }
    }
}

/// Both point lists, one after the other.
fn concat_points(a: Vec<Point2>, b: Vec<Point2>) -> (r: Vec<Point2>)
    ensures
        r@ == a@ + b@,
        forall|p: Point2| r@.contains(p) <==> a@.contains(p) || b@.contains(p),
{
    let mut r = a;
    let mut b = b;
    let ghost av = r@;
    let ghost bv = b@;
    r.append(&mut b);
    proof {
        assert forall|p: Point2| r@.contains(p) <==> av.contains(p) || bv.contains(p) by {
            if r@.contains(p) {
                let k = choose|k: int| 0 <= k < r@.len() && r@[k] == p;
                if k < av.len() {
                    assert(av[k] == p);
                } else {
                    assert(bv[k - av.len()] == p);
                }
            }
            if av.contains(p) {
                let k = choose|k: int| 0 <= k < av.len() && av[k] == p;
                assert(r@[k] == p);
            }
            if bv.contains(p) {
                let k = choose|k: int| 0 <= k < bv.len() && bv[k] == p;
                assert(r@[av.len() + k] == p);
            }
        }
    }
    r
}

/// The first entry with the given key, from position `i` on.
pub open spec fn key_idx_from<Item>(s: Seq<(Point2, Item)>, key: Point2, i: int) -> int
    decreases s.len() - i,
{
    if i < 0 || i >= s.len() {
        -1
    } else if s[i].0 == key {
        i
    } else {
        key_idx_from(s, key, i + 1)
    }
}

/// The item stored under a key, if any.
pub open spec fn spec_lookup<Item>(s: Seq<(Point2, Item)>, key: Point2) -> Option<Item> {
    let i = key_idx_from(s, key, 0);
    if i == -1 {
        None
    } else {
        Some(s[i].1)
    }
}

/// At most one entry per key.
pub open spec fn spec_keys_unique<Item>(s: Seq<(Point2, Item)>) -> bool {
    forall|i: int, j: int|
        0 <= i < j < s.len() ==> (#[trigger] s[i]).0 != (#[trigger] s[j]).0
}

/// A found key index is in range and names the first entry with that
/// key; `-1` means the key is absent.
pub proof fn lemma_key_idx_from<Item>(s: Seq<(Point2, Item)>, key: Point2, i: int)
    requires
        0 <= i <= s.len(),
    ensures
        key_idx_from(s, key, i) == -1 ==> forall|j: int|
            i <= j < s.len() ==> (#[trigger] s[j]).0 != key,
        key_idx_from(s, key, i) != -1 ==> i <= key_idx_from(s, key, i) < s.len() && s[
            key_idx_from(s, key, i)
        ].0 == key,
    decreases s.len() - i,
{
    if i < s.len() && s[i].0 != key {
        lemma_key_idx_from(s, key, i + 1);
    }
}

/// A mutable store of items keyed by grid position; the key set and
/// the stored items are exact, with at most one entry per key.
#[derive(Debug)]
pub struct IndexBuffer<Item> {
    pub data: Vec<(Point2, Item)>,
}

/// A read-only snapshot of an [`IndexBuffer`]'s contents.
#[derive(Debug)]
pub struct IndexBufferView<Item> {
    pub data: Vec<(Point2, Item)>,
}

impl<Item> IndexBuffer<Item> {
    /// A buffer starting from the entries of the given snapshot; a
    /// snapshot with one entry per key (as every snapshot a buffer
    /// hands out has) yields a buffer with one entry per key.
    pub fn with_port(port: IndexBufferView<Item>) -> (r: IndexBuffer<Item>)
        ensures
            r.data@ == port.data@,
            spec_keys_unique(port.data@) ==> spec_keys_unique(r.data@),
    {
        IndexBuffer { data: port.data }
    }

    /// An empty buffer.
    pub fn new() -> (r: IndexBuffer<Item>)
        ensures
            r.data@.len() == 0,
            spec_keys_unique(r.data@),
    {
        IndexBuffer { data: Vec::new() }
    }

    /// The position of the entry with the given key, if any.
    #[verifier::loop_isolation(false)]
    fn key_index(&self, key: Point2) -> (r: Option<usize>)
        ensures
            match r {
                Some(i) => i < self.data@.len() && key_idx_from(self.data@, key, 0) == i as int,
                None => key_idx_from(self.data@, key, 0) == -1,
            },
    {
        let n: usize = self.data.len();
        let mut i: usize = 0;
        while i < n
            invariant
                i <= n,
                n == self.data@.len(),
                key_idx_from(self.data@, key, 0) == key_idx_from(self.data@, key, i as int),
            decreases n - i,
        {
            if self.data[i].0 == key {
                return Some(i);
            }
            i = i + 1;
        }
        None
    }

    /// Stores `item` under `key`, replacing what the key held before;
    /// keys stay unique.
    pub fn insert(&mut self, key: Point2, item: Item)
        ensures
            final(self).data@ == (if key_idx_from(old(self).data@, key, 0) == -1 {
                old(self).data@.push((key, item))
            } else {
                old(self).data@.update(key_idx_from(old(self).data@, key, 0), (key, item))
            }),
            spec_keys_unique(old(self).data@) ==> spec_keys_unique(final(self).data@),
    {
        proof {
            lemma_key_idx_from(self.data@, key, 0);
        }
        match self.key_index(key) {
            Some(i) => {
                self.data[i] = (key, item);
                proof {
                    if spec_keys_unique(old(self).data@) {
                        assert(old(self).data@[i as int].0 == key);
                        assert forall|a: int, b: int|
                            0 <= a < b < self.data@.len() implies (#[trigger] self.data@[a]).0 != (
                        #[trigger] self.data@[b]).0 by {
                            assert(old(self).data@[a].0 != old(self).data@[b].0);
                        }
                    }
                }
            }
            None => {
                self.data.push((key, item));
                proof {
                    if spec_keys_unique(old(self).data@) {
                        assert forall|a: int, b: int|
                            0 <= a < b < self.data@.len() implies (#[trigger] self.data@[a]).0 != (
                        #[trigger] self.data@[b]).0 by {
                            if b < old(self).data@.len() {
                                assert(old(self).data@[a].0 != old(self).data@[b].0);
                            } else {
                                assert(old(self).data@[a].0 != key);
                            }
                        }
                    }
                }
            }
        }
    }

    /// Stores every pair of `items` in order, each replacing what its
    /// key held before; keys stay unique.
    pub fn insert_iter(&mut self, items: Vec<(Point2, Item)>)
        ensures
            final(self).data@ == spec_insert_all(old(self).data@, items@, 0),
            spec_keys_unique(old(self).data@) ==> spec_keys_unique(final(self).data@),
    {
        let n: usize = items.len();
        let mut items = items;
        let ghost snapshot = items@;
        let mut i: usize = 0;
        while i < n
            invariant
                i <= n,
                n == snapshot.len(),
                items@ == snapshot.subrange(i as int, n as int),
                spec_insert_all(old(self).data@, snapshot, 0) == spec_insert_all(
                    self.data@,
                    snapshot,
                    i as int,
                ),
                spec_keys_unique(old(self).data@) ==> spec_keys_unique(self.data@),
            decreases n - i,
        {
            let (k, v) = items.remove(0);
            proof {
                assert(snapshot.subrange(i as int, n as int)[0] == snapshot[i as int]);
                assert(items@ =~= snapshot.subrange(i + 1, n as int));
            }
            self.insert(k, v);
            i = i + 1;
        }
        proof {
            assert(spec_insert_all(self.data@, snapshot, n as int) == self.data@);
        }
    }

    /// Removes the entry under `key`, if there is one; keys stay
    /// unique.
    pub fn remove(&mut self, key: Point2)
        ensures
            final(self).data@ == (if key_idx_from(old(self).data@, key, 0) == -1 {
                old(self).data@
            } else {
                old(self).data@.remove(key_idx_from(old(self).data@, key, 0))
            }),
            spec_keys_unique(old(self).data@) ==> spec_keys_unique(final(self).data@),
    {
        match self.key_index(key) {
            Some(i) => {
                self.data.remove(i);
                proof {
                    if spec_keys_unique(old(self).data@) {
                        assert forall|a: int, b: int|
                            0 <= a < b < self.data@.len() implies (#[trigger] self.data@[a]).0 != (
                        #[trigger] self.data@[b]).0 by {
                            let oa: int = if a < i { a } else { a + 1 };
                            let ob: int = if b < i { b } else { b + 1 };
                            assert(self.data@[a] == old(self).data@[oa]);
                            assert(self.data@[b] == old(self).data@[ob]);
                            assert(old(self).data@[oa].0 != old(self).data@[ob].0);
                        }
                    }
                }
            }
            None => {},
        }
    }
}

impl<Item: Clone> IndexBuffer<Item> {
    /// A snapshot of the buffer's current entries: the same keys in
    /// the same order, each item a clone of the stored one.
    pub fn get_port(&self) -> (r: IndexBufferView<Item>)
        ensures
            r.data@.len() == self.data@.len(),
            forall|i: int|
                0 <= i < self.data@.len() ==> (#[trigger] r.data@[i]).0 == self.data@[i].0
                    && vstd::pervasive::cloned::<Item>(self.data@[i].1, r.data@[i].1),
            spec_keys_unique(self.data@) ==> spec_keys_unique(r.data@),
    {
        let n: usize = self.data.len();
        let mut out: Vec<(Point2, Item)> = Vec::new();
        let mut i: usize = 0;
        while i < n
            invariant
                i <= n,
                n == self.data@.len(),
                out@.len() == i,
                forall|j: int|
                    0 <= j < i ==> (#[trigger] out@[j]).0 == self.data@[j].0
                        && vstd::pervasive::cloned::<Item>(self.data@[j].1, out@[j].1),
            decreases n - i,
        {
            let item = self.data[i].1.clone();
            let key = self.data[i].0;
            out.push((key, item));
            i = i + 1;
        }
        IndexBufferView { data: out }
    }
}

/// The entries after storing each pair of `items` from position `i`
/// on, in order.
pub open spec fn spec_insert_all<Item>(
    s: Seq<(Point2, Item)>,
    items: Seq<(Point2, Item)>,
    i: int,
) -> Seq<(Point2, Item)>
    decreases items.len() - i,
{
    if i < 0 || i >= items.len() {
        s
    } else {
        let key = items[i].0;
        let ki = key_idx_from(s, key, 0);
        let s2 = if ki == -1 {
            s.push(items[i])
        } else {
            s.update(ki, items[i])
        };
        spec_insert_all(s2, items, i + 1)
    }
}

} // verus!
