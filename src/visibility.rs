use vstd::prelude::*;

verus! {

/// Number of faces of a section, and of directions a walk can leave it by.
pub const DIRECTION_COUNT: u8 = 6;

pub const NEG_X: u8 = 0;
pub const POS_X: u8 = 1;
pub const NEG_Y: u8 = 2;
pub const POS_Y: u8 = 3;
pub const NEG_Z: u8 = 4;
pub const POS_Z: u8 = 5;

/// The face opposite to direction `d`: the sign of the axis is flipped.
pub open spec fn opposite_spec(d: int) -> int {
    if d % 2 == 0 { d + 1 } else { d - 1 }
}

/// The opposite of a direction (`d < 6`).
pub fn opposite(d: u8) -> (r: u8)
    requires
        d < DIRECTION_COUNT,
    ensures
        r < DIRECTION_COUNT,
        r as int == opposite_spec(d as int),
        opposite_spec(r as int) == d as int,
{
    if d % 2 == 0 { d + 1 } else { d - 1 }
}

/// Bit `d` of a byte.
pub open spec fn bit_set(bits: u8, d: int) -> bool {
    0 <= d < 8 && (bits >> (d as u8)) & 1u8 == 1u8
}

proof fn lemma_or_bit(a: u8, b: u8, d: u8)
    requires
        d < 8,
    ensures
        bit_set(a | b, d as int) == (bit_set(a, d as int) || bit_set(b, d as int)),
{
    assert((((a | b) >> d) & 1u8 == 1u8) == (((a >> d) & 1u8 == 1u8) || ((b >> d) & 1u8 == 1u8)))
        by (bit_vector)
        requires d < 8u8;
}

proof fn lemma_and_bit(a: u8, b: u8, d: u8)
    requires
        d < 8,
    ensures
        bit_set(a & b, d as int) == (bit_set(a, d as int) && bit_set(b, d as int)),
{
    assert((((a & b) >> d) & 1u8 == 1u8) == (((a >> d) & 1u8 == 1u8) && ((b >> d) & 1u8 == 1u8)))
        by (bit_vector)
        requires d < 8u8;
}

proof fn lemma_single_bit(d: u8, e: u8)
    requires
        d < 8,
        e < 8,
    ensures
        bit_set(1u8 << d, e as int) == (d == e),
{
    assert(((((1u8 << d) >> e) & 1u8) == 1u8) == (d == e)) by (bit_vector)
        requires d < 8u8, e < 8u8;
}

/// A set of the six low bits is empty exactly when it holds no direction.
pub proof fn lemma_low_six(a: u8)
    requires
        a < 64,
    ensures
        (a == 0) == (forall|d: int| 0 <= d < 6 ==> !#[trigger] bit_set(a, d)),
        !bit_set(a, 6),
        !bit_set(a, 7),
{
    assert(a < 64u8 ==> ((a == 0u8) == (((a >> 0u8) & 1u8 != 1u8) && ((a >> 1u8) & 1u8 != 1u8)
        && ((a >> 2u8) & 1u8 != 1u8) && ((a >> 3u8) & 1u8 != 1u8) && ((a >> 4u8) & 1u8 != 1u8)
        && ((a >> 5u8) & 1u8 != 1u8)))) by (bit_vector);
    assert(a < 64u8 ==> ((a >> 6u8) & 1u8 != 1u8) && ((a >> 7u8) & 1u8 != 1u8)) by (bit_vector);
    if a != 0 {
        assert(bit_set(a, 0) || bit_set(a, 1) || bit_set(a, 2) || bit_set(a, 3) || bit_set(a, 4)
            || bit_set(a, 5));
    }
}

proof fn lemma_or_small(a: u8, b: u8)
    requires
        a < 64,
        b < 64,
    ensures
        a | b < 64,
{
    assert(a < 64u8 && b < 64u8 ==> (a | b) < 64u8) by (bit_vector);
}

proof fn lemma_and_small(a: u8, b: u8)
    requires
        a < 64,
    ensures
        a & b < 64,
{
    assert(a < 64u8 ==> (a & b) < 64u8) by (bit_vector);
}

/// A set of the six directions, one bit each.
#[derive(Clone, Copy, PartialEq, Eq, Structural, Debug)]
pub struct GraphDirectionSet {
    pub bits: u8,
}

impl GraphDirectionSet {
    /// Only the six low bits are used.
    pub open spec fn wf(&self) -> bool {
        self.bits < 64
    }

    /// Whether direction `d` is in the set.
    pub open spec fn has(&self, d: int) -> bool {
        bit_set(self.bits, d)
    }

    pub fn none() -> (r: Self)
        ensures
            r.wf(),
            r.bits == 0,
            forall|d: int| !#[trigger] r.has(d),
    {
        proof {
            lemma_low_six(0);
        }
        GraphDirectionSet { bits: 0 }
    }

    pub fn all() -> (r: Self)
        ensures
            r.wf(),
            forall|d: int| #[trigger] r.has(d) <==> 0 <= d < 6,
    {
        assert forall|d: int| #[trigger] bit_set(0x3fu8, d) <==> 0 <= d < 6 by {
            if 0 <= d < 8 {
                let e = d as u8;
                assert(((0x3fu8 >> e) & 1u8 == 1u8) == (e < 6u8)) by (bit_vector)
                    requires e < 8u8;
            }
        }
        GraphDirectionSet { bits: 0x3f }
    }

    /// The set holding direction `d` alone.
    pub fn single(d: u8) -> (r: Self)
        requires
            d < DIRECTION_COUNT,
        ensures
            r.wf(),
            forall|e: int| #[trigger] r.has(e) <==> e == d,
    {
        assert forall|e: int| #[trigger] bit_set(1u8 << d, e) <==> e == d by {
            if 0 <= e < 8 {
                lemma_single_bit(d, e as u8);
            }
        }
        assert((1u8 << d) < 64u8) by (bit_vector)
            requires d < 6u8;
        GraphDirectionSet { bits: 1u8 << d }
    }

    pub fn contains(&self, d: u8) -> (r: bool)
        requires
            d < DIRECTION_COUNT,
        ensures
            r == self.has(d as int),
    {
        (self.bits >> d) & 1 == 1
    }

    pub fn is_empty(&self) -> (r: bool)
        requires
            self.wf(),
        ensures
            r == (forall|d: int| 0 <= d < 6 ==> !#[trigger] self.has(d)),
            r == (self.bits == 0),
    {
        proof {
            lemma_low_six(self.bits);
            if self.bits != 0 {
                assert(exists|d: int| 0 <= d < 6 && bit_set(self.bits, d));
                let d = choose|d: int| 0 <= d < 6 && bit_set(self.bits, d);
                assert(self.has(d));
            }
        }
        self.bits == 0
    }

    /// Adds direction `d`.
    pub fn add(&mut self, d: u8)
        requires
            old(self).wf(),
            d < DIRECTION_COUNT,
        ensures
            final(self).wf(),
            forall|e: int| #[trigger] final(self).has(e) <==> (old(self).has(e) || e == d),
    {
        let s = Self::single(d);
        self.add_all(s);
    }

    /// Adds every direction of `other` (union).
    pub fn add_all(&mut self, other: GraphDirectionSet)
        requires
            old(self).wf(),
            other.wf(),
        ensures
            final(self).wf(),
            forall|e: int| #[trigger] final(self).has(e) <==> (old(self).has(e) || other.has(e)),
    {
        let a = self.bits;
        let b = other.bits;
        proof {
            lemma_or_small(a, b);
            assert forall|e: int| #[trigger] bit_set(a | b, e) <==> (bit_set(a, e) || bit_set(b, e)) by {
                if 0 <= e < 8 {
                    lemma_or_bit(a, b, e as u8);
                }
            }
        }
        self.bits = a | b;
    }

    /// The directions in both sets.
    pub fn intersect(&self, other: GraphDirectionSet) -> (r: Self)
        requires
            self.wf(),
        ensures
            r.wf(),
            forall|e: int| #[trigger] r.has(e) <==> (self.has(e) && other.has(e)),
    {
        let a = self.bits;
        let b = other.bits;
        proof {
            lemma_and_small(a, b);
            assert forall|e: int| #[trigger] bit_set(a & b, e) <==> (bit_set(a, e) && bit_set(b, e)) by {
                if 0 <= e < 8 {
                    lemma_and_bit(a, b, e as u8);
                }
            }
        }
        GraphDirectionSet { bits: a & b }
    }
}

/// For each entry face of a section, the faces that a line of sight entering
/// there can leave by, through the section's interior.
#[derive(Clone, Copy, Debug)]
pub struct VisibilityData {
    pub rows: [GraphDirectionSet; 6],
}

impl VisibilityData {
    pub open spec fn wf(&self) -> bool {
        forall|i: int| 0 <= i < 6 ==> (#[trigger] self.rows@[i]).wf()
    }

    /// The exit faces reachable from entry face `entry`.
    pub open spec fn row(&self, entry: int) -> GraphDirectionSet {
        self.rows@[entry]
    }

    /// Whether a line of sight entering by `entry` can leave by `exit`.
    pub open spec fn connects(&self, entry: int, exit: int) -> bool {
        0 <= entry < 6 && self.rows@[entry].has(exit)
    }

    /// The exit faces reachable from some face of `incoming`.
    pub open spec fn outgoing_spec(&self, incoming: GraphDirectionSet, exit: int) -> bool {
        exists|entry: int| 0 <= entry < 6 && incoming.has(entry) && #[trigger] self.connects(entry, exit)
    }

    /// A section that lets no line of sight through: every row is empty.
    pub fn opaque() -> (r: Self)
        ensures
            r.wf(),
            forall|entry: int, exit: int| !#[trigger] r.connects(entry, exit),
    {
        let n = GraphDirectionSet::none();
        VisibilityData { rows: [n, n, n, n, n, n] }
    }

    /// A section that lets every line of sight through.
    pub fn transparent() -> (r: Self)
        ensures
            r.wf(),
            forall|entry: int, exit: int| #[trigger] r.connects(entry, exit) <==> (0 <= entry < 6
                && 0 <= exit < 6),
    {
        let a = GraphDirectionSet::all();
        VisibilityData { rows: [a, a, a, a, a, a] }
    }

    /// Visibility given by one exit set per entry face, in direction order.
    pub fn from_rows(rows: [GraphDirectionSet; 6]) -> (r: Self)
        requires
            forall|i: int| 0 <= i < 6 ==> (#[trigger] rows@[i]).wf(),
        ensures
            r.wf(),
            forall|i: int| 0 <= i < 6 ==> #[trigger] r.row(i) == rows@[i],
    {
        VisibilityData { rows }
    }

    /// The union of the rows of every entry face in `incoming`.
    pub fn get_outgoing_directions(&self, incoming: GraphDirectionSet) -> (r: GraphDirectionSet)
        requires
            self.wf(),
            incoming.wf(),
        ensures
            r.wf(),
            forall|exit: int| #[trigger] r.has(exit) <==> self.outgoing_spec(incoming, exit),
    {
        let mut r = GraphDirectionSet::none();
        let mut d: u8 = 0;
        while d < DIRECTION_COUNT
            invariant
                d <= 6,
                self.wf(),
                r.wf(),
                forall|exit: int| #[trigger] r.has(exit) <==> (exists|entry: int| 0 <= entry < d
                    && incoming.has(entry) && #[trigger] self.connects(entry, exit)),
            decreases 6 - d,
        {
            let old_r = r;
            if incoming.contains(d) {
                let row = self.rows[d as usize];
                assert(row.wf());
                r.add_all(row);
                assert forall|exit: int| #[trigger] r.has(exit) <==> (exists|entry: int| 0 <= entry < d + 1
                    && incoming.has(entry) && #[trigger] self.connects(entry, exit)) by {
                    if r.has(exit) && !old_r.has(exit) {
                        assert(self.connects(d as int, exit));
                    }
                }
            } else {
                assert forall|exit: int| #[trigger] r.has(exit) <==> (exists|entry: int| 0 <= entry < d + 1
                    && incoming.has(entry) && #[trigger] self.connects(entry, exit)) by {
                    if exists|entry: int| 0 <= entry < d + 1 && incoming.has(entry) && #[trigger] self.connects(entry, exit) {
                        let entry = choose|entry: int| 0 <= entry < d + 1 && incoming.has(entry) && #[trigger] self.connects(entry, exit);
                        assert(entry < d);
                    }
                }
            }
            d = d + 1;
        }
        r
    }
}

} // verus!
