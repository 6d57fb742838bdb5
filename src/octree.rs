use vstd::prelude::*;
use crate::local::{node_size, LocalNodeCoords, LocalNodeIndex, SECTIONS_IN_GRAPH, pack_spec, lemma_pack_bounds, lemma_pack_injective};

verus! {

/// Whether section `c` lies in the cube of edge `size` whose lowest corner is `node`.
pub open spec fn in_cube(node: LocalNodeCoords, size: int, c: LocalNodeCoords) -> bool {
    &&& node.x <= c.x < node.x + size
    &&& node.y <= c.y < node.y + size
    &&& node.z <= c.z < node.z + size
}

/// A cube of edge `size` at `node` that fits in the window.
pub open spec fn cube_fits(node: LocalNodeCoords, size: int) -> bool {
    node.x + size <= 256 && node.y + size <= 256 && node.z + size <= 256
}


/// One bit per section of the window, addressed by packed section index.
pub struct LinearBitOctree {
    bits: Vec<bool>,
}

impl LinearBitOctree {
    pub closed spec fn view(&self) -> Seq<bool> {
        self.bits@
    }

    pub open spec fn wf(&self) -> bool {
        self@.len() == SECTIONS_IN_GRAPH
    }

    /// The bit of section `c`.
    pub open spec fn bit(&self, c: LocalNodeCoords) -> bool {
        self@[pack_spec(c)]
    }

    /// Every bit clear.
    pub open spec fn is_clear(&self) -> bool {
        &&& self.wf()
        &&& forall|i: int| 0 <= i < SECTIONS_IN_GRAPH ==> !#[trigger] self@[i]
    }

    pub fn new() -> (r: Self)
        ensures
            r.is_clear(),
    {
        let mut bits: Vec<bool> = Vec::new();
        let mut i: usize = 0;
        while i < SECTIONS_IN_GRAPH
            invariant
                i <= SECTIONS_IN_GRAPH,
                bits@.len() == i,
                forall|j: int| 0 <= j < i ==> !#[trigger] bits@[j],
            decreases SECTIONS_IN_GRAPH - i,
        {
            bits.push(false);
            i = i + 1;
        }
        LinearBitOctree { bits }
    }

    pub fn get(&self, index: LocalNodeIndex) -> (r: bool)
        requires
            self.wf(),
            index.wf(),
        ensures
            r == self@[index.index as int],
    {
        self.bits[index.index as usize]
    }

    /// Sets the bit of section `c`; every other bit keeps its value.
    pub fn set(&mut self, c: LocalNodeCoords, value: bool)
        requires
            old(self).wf(),
        ensures
            final(self).wf(),
            final(self)@ == old(self)@.update(pack_spec(c), value),
            forall|d: LocalNodeCoords| #[trigger] final(self).bit(d) == if d == c { value } else { old(self).bit(d) },
    {
        let i = LocalNodeIndex::pack(c);
        self.bits.set(i.index as usize, value);
        proof {
            assert forall|d: LocalNodeCoords| #[trigger] self.bit(d) == if d == c { value } else { old(self).bit(d) } by {
                lemma_pack_injective(d, c);
                lemma_pack_bounds(d);
            }
        }
    }

    /// Sets the bit of every section in the level-`level` node at `node` to `value`.
    pub fn set_node(&mut self, level: u8, node: LocalNodeCoords, value: bool)
        requires
            old(self).wf(),
            level <= 3,
            cube_fits(node, node_size(level as int)),
        ensures
            final(self).wf(),
            forall|c: LocalNodeCoords| #[trigger] final(self).bit(c) == if in_cube(node, node_size(level as int), c) {
                value
            } else {
                old(self).bit(c)
            },
        decreases level,
    {
        if level == 0 {
            self.set(node, value);
        } else {
            let h: u8 = if level == 1 { 1 } else if level == 2 { 2 } else { 4 };
            assert(h == node_size(level - 1));
            let l = level - 1;
            let (x, y, z) = (node.x, node.y, node.z);
            self.set_node(l, LocalNodeCoords { x, y, z }, value);
            self.set_node(l, LocalNodeCoords { x: x + h, y, z }, value);
            self.set_node(l, LocalNodeCoords { x, y: y + h, z }, value);
            self.set_node(l, LocalNodeCoords { x: x + h, y: y + h, z }, value);
            self.set_node(l, LocalNodeCoords { x, y, z: z + h }, value);
            self.set_node(l, LocalNodeCoords { x: x + h, y, z: z + h }, value);
            self.set_node(l, LocalNodeCoords { x, y: y + h, z: z + h }, value);
            self.set_node(l, LocalNodeCoords { x: x + h, y: y + h, z: z + h }, value);
        }
    }

    /// Whether any section in the level-`level` node at `node` has its bit set.
    pub fn get_node(&self, level: u8, node: LocalNodeCoords) -> (r: bool)
        requires
            self.wf(),
            level <= 3,
            cube_fits(node, node_size(level as int)),
        ensures
            r == exists|c: LocalNodeCoords| in_cube(node, node_size(level as int), c) && #[trigger] self.bit(c),
        decreases level,
    {
        if level == 0 {
            let i = LocalNodeIndex::pack(node);
            let r = self.get(i);
            proof {
                if r {
                    assert(in_cube(node, 1, node) && self.bit(node));
                }
                assert forall|c: LocalNodeCoords| in_cube(node, 1, c) implies c == node by {}
            }
            r
        } else {
            let h: u8 = if level == 1 { 1 } else if level == 2 { 2 } else { 4 };
            assert(h == node_size(level - 1));
            let l = level - 1;
            let (x, y, z) = (node.x, node.y, node.z);
            let n0 = LocalNodeCoords { x, y, z };
            let n1 = LocalNodeCoords { x: x + h, y, z };
            let n2 = LocalNodeCoords { x, y: y + h, z };
            let n3 = LocalNodeCoords { x: x + h, y: y + h, z };
            let n4 = LocalNodeCoords { x, y, z: z + h };
            let n5 = LocalNodeCoords { x: x + h, y, z: z + h };
            let n6 = LocalNodeCoords { x, y: y + h, z: z + h };
            let n7 = LocalNodeCoords { x: x + h, y: y + h, z: z + h };
            let r = self.get_node(l, n0) || self.get_node(l, n1) || self.get_node(l, n2) || self.get_node(l, n3)
                || self.get_node(l, n4) || self.get_node(l, n5) || self.get_node(l, n6) || self.get_node(l, n7);
            proof {
                let s = node_size(level as int);
                let hh = h as int;
                if exists|c: LocalNodeCoords| in_cube(node, s, c) && #[trigger] self.bit(c) {
                    let c = choose|c: LocalNodeCoords| in_cube(node, s, c) && #[trigger] self.bit(c);
                    let ch = LocalNodeCoords {
                        x: if c.x < x + h { x } else { (x + h) as u8 },
                        y: if c.y < y + h { y } else { (y + h) as u8 },
                        z: if c.z < z + h { z } else { (z + h) as u8 },
                    };
                    assert(in_cube(ch, hh, c));
                    assert(ch == n0 || ch == n1 || ch == n2 || ch == n3 || ch == n4 || ch == n5 || ch == n6 || ch == n7);
                }
            }
            r
        }
    }

    /// Clears every bit.
    pub fn clear(&mut self)
        requires
            old(self).wf(),
        ensures
            final(self).is_clear(),
    {
        let mut i: usize = 0;
        while i < SECTIONS_IN_GRAPH
            invariant
                i <= SECTIONS_IN_GRAPH,
                self.wf(),
                forall|j: int| 0 <= j < i ==> !#[trigger] self@[j],
            decreases SECTIONS_IN_GRAPH - i,
        {
            self.bits.set(i, false);
            i = i + 1;
        }
    }
}

} // verus!
