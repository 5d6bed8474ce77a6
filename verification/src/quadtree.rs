//! The spatial index that assigns world positions to shards. Each node of
//! the tree stands for a rectangle of the world; a leaf carries the shard
//! that owns its rectangle. The rectangles themselves are float geometry and
//! stay with the caller: a node names its rectangle by an index into the
//! caller's table, and a query comes with, for that table, whether each
//! rectangle contains the queried point.

use vstd::prelude::*;
use crate::spatial::contains_u32;

verus! {

pub struct QuadTree {
    /// Index of this node's rectangle in the caller's table of rectangles.
    pub region: usize,
    pub depth: u8,
    pub max_depth: u8,
    /// The four quadrants of an inner node, searched in this order.
    pub children: Option<Vec<QuadTree>>,
    /// Set on leaves only.
    pub shard_id: Option<u32>,
}

/// Whether the point lies in the rectangle of `region`; a region outside
/// the table contains nothing.
pub open spec fn region_contains(inside: Seq<bool>, region: usize) -> bool {
    region < inside.len() && inside[region as int]
}

/// The shard of the leaf that contains the point: none when the node's
/// rectangle does not contain it; the node's own shard when it has one;
/// otherwise the first child, in order, that finds one.
pub open spec fn shard_at(t: QuadTree, inside: Seq<bool>) -> Option<u32>
    decreases t,
{
    if !region_contains(inside, t.region) {
        None
    } else if t.shard_id is Some {
        t.shard_id
    } else {
        match t.children {
            None => None,
            Some(kids) => first_shard_in(kids@, inside),
        }
    }
}

/// The first shard that one of `kids`, in order, finds.
pub open spec fn first_shard_in(kids: Seq<QuadTree>, inside: Seq<bool>) -> Option<u32>
    decreases kids,
{
    if kids.len() == 0 {
        None
    } else {
        match shard_at(kids[0], inside) {
            Some(s) => Some(s),
            None => first_shard_in(kids.subrange(1, kids.len() as int), inside),
        }
    }
}

/// `listed` followed by each shard of `rs`, in order, that is not listed
/// yet: every shard appears once.
pub open spec fn add_new_shards(listed: Seq<u32>, rs: Seq<Option<u32>>) -> Seq<u32>
    decreases rs.len(),
{
    if rs.len() == 0 {
        listed
    } else {
        let prev = add_new_shards(listed, rs.drop_last());
        match rs.last() {
            Some(s) => if prev.contains(s) {
                prev
            } else {
                prev.push(s)
            },
            None => prev,
        }
    }
}

/// The distinct shards within reach of a position, from nine probes:
/// nothing when the position itself is in no shard; otherwise its shard,
/// then each other shard that one of the eight surrounding probes lands in,
/// once, in the order of the probes.
pub open spec fn near_shards(t: QuadTree, probes: Seq<Seq<bool>>) -> Seq<u32> {
    match shard_at(t, probes[0]) {
        None => Seq::empty(),
        Some(current) => add_new_shards(
            seq![current],
            Seq::new(8, |i: int| shard_at(t, probes[i + 1])),
        ),
    }
}

/// Adding new shards keeps a list free of repeats and keeps its start.
pub proof fn lemma_add_new_shards(listed: Seq<u32>, rs: Seq<Option<u32>>)
    requires
        listed.no_duplicates(),
    ensures
        add_new_shards(listed, rs).no_duplicates(),
        add_new_shards(listed, rs).len() >= listed.len(),
        forall|i: int| 0 <= i < listed.len() ==> add_new_shards(listed, rs)[i] == listed[i],
    decreases rs.len(),
{
    if rs.len() > 0 {
        lemma_add_new_shards(listed, rs.drop_last());
    }
}

/// A shard ends up in the list exactly when it was listed already or one of
/// `rs` is that shard.
pub proof fn lemma_add_new_shards_contains(listed: Seq<u32>, rs: Seq<Option<u32>>, s: u32)
    ensures
        add_new_shards(listed, rs).contains(s) <==> (listed.contains(s) || exists|i: int|
            0 <= i < rs.len() && rs[i] == Some(s)),
    decreases rs.len(),
{
    if rs.len() > 0 {
        let front = rs.drop_last();
        lemma_add_new_shards_contains(listed, front, s);
        let prev = add_new_shards(listed, front);
        if exists|i: int| 0 <= i < rs.len() && rs[i] == Some(s) {
            let i = choose|i: int| 0 <= i < rs.len() && rs[i] == Some(s);
            if i < rs.len() - 1 {
                assert(front[i] == Some(s));
            } else {
                if !prev.contains(s) {
                    assert(prev.push(s)[prev.len() as int] == s);
                }
            }
        }
        if exists|i: int| 0 <= i < front.len() && front[i] == Some(s) {
            let i = choose|i: int| 0 <= i < front.len() && front[i] == Some(s);
            assert(rs[i] == Some(s));
        }
        if let Some(x) = rs.last() {
            if !prev.contains(x) {
                assert forall|y: u32| prev.push(x).contains(y) implies prev.contains(y) || y == x by {
                    let j = choose|j: int| 0 <= j < prev.push(x).len() && prev.push(x)[j] == y;
                    if j < prev.len() {
                        assert(prev[j] == y);
                    }
                }
                assert forall|y: u32| prev.contains(y) implies prev.push(x).contains(y) by {
                    let j = choose|j: int| 0 <= j < prev.len() && prev[j] == y;
                    assert(prev.push(x)[j] == y);
                }
            }
        }
    }
}

/// Every shard that the position or any of its eight surrounding probes
/// lands in is listed, and nothing else is; a position in no shard lists
/// nothing.
pub proof fn law_near_shards_are_the_probed_shards(t: QuadTree, probes: Seq<Seq<bool>>, s: u32)
    requires
        probes.len() == 9,
    ensures
        shard_at(t, probes[0]) is None ==> near_shards(t, probes).len() == 0,
        shard_at(t, probes[0]) is Some ==> (near_shards(t, probes).contains(s) <==> (shard_at(
            t,
            probes[0],
        ) == Some(s) || exists|i: int| 1 <= i < 9 && shard_at(t, probes[i]) == Some(s))),
{
    if let Some(c) = shard_at(t, probes[0]) {
        let rs = Seq::new(8, |i: int| shard_at(t, probes[i + 1]));
        lemma_add_new_shards_contains(seq![c], rs, s);
        assert(seq![c].contains(s) <==> c == s) by {
            if seq![c].contains(s) {
                let j = choose|j: int| 0 <= j < 1 && seq![c][j] == s;
            }
            if c == s {
                assert(seq![c][0] == s);
            }
        }
        if exists|i: int| 1 <= i < 9 && shard_at(t, probes[i]) == Some(s) {
            let i = choose|i: int| 1 <= i < 9 && shard_at(t, probes[i]) == Some(s);
            assert(rs[i - 1] == Some(s));
        }
        if exists|i: int| 0 <= i < rs.len() && rs[i] == Some(s) {
            let i = choose|i: int| 0 <= i < rs.len() && rs[i] == Some(s);
            assert(shard_at(t, probes[i + 1]) == Some(s));
        }
    }
}

proof fn lemma_repeat_current(c: u32, rs: Seq<Option<u32>>)
    requires
        forall|i: int| 0 <= i < rs.len() ==> rs[i] == Some(c),
    ensures
        add_new_shards(seq![c], rs) == seq![c],
    decreases rs.len(),
{
    if rs.len() > 0 {
        lemma_repeat_current(c, rs.drop_last());
        assert(seq![c].contains(c)) by {
            assert(seq![c][0] == c);
        }
    }
}

/// Probes that all land where the position itself does (a margin of zero)
/// give just the position's shard, or nothing outside every shard.
pub proof fn law_equal_probes_give_own_shard(t: QuadTree, p: Seq<bool>)
    ensures
        near_shards(t, Seq::new(9, |i: int| p)) == (match shard_at(t, p) {
            Some(c) => seq![c],
            None => Seq::<u32>::empty(),
        }),
{
    let probes = Seq::new(9, |i: int| p);
    assert(probes[0] == p);
    let rs = Seq::new(8, |i: int| shard_at(t, probes[i + 1]));
    if let Some(c) = shard_at(t, p) {
        assert forall|i: int| 0 <= i < rs.len() implies rs[i] == Some(c) by {
            assert(probes[i + 1] == p);
        }
        lemma_repeat_current(c, rs);
    }
}

impl QuadTree {
    /// The shard of the leaf containing the point whose rectangle
    /// memberships are `inside`.
    pub fn shard_for(&self, inside: &[bool]) -> (r: Option<u32>)
        ensures
            r == shard_at(*self, inside@),
        decreases *self,
    {
        if !(self.region < inside.len() && inside[self.region]) {
            return None;
        }
        if let Some(id) = self.shard_id {
            return Some(id);
        }
        match &self.children {
            None => None,
            Some(kids) => {
                let mut i: usize = 0;
                assert(kids@.subrange(0, kids@.len() as int) =~= kids@);
                while i < kids.len()
                    invariant
                        i <= kids@.len(),
                        self.children == Some(*kids),
                        shard_at(*self, inside@) == first_shard_in(kids@, inside@),
                        first_shard_in(kids@, inside@) == first_shard_in(
                            kids@.subrange(i as int, kids@.len() as int),
                            inside@,
                        ),
                    decreases kids@.len() - i,
                {
                    proof {
                        let rest = kids@.subrange(i as int, kids@.len() as int);
                        assert(rest[0] == kids@[i as int]);
                        assert(rest.subrange(1, rest.len() as int) =~= kids@.subrange(
                            i + 1,
                            kids@.len() as int,
                        ));
                    }
                    proof {
                        assert(decreases_to!(*self => kids@[i as int]));
                    }
                    let found = kids[i].shard_for(inside);
                    if found.is_some() {
                        return found;
                    }
                    i = i + 1;
                }
                None
            },
        }
    }

    /// The shards within reach of a position: `probes[0]` holds the
    /// rectangle memberships of the position itself, `probes[1..9]` those
    /// of the eight points one margin away (right, left, up, down, up-right,
    /// down-right, up-left, down-left).
    pub fn shards_near(&self, probes: &Vec<Vec<bool>>) -> (r: Vec<u32>)
        requires
            probes@.len() == 9,
        ensures
            r@ == near_shards(*self, probes@.map_values(|p: Vec<bool>| p@)),
            r@.no_duplicates(),
            r@.len() > 0 <==> shard_at(*self, probes@[0]@) is Some,
            r@.len() > 0 ==> shard_at(*self, probes@[0]@) == Some(r@[0]),
            shard_at(*self, probes@[0]@) is Some ==> forall|i: int|
                1 <= i < 9 && #[trigger] shard_at(*self, probes@[i]@) is Some ==> r@.contains(
                    shard_at(*self, probes@[i]@)->Some_0,
                ),
            forall|s: u32| #[trigger]
                r@.contains(s) ==> shard_at(*self, probes@[0]@) == Some(s) || exists|i: int|
                    1 <= i < 9 && #[trigger] shard_at(*self, probes@[i]@) == Some(s),
    {
        let ghost ps = probes@.map_values(|p: Vec<bool>| p@);
        let mut shard_vector: Vec<u32> = Vec::new();
        let current = match self.shard_for(probes[0].as_slice()) {
            Some(c) => c,
            None => {
                return shard_vector;
            },
        };
        shard_vector.push(current);
        let ghost rs = Seq::new(8, |i: int| shard_at(*self, ps[i + 1]));
        assert(rs.subrange(0, 0) =~= Seq::<Option<u32>>::empty());
        let mut i: usize = 1;
        while i < 9
            invariant
                1 <= i <= 9,
                probes@.len() == 9,
                ps == probes@.map_values(|p: Vec<bool>| p@),
                rs == Seq::new(8, |i: int| shard_at(*self, ps[i + 1])),
                shard_vector@ == add_new_shards(seq![current], rs.subrange(0, i - 1)),
            decreases 9 - i,
        {
            let found = self.shard_for(probes[i].as_slice());
            proof {
                assert(rs.subrange(0, i as int).drop_last() =~= rs.subrange(0, i - 1));
                assert(rs.subrange(0, i as int).last() == found);
            }
            if let Some(s) = found {
                if !contains_u32(&shard_vector, s) {
                    shard_vector.push(s);
                }
            }
            proof {
                assert(shard_vector@ =~= add_new_shards(seq![current], rs.subrange(0, i as int)));
            }
            i = i + 1;
        }
        assert(rs.subrange(0, 8) =~= rs);
        proof {
            assert(ps[0] == probes@[0]@);
            assert(seq![current].no_duplicates());
            lemma_add_new_shards(seq![current], rs);
            assert(seq![current][0] == current);
            assert(shard_vector@[0] == current);
            assert forall|i: int| 0 <= i < 9 implies #[trigger] ps[i] == probes@[i]@ by {}
            assert forall|i: int|
                1 <= i < 9 && #[trigger] shard_at(*self, probes@[i]@) is Some implies shard_vector@.contains(
                    shard_at(*self, probes@[i]@)->Some_0,
                ) by {
                assert(ps[i] == probes@[i]@);
                law_near_shards_are_the_probed_shards(*self, ps, shard_at(*self, probes@[i]@)->Some_0);
            }
            assert forall|s: u32| #[trigger] shard_vector@.contains(s) implies shard_at(
                *self,
                probes@[0]@,
            ) == Some(s) || exists|i: int| 1 <= i < 9 && #[trigger] shard_at(*self, probes@[i]@) == Some(s) by {
                law_near_shards_are_the_probed_shards(*self, ps, s);
                if exists|i: int| 1 <= i < 9 && shard_at(*self, ps[i]) == Some(s) {
                    let i = choose|i: int| 1 <= i < 9 && shard_at(*self, ps[i]) == Some(s);
                    assert(ps[i] == probes@[i]@);
                }
            }
        }
        shard_vector
    }
}

} // verus!
