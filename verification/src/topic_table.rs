//! The broker's subscription table: for each topic, the set of connections
//! that subscribed to it. No topic has two entries.

use vstd::prelude::*;
use std::collections::HashSet;
use vstd::std_specs::iter::IteratorSpec;
use crate::keyed::{has_key, key_index, lemma_key_index};

verus! {

/// The connections subscribed to one topic.
pub struct TopicSubscribers {
    pub topic: [u8; 32],
    pub conns: HashSet<u64>,
}

pub open spec fn topics_distinct(es: Seq<TopicSubscribers>) -> bool {
    forall|i: int, j: int|
        0 <= i < j < es.len() ==> (#[trigger] es[i]).topic@ != (#[trigger] es[j]).topic@
}

/// Each entry as a pair of its topic and its connections.
pub open spec fn topic_pairs(es: Seq<TopicSubscribers>) -> Seq<(Seq<u8>, Set<u64>)> {
    es.map_values(|e: TopicSubscribers| (e.topic@, e.conns@))
}

pub open spec fn has_topic(es: Seq<TopicSubscribers>, t: Seq<u8>) -> bool {
    has_key(topic_pairs(es), t)
}

pub open spec fn topic_index(es: Seq<TopicSubscribers>, t: Seq<u8>) -> int {
    key_index(topic_pairs(es), t)
}

/// Topic names and the set of connections subscribed to each.
pub open spec fn table_map(es: Seq<TopicSubscribers>) -> Map<Seq<u8>, Set<u64>> {
    Map::new(|t: Seq<u8>| has_topic(es, t), |t: Seq<u8>| es[topic_index(es, t)].conns@)
}

/// The connections subscribed to `t`; none when the topic is unknown.
pub open spec fn subscribers_of(m: Map<Seq<u8>, Set<u64>>, t: Seq<u8>) -> Set<u64> {
    if m.dom().contains(t) {
        m[t]
    } else {
        Set::empty()
    }
}

/// The first topic, in the order of `es`, whose entry lists `conn`.
pub open spec fn first_topic_with(es: Seq<TopicSubscribers>, conn: u64) -> Option<Seq<u8>>
    decreases es.len(),
{
    if es.len() == 0 {
        None
    } else if es[0].conns@.contains(conn) {
        Some(es[0].topic@)
    } else {
        first_topic_with(es.subrange(1, es.len() as int), conn)
    }
}

/// The table after `conn` subscribes to `t`.
pub open spec fn subscribe_effect(m: Map<Seq<u8>, Set<u64>>, t: Seq<u8>, conn: u64) -> Map<
    Seq<u8>,
    Set<u64>,
> {
    m.insert(t, subscribers_of(m, t).insert(conn))
}

/// The table after `conn` unsubscribes from `t`: a topic left without
/// subscribers disappears.
pub open spec fn unsubscribe_effect(m: Map<Seq<u8>, Set<u64>>, t: Seq<u8>, conn: u64) -> Map<
    Seq<u8>,
    Set<u64>,
> {
    if m.dom().contains(t) {
        let rest = m[t].remove(conn);
        if rest.is_empty() {
            m.remove(t)
        } else {
            m.insert(t, rest)
        }
    } else {
        m
    }
}

/// The table after `conn` is dropped from every topic; topics stay, even
/// when left empty.
pub open spec fn drop_conn_effect(m: Map<Seq<u8>, Set<u64>>, conn: u64) -> Map<Seq<u8>, Set<u64>> {
    Map::new(|t: Seq<u8>| m.dom().contains(t), |t: Seq<u8>| m[t].remove(conn))
}

proof fn lemma_index_unique(es: Seq<TopicSubscribers>, t: Seq<u8>, i: int)
    requires
        topics_distinct(es),
        0 <= i < es.len(),
        es[i].topic@ == t,
    ensures
        has_topic(es, t),
        topic_index(es, t) == i,
        table_map(es).dom().contains(t),
        table_map(es)[t] == es[i].conns@,
{
    let ps = topic_pairs(es);
    assert forall|a: int, b: int| 0 <= a < b < ps.len() implies #[trigger] ps[a].0
        != #[trigger] ps[b].0 by {
        assert(es[a].topic@ != es[b].topic@);
    }
    assert(ps[i].0 == t);
    lemma_key_index(ps, t, i);
}

proof fn lemma_table_update(es: Seq<TopicSubscribers>, i: int, e: TopicSubscribers)
    requires
        topics_distinct(es),
        0 <= i < es.len(),
        e.topic@ == es[i].topic@,
    ensures
        topics_distinct(es.update(i, e)),
        table_map(es.update(i, e)) == table_map(es).insert(e.topic@, e.conns@),
{
    let es2 = es.update(i, e);
    let t = e.topic@;
    assert forall|a: int, b: int| 0 <= a < b < es2.len() implies (#[trigger] es2[a]).topic@ != (
    #[trigger] es2[b]).topic@ by {
        assert(es[a].topic@ != es[b].topic@);
    }
    lemma_index_unique(es2, t, i);
    assert forall|t2: Seq<u8>| t2 != t implies (has_topic(es, t2) == has_topic(es2, t2) && (
    has_topic(es, t2) ==> table_map(es)[t2] == table_map(es2)[t2])) by {
        if has_topic(es, t2) {
            let j = topic_index(es, t2);
            lemma_index_unique(es, t2, j);
            lemma_index_unique(es2, t2, j);
        }
        if has_topic(es2, t2) {
            let j = topic_index(es2, t2);
            assert(topic_pairs(es)[j].0 == t2);
        }
    }
    assert(table_map(es2) =~= table_map(es).insert(t, e.conns@));
}

proof fn lemma_table_remove(es: Seq<TopicSubscribers>, i: int)
    requires
        topics_distinct(es),
        0 <= i < es.len(),
    ensures
        topics_distinct(es.remove(i)),
        table_map(es.remove(i)) == table_map(es).remove(es[i].topic@),
{
    let es2 = es.remove(i);
    let t = es[i].topic@;
    assert forall|a: int, b: int| 0 <= a < b < es2.len() implies (#[trigger] es2[a]).topic@ != (
    #[trigger] es2[b]).topic@ by {
        let oa = if a < i { a } else { a + 1 };
        let ob = if b < i { b } else { b + 1 };
        assert(es[oa].topic@ != es[ob].topic@);
    }
    assert(!has_topic(es2, t)) by {
        if has_topic(es2, t) {
            let j = topic_index(es2, t);
            let oj = if j < i { j } else { j + 1 };
            assert(es[oj].topic@ == t);
            if oj < i {
                assert(es[oj].topic@ != es[i].topic@);
            } else {
                assert(es[i].topic@ != es[oj].topic@);
            }
        }
    }
    assert forall|t2: Seq<u8>| t2 != t implies (has_topic(es, t2) == has_topic(es2, t2) && (
    has_topic(es, t2) ==> table_map(es)[t2] == table_map(es2)[t2])) by {
        if has_topic(es, t2) {
            let j = topic_index(es, t2);
            lemma_index_unique(es, t2, j);
            assert(j != i);
            let nj = if j < i { j } else { j - 1 };
            assert(es2[nj] == es[j]);
            lemma_index_unique(es2, t2, nj);
        }
        if has_topic(es2, t2) {
            let j = topic_index(es2, t2);
            let oj = if j < i { j } else { j + 1 };
            assert(topic_pairs(es)[oj].0 == t2);
        }
    }
    assert(table_map(es2) =~= table_map(es).remove(t));
}

proof fn lemma_table_push(es: Seq<TopicSubscribers>, e: TopicSubscribers)
    requires
        topics_distinct(es),
        !has_topic(es, e.topic@),
    ensures
        topics_distinct(es.push(e)),
        table_map(es.push(e)) == table_map(es).insert(e.topic@, e.conns@),
{
    let es2 = es.push(e);
    let t = e.topic@;
    assert forall|a: int, b: int| 0 <= a < b < es2.len() implies (#[trigger] es2[a]).topic@ != (
    #[trigger] es2[b]).topic@ by {
        if b < es.len() {
            assert(es[a].topic@ != es[b].topic@);
        } else {
            assert(es2[a] == es[a]);
            assert(topic_pairs(es)[a].0 == es[a].topic@);
        }
    }
    lemma_index_unique(es2, t, es.len() as int);
    assert forall|t2: Seq<u8>| t2 != t implies (has_topic(es, t2) == has_topic(es2, t2) && (
    has_topic(es, t2) ==> table_map(es)[t2] == table_map(es2)[t2])) by {
        if has_topic(es, t2) {
            let j = topic_index(es, t2);
            lemma_index_unique(es, t2, j);
            assert(es2[j] == es[j]);
            lemma_index_unique(es2, t2, j);
        }
        if has_topic(es2, t2) {
            let j = topic_index(es2, t2);
            assert(j < es.len());
            assert(topic_pairs(es)[j].0 == t2);
        }
    }
    assert(table_map(es2) =~= table_map(es).insert(t, e.conns@));
}

/// Compares two topic names byte by byte.
pub fn topics_equal(a: &[u8; 32], b: &[u8; 32]) -> (r: bool)
    ensures
        r == (a@ == b@),
{
    let mut i: usize = 0;
    while i < 32
        invariant
            i <= 32,
            forall|j: int| 0 <= j < i ==> a@[j] == b@[j],
        decreases 32 - i,
    {
        if a[i] != b[i] {
            return false;
        }
        i = i + 1;
    }
    assert(a@ =~= b@);
    true
}

/// The connections of `s`, each listed once.
fn conn_list(s: &HashSet<u64>) -> (r: Vec<u64>)
    ensures
        r@.no_duplicates(),
        r@.to_set() == s@,
{
    let mut r: Vec<u64> = Vec::new();
    proof {
        let items = s.iter().remaining();
        assert forall|y: u64| #[trigger] s@.contains(y) implies exists|j: int|
            0 <= j < items.len() && *items[j] == y by {
            assert(items.unref().contains(y));
            let j = choose|j: int| 0 <= j < items.unref().len() && items.unref()[j] == y;
            assert(*items[j] == y);
        }
        assert forall|j: int| 0 <= j < items.len() implies s@.contains(#[trigger] *items[j]) by {
            assert(items.unref()[j] == *items[j]);
            assert(items.unref().contains(*items[j]));
        }
    }
    for x in it: s.iter()
        invariant
            it.seq().no_duplicates(),
            forall|y: u64| #[trigger] s@.contains(y) <==> exists|j: int|
                0 <= j < it.seq().len() && *it.seq()[j] == y,
            r@.no_duplicates(),
            r@.len() == it.index(),
            forall|j: int| 0 <= j < it.index() ==> r@[j] == *it.seq()[j],
            forall|y: u64| #[trigger] r@.contains(y) <==> exists|j: int|
                0 <= j < it.index() && *it.seq()[j] == y,
    {
        let ghost before = r@;
        let ghost k = it.index() as int;
        assert(*it.seq()[k] == *x);
        r.push(*x);
        proof {
            assert forall|a: int, b: int| 0 <= a < r@.len() && 0 <= b < r@.len() && a != b implies r@[a]
                != r@[b] by {
                if a < k && b < k {
                    assert(before[a] != before[b]);
                } else if a < k {
                    assert(it.seq()[a] != it.seq()[k]);
                } else if b < k {
                    assert(it.seq()[b] != it.seq()[k]);
                }
            }
            assert forall|y: u64| #[trigger] r@.contains(y) <==> exists|j: int|
                0 <= j < k + 1 && *it.seq()[j] == y by {
                if r@.contains(y) {
                    let j = choose|j: int| 0 <= j < r@.len() && r@[j] == y;
                    assert(*it.seq()[j] == y);
                }
                if exists|j: int| 0 <= j < k + 1 && *it.seq()[j] == y {
                    let j = choose|j: int| 0 <= j < k + 1 && *it.seq()[j] == y;
                    assert(r@[j] == y);
                }
            }
        }
    }
    assert(r@.to_set() =~= s@);
    r
}

/// The subscription table of the broker. Entries are kept in a vector with
/// distinct topics rather than in a `HashMap`: vstd specifies hash maps
/// only for keys of integer, `bool` or boxed primitive type, and a topic is
/// a 32-byte array.
pub struct TopicTable {
    entries: Vec<TopicSubscribers>,
}

impl TopicTable {
    #[verifier::type_invariant]
    closed spec fn well_formed(self) -> bool {
        topics_distinct(self.entries@)
    }

    /// Each topic and the connections subscribed to it.
    pub closed spec fn map(self) -> Map<Seq<u8>, Set<u64>> {
        table_map(self.entries@)
    }

    /// The first topic, in the table's order, that lists `conn`.
    pub closed spec fn first_topic_of(self, conn: u64) -> Option<Seq<u8>> {
        first_topic_with(self.entries@, conn)
    }

    /// A table with no topic.
    pub fn new() -> (t: Self)
        ensures
            t.map() == Map::<Seq<u8>, Set<u64>>::empty(),
    {
        let t = TopicTable { entries: Vec::new() };
        assert(t.map() =~= Map::<Seq<u8>, Set<u64>>::empty());
        t
    }

    /// The connections subscribed to `topic`, each once.
    pub fn subscribers(&self, topic: &[u8; 32]) -> (r: Vec<u64>)
        ensures
            r@.no_duplicates(),
            r@.to_set() == subscribers_of(self.map(), topic@),
    {
        proof {
            use_type_invariant(self);
        }
        match self.find_in(&self.entries, topic) {
            Some(i) => {
                proof {
                    lemma_index_unique(self.entries@, topic@, i as int);
                }
                conn_list(&self.entries[i].conns)
            },
            None => {
                let r: Vec<u64> = Vec::new();
                assert(r@.to_set() =~= Set::<u64>::empty());
                r
            },
        }
    }

    /// Subscribes `conn` to `topic`.
    pub fn subscribe(&mut self, topic: [u8; 32], conn: u64)
        ensures
            final(self).map() == subscribe_effect(old(self).map(), topic@, conn),
    {
        proof {
            use_type_invariant(&*self);
        }
        let ghost es = self.entries@;
        let mut entries: Vec<TopicSubscribers> = Vec::new();
        std::mem::swap(&mut entries, &mut self.entries);
        match self.find_in(&entries, &topic) {
            Some(i) => {
                proof {
                    lemma_index_unique(es, topic@, i as int);
                }
                let mut e = entries.remove(i);
                e.conns.insert(conn);
                entries.insert(i, e);
                proof {
                    assert(entries@ =~= es.update(i as int, e));
                    lemma_table_update(es, i as int, e);
                }
                self.entries = entries;
            },
            None => {
                let mut conns: HashSet<u64> = HashSet::new();
                conns.insert(conn);
                let e = TopicSubscribers { topic, conns };
                entries.push(e);
                proof {
                    lemma_table_push(es, e);
                    assert(e.conns@ =~= Set::<u64>::empty().insert(conn));
                }
                self.entries = entries;
            },
        }
    }

    fn find_in(&self, entries: &Vec<TopicSubscribers>, topic: &[u8; 32]) -> (r: Option<usize>)
        ensures
            r matches Some(i) ==> i < entries@.len() && entries@[i as int].topic@ == topic@,
            r is None ==> !has_topic(entries@, topic@),
    {
        let mut i: usize = 0;
        while i < entries.len()
            invariant
                i <= entries@.len(),
                forall|j: int| 0 <= j < i ==> (#[trigger] entries@[j]).topic@ != topic@,
            decreases entries@.len() - i,
        {
            if topics_equal(&entries[i].topic, topic) {
                return Some(i);
            }
            i = i + 1;
        }
        None
    }

    /// Unsubscribes `conn` from `topic`; a topic left with no subscriber is
    /// dropped from the table.
    pub fn unsubscribe(&mut self, topic: &[u8; 32], conn: u64)
        ensures
            final(self).map() == unsubscribe_effect(old(self).map(), topic@, conn),
    {
        proof {
            use_type_invariant(&*self);
        }
        let ghost es = self.entries@;
        let mut entries: Vec<TopicSubscribers> = Vec::new();
        std::mem::swap(&mut entries, &mut self.entries);
        match self.find_in(&entries, topic) {
            Some(i) => {
                proof {
                    lemma_index_unique(es, topic@, i as int);
                }
                let mut e = entries.remove(i);
                e.conns.remove(&conn);
                if e.conns.is_empty() {
                    proof {
                        assert(entries@ =~= es.remove(i as int));
                        lemma_table_remove(es, i as int);
                    }
                    self.entries = entries;
                } else {
                    entries.insert(i, e);
                    proof {
                        assert(entries@ =~= es.update(i as int, e));
                        lemma_table_update(es, i as int, e);
                    }
                    self.entries = entries;
                }
            },
            None => {
                self.entries = entries;
            },
        }
    }

    /// Removes `conn` from every topic; topics are kept even when left empty.
    pub fn remove_conn(&mut self, conn: u64)
        ensures
            final(self).map() == drop_conn_effect(old(self).map(), conn),
    {
        proof {
            use_type_invariant(&*self);
        }
        let ghost es = self.entries@;
        let mut entries: Vec<TopicSubscribers> = Vec::new();
        std::mem::swap(&mut entries, &mut self.entries);
        let mut i: usize = 0;
        while i < entries.len()
            invariant
                i <= entries@.len(),
                entries@.len() == es.len(),
                topics_distinct(es),
                topics_distinct(entries@),
                forall|j: int| 0 <= j < es.len() ==> (#[trigger] entries@[j]).topic@ == es[j].topic@,
                forall|j: int|
                    0 <= j < i ==> (#[trigger] entries@[j]).conns@ == es[j].conns@.remove(
                        conn,
                    ),
                forall|j: int| i <= j < es.len() ==> #[trigger] entries@[j] == es[j],
            decreases es.len() - i,
        {
            let ghost before = entries@;
            let mut e = entries.remove(i);
            e.conns.remove(&conn);
            entries.insert(i, e);
            proof {
                assert(entries@ =~= before.update(i as int, e));
                assert forall|a: int, b: int| 0 <= a < b < entries@.len() implies (
                #[trigger] entries@[a]).topic@ != (#[trigger] entries@[b]).topic@ by {
                    assert(es[a].topic@ != es[b].topic@);
                }
            }
            i = i + 1;
        }
        proof {
            assert forall|t: Seq<u8>| has_topic(es, t) == has_topic(entries@, t) by {
                if has_topic(es, t) {
                    let j = topic_index(es, t);
                    assert(topic_pairs(entries@)[j].0 == t);
                }
                if has_topic(entries@, t) {
                    let j = topic_index(entries@, t);
                    assert(topic_pairs(es)[j].0 == t);
                }
            }
            assert(table_map(entries@).dom() =~= table_map(es).dom());
            assert forall|t: Seq<u8>| #[trigger]
                table_map(entries@).dom().contains(t) implies table_map(entries@)[t] == table_map(
                es,
            )[t].remove(conn) by {
                let j = topic_index(entries@, t);
                lemma_index_unique(entries@, t, j);
                lemma_index_unique(es, t, j);
            }
            assert(table_map(entries@) =~= drop_conn_effect(table_map(es), conn));
        }
        self.entries = entries;
    }

    /// The first topic, in the table's order, that `conn` is subscribed
    /// to, if there is one.
    pub fn topic_of(&self, conn: u64) -> (r: Option<[u8; 32]>)
        ensures
            r matches Some(t) ==> self.map().dom().contains(t@) && self.map()[t@].contains(conn)
                && self.first_topic_of(conn) == Some(t@),
            r is None ==> self.first_topic_of(conn) is None && forall|t: Seq<u8>| #[trigger]
                self.map().dom().contains(t) ==> !self.map()[t].contains(conn),
    {
        proof {
            use_type_invariant(self);
        }
        let ghost es = self.entries@;
        let mut i: usize = 0;
        assert(es.subrange(0, es.len() as int) =~= es);
        while i < self.entries.len()
            invariant
                i <= self.entries@.len(),
                es == self.entries@,
                first_topic_with(es, conn) == first_topic_with(es.subrange(i as int, es.len() as int), conn),
                topics_distinct(self.entries@),
                forall|j: int| 0 <= j < i ==> !(#[trigger] self.entries@[j]).conns@.contains(conn),
            decreases self.entries@.len() - i,
        {
            proof {
                let rest = es.subrange(i as int, es.len() as int);
                assert(rest[0] == es[i as int]);
                assert(rest.subrange(1, rest.len() as int) =~= es.subrange(i + 1, es.len() as int));
            }
            if self.entries[i].conns.contains(&conn) {
                proof {
                    lemma_index_unique(self.entries@, self.entries@[i as int].topic@, i as int);
                    assert(self.entries@[i as int].conns@.contains(conn));
                }
                return Some(self.entries[i].topic);
            }
            i = i + 1;
        }
        proof {
            assert forall|t: Seq<u8>| #[trigger]
                self.map().dom().contains(t) implies !self.map()[t].contains(conn) by {
                let j = topic_index(self.entries@, t);
                lemma_index_unique(self.entries@, t, j);
            }
            assert(es.subrange(es.len() as int, es.len() as int) =~= Seq::<TopicSubscribers>::empty());
        }
        None
    }
}

} // verus!
