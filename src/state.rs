//! The verdict cache and the decisions taken on each intercepted packet.
use vstd::prelude::*;
use crate::address::Ipv4Address;
use crate::text::{chars_equal, chars_of};

verus! {

/// What is done with a packet.
#[derive(PartialEq, Eq, Structural, Clone, Copy, Debug)]
pub enum Verdict {
    Accept,
    Drop,
}

/// One remembered decision: process name, destination, verdict.
pub type Entry = (Seq<char>, Ipv4Address, Verdict);

/// The verdict of the first entry for `name` and `to`, if there is one.
pub open spec fn lookup(db: Seq<Entry>, name: Seq<char>, to: Ipv4Address) -> Option<Verdict>
    decreases db.len(),
{
    if db.len() == 0 {
        None
    } else {
        let earlier = lookup(db.drop_last(), name, to);
        if earlier is Some {
            earlier
        } else if db.last().0 == name && db.last().1 == to {
            Some(db.last().2)
        } else {
            None
        }
    }
}

/// The count after one more packet: it stops at the largest `u32`.
pub open spec fn next_count(c: u32) -> u32 {
    if c < u32::MAX {
        (c + 1) as u32
    } else {
        c
    }
}

struct Connection {
    process_name: Vec<char>,
    to: Ipv4Address,
    verdict: Verdict,
}

/// The state that lives across packets: a count of the packets seen and the
/// cache of verdicts, which only grows.
pub struct State {
    count: u32,
    connection_db: Vec<Connection>,
}

impl State {
    /// The entries of the cache, oldest first.
    pub closed spec fn entries(&self) -> Seq<Entry> {
        self.connection_db@.map_values(|c: Connection| (c.process_name@, c.to, c.verdict))
    }

    /// The number of packets seen.
    pub closed spec fn packets(&self) -> u32 {
        self.count
    }

    pub fn new() -> (r: State)
        ensures
            r.packets() == 0,
            r.entries() == Seq::<Entry>::empty(),
    {
        let r = State { count: 0, connection_db: Vec::new() };
        assert(r.entries() =~= Seq::<Entry>::empty());
        r
    }

    /// Counts one more packet.
    pub fn increment(&mut self)
        ensures
            final(self).packets() == next_count(old(self).packets()),
            final(self).entries() == old(self).entries(),
    {
        if self.count < u32::MAX {
            self.count = self.count + 1;
        }
    }

    /// The number of packets seen.
    pub fn count(&self) -> (r: u32)
        ensures
            r == self.packets(),
    {
        self.count
    }

    /// Appends a decision to the cache; an earlier one for the same pair is
    /// kept and still wins.
    pub fn add_connection(&mut self, process_name: &str, to: Ipv4Address, verdict: Verdict)
        ensures
            final(self).entries() == old(self).entries().push((process_name@, to, verdict)),
            final(self).packets() == old(self).packets(),
    {
        let name = chars_of(process_name);
        self.connection_db.push(Connection { process_name: name, to, verdict });
        assert(self.entries() =~= old(self).entries().push((process_name@, to, verdict)));
    }

    /// The verdict of the first cached decision for this process and
    /// destination.
    pub fn get_verdict(&self, process_name: &str, to: &Ipv4Address) -> (r: Option<Verdict>)
        ensures
            r == lookup(self.entries(), process_name@, *to),
    {
        let name = chars_of(process_name);
        let mut r: Option<Verdict> = None;
        let mut i: usize = 0;
        while i < self.connection_db.len()
            invariant
                i <= self.entries().len(),
                name@ == process_name@,
                r == lookup(self.entries().subrange(0, i as int), process_name@, *to),
            decreases self.entries().len() - i,
        {
            let conn = &self.connection_db[i];
            assert(self.entries().subrange(0, i + 1).drop_last() =~= self.entries().subrange(
                0,
                i as int,
            ));
            if r.is_none() && chars_equal(&conn.process_name, &name) && conn.to == *to {
                r = Some(conn.verdict);
            }
            i = i + 1;
        }
        assert(self.entries().subrange(0, i as int) =~= self.entries());
        r
    }
}

/// Right after a decision is added for a pair that had none, looking the
/// pair up gives that decision.
pub proof fn lemma_added_verdict_found(db: Seq<Entry>, name: Seq<char>, to: Ipv4Address, v: Verdict)
    requires
        lookup(db, name, to) is None,
    ensures
        lookup(db.push((name, to, v)), name, to) == Some(v),
{
    assert(db.push((name, to, v)).drop_last() =~= db);
}

/// A decision added for a pair that already had one changes nothing that a
/// lookup of any pair sees.
pub proof fn lemma_earlier_verdict_wins(db: Seq<Entry>, name: Seq<char>, to: Ipv4Address, v: Verdict)
    requires
        lookup(db, name, to) is Some,
    ensures
        lookup(db.push((name, to, v)), name, to) == lookup(db, name, to),
{
    assert(db.push((name, to, v)).drop_last() =~= db);
}

/// Looking up a pair for which no decision was ever added finds nothing.
pub proof fn lemma_absent_pair_not_found(db: Seq<Entry>, name: Seq<char>, to: Ipv4Address)
    requires
        forall|i: int| 0 <= i < db.len() ==> !(#[trigger] db[i].0 == name && db[i].1 == to),
    ensures
        lookup(db, name, to) is None,
    decreases db.len(),
{
    if db.len() > 0 {
        lemma_absent_pair_not_found(db.drop_last(), name, to);
    }
}

} // verus!
