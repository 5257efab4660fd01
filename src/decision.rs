//! The decision engine: correlates a packet with a live connection and
//! resolves its verdict from the cache or from a person's answer.
use vstd::prelude::*;
use crate::address::Ipv4Address;
use crate::packet::{ipv4_addresses_of, ipv4_header};
use crate::process_mon::Process;
use crate::state::{lemma_added_verdict_found, lookup, next_count, Entry, State, Verdict};
use crate::text::chars_of;

verus! {

/// What a packet calls for once its addresses are known.
#[derive(PartialEq, Eq, Structural, Clone, Copy, Debug)]
pub enum Decision {
    /// No live connection runs between its addresses: no verdict is given.
    NoConnection,
    /// The owning process and destination were decided before.
    Cached(Verdict),
    /// A person must be asked about the connection at this index.
    Ask(usize),
}

/// The records of a snapshot of connections.
pub open spec fn records(ps: Seq<Process>) -> Seq<(Seq<char>, Seq<char>, Ipv4Address, Ipv4Address)> {
    ps.map_values(|p: Process| p@)
}

/// The first index from `i` on of a record from `from` to `to`.
pub open spec fn first_match(
    ps: Seq<(Seq<char>, Seq<char>, Ipv4Address, Ipv4Address)>,
    i: int,
    from: Ipv4Address,
    to: Ipv4Address,
) -> Option<int>
    decreases ps.len() - i,
{
    if 0 <= i < ps.len() {
        if ps[i].2 == from && ps[i].3 == to {
            Some(i)
        } else {
            first_match(ps, i + 1, from, to)
        }
    } else {
        None
    }
}

/// The decision for a packet from `from` to `to`, given the cache `db` and
/// a snapshot `ps` of live connections.
pub open spec fn decision_of(
    db: Seq<Entry>,
    ps: Seq<(Seq<char>, Seq<char>, Ipv4Address, Ipv4Address)>,
    from: Ipv4Address,
    to: Ipv4Address,
) -> Decision {
    match first_match(ps, 0, from, to) {
        None => Decision::NoConnection,
        Some(i) => match lookup(db, ps[i].1, to) {
            Some(v) => Decision::Cached(v),
            None => Decision::Ask(i as usize),
        },
    }
}

/// The verdict that an answer gives: only `y` accepts.
pub open spec fn verdict_of_answer(answer: Seq<char>) -> Verdict {
    if answer == seq!['y'] {
        Verdict::Accept
    } else {
        Verdict::Drop
    }
}

/// The index of the first connection from `source` to `destination`.
pub fn find_connection(processes: &Vec<Process>, source: &Ipv4Address, destination: &Ipv4Address) -> (r: Option<usize>)
    ensures
        match r {
            Some(i) => i < processes@.len() && first_match(records(processes@), 0, *source, *destination)
                == Some(i as int),
            None => first_match(records(processes@), 0, *source, *destination) is None,
        },
{
    let mut i: usize = 0;
    while i < processes.len()
        invariant
            i <= processes@.len(),
            first_match(records(processes@), 0, *source, *destination) == first_match(
                records(processes@),
                i as int,
                *source,
                *destination,
            ),
        decreases processes@.len() - i,
    {
        if processes[i].matches(source, destination) {
            return Some(i);
        }
        i = i + 1;
    }
    None
}

impl State {
    /// The decision for a packet from `source` to `destination`, given a
    /// snapshot of live connections. Nothing changes.
    pub fn decide(&self, processes: &Vec<Process>, source: &Ipv4Address, destination: &Ipv4Address) -> (r: Decision)
        ensures
            r == decision_of(self.entries(), records(processes@), *source, *destination),
    {
        match find_connection(processes, source, destination) {
            None => Decision::NoConnection,
            Some(i) => match self.get_verdict(processes[i].process.as_str(), destination) {
                Some(v) => Decision::Cached(v),
                None => Decision::Ask(i),
            },
        }
    }

    /// Handles one intercepted packet: counts it, reads the addresses of its
    /// IPv4 header and decides on it. A payload whose version field is not 4,
    /// or that is shorter than the 20-byte fixed header, gives `None`. The
    /// cache never changes here.
    pub fn on_packet(&mut self, payload: &[u8], processes: &Vec<Process>) -> (r: Option<(Ipv4Address, Ipv4Address, Decision)>)
        ensures
            final(self).packets() == next_count(old(self).packets()),
            final(self).entries() == old(self).entries(),
            r == match ipv4_addresses_of(payload@) {
                Some((s, d)) => Some((s, d, decision_of(old(self).entries(), records(processes@), s, d))),
                None => None,
            },
    {
        self.increment();
        if payload.len() < 1 || payload[0] / 16 != 4 {
            return None;
        }
        match ipv4_header(payload) {
            None => None,
            Some((s, d)) => Some((s, d, self.decide(processes, &s, &d))),
        }
    }

    /// Records a person's answer for a process and destination: `y` accepts,
    /// anything else drops. The verdict is cached and returned.
    pub fn record_answer(&mut self, process_name: &str, destination: Ipv4Address, answer: &str) -> (r: Verdict)
        ensures
            r == verdict_of_answer(answer@),
            final(self).entries() == old(self).entries().push((process_name@, destination, r)),
            final(self).packets() == old(self).packets(),
    {
        let a = chars_of(answer);
        let v = if a.len() == 1 && a[0] == 'y' {
            assert(a@ =~= seq!['y']);
            Verdict::Accept
        } else {
            Verdict::Drop
        };
        self.add_connection(process_name, destination, v);
        v
    }
}

/// Once a person's verdict is cached for the process that owns a packet's
/// connection, the same packet on the same snapshot is decided from the
/// cache with that verdict, without asking again.
pub proof fn lemma_answer_then_cached(
    db: Seq<Entry>,
    ps: Seq<(Seq<char>, Seq<char>, Ipv4Address, Ipv4Address)>,
    from: Ipv4Address,
    to: Ipv4Address,
    k: int,
    v: Verdict,
)
    requires
        first_match(ps, 0, from, to) == Some(k),
        lookup(db, ps[k].1, to) is None,
    ensures
        decision_of(db, ps, from, to) == Decision::Ask(k as usize),
        decision_of(db.push((ps[k].1, to, v)), ps, from, to) == Decision::Cached(v),
{
    lemma_added_verdict_found(db, ps[k].1, to, v);
}

} // verus!
