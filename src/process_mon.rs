//! Parsing of the socket table: each line that names an owning process and
//! an IPv4 address pair becomes a connection record.
use vstd::prelude::*;
use crate::address::{Ipv4Address, ipv4_of, ipv4_from_chars};
use crate::text::{
    chars_of, digit_run, digit_run_at, is_word_char, occurs_at, word_char,
    occurs_at_pos, slice_of, string_of,
};

verus! {

/// End of `n` dot-separated groups of one to three digits that start at `i`.
pub open spec fn groups_end(l: Seq<char>, i: int, n: nat) -> Option<int>
    decreases n,
{
    let k = digit_run(l, i);
    if k < 1 || k > 3 {
        None
    } else if n <= 1 {
        Some(i + k)
    } else if i + k < l.len() && l[i + k] == '.' {
        groups_end(l, i + k + 1, (n - 1) as nat)
    } else {
        None
    }
}

/// Position just past the port of the endpoint whose host ends at `e`.
pub open spec fn port_end(l: Seq<char>, e: int) -> int {
    e + 1 + digit_run(l, e + 1)
}

/// Whether an endpoint `d.d.d.d:port`, each `d` one to three digits and
/// the port one digit or more, starts at `i`, wherever it stands.
pub open spec fn endpoint_at(l: Seq<char>, i: int) -> bool {
    &&& 0 <= i < l.len()
    &&& match groups_end(l, i, 4) {
        Some(e) => {
            &&& e < l.len()
            &&& l[e] == ':'
            &&& digit_run(l, e + 1) >= 1
        },
        None => false,
    }
}

/// The first position from `i` on where an endpoint starts.
pub open spec fn first_endpoint(l: Seq<char>, i: int) -> Option<int>
    decreases l.len() - i,
{
    if 0 <= i < l.len() {
        if endpoint_at(l, i) {
            Some(i)
        } else {
            first_endpoint(l, i + 1)
        }
    } else {
        None
    }
}

/// The host part of the endpoint at `i`.
pub open spec fn endpoint_host(l: Seq<char>, i: int) -> Seq<char> {
    l.subrange(i, groups_end(l, i, 4)->0)
}

/// Position just past the endpoint at `i`.
pub open spec fn endpoint_stop(l: Seq<char>, i: int) -> int {
    port_end(l, groups_end(l, i, 4)->0)
}

/// The hosts of the first two non-overlapping endpoints of a line: local, then remote.
pub open spec fn addresses_of(l: Seq<char>) -> Option<(Seq<char>, Seq<char>)> {
    match first_endpoint(l, 0) {
        Some(i) => match first_endpoint(l, endpoint_stop(l, i)) {
            Some(j) => Some((endpoint_host(l, i), endpoint_host(l, j))),
            None => None,
        },
        None => None,
    }
}

pub open spec fn pid_marker() -> Seq<char> {
    seq!['p', 'i', 'd', '=']
}

/// Whether `pid=` followed by a digit occurs at `i`.
pub open spec fn pid_at(l: Seq<char>, i: int) -> bool {
    occurs_at(l, i, pid_marker()) && digit_run(l, i + 4) >= 1
}

pub open spec fn first_pid(l: Seq<char>, i: int) -> Option<int>
    decreases l.len() - i,
{
    if 0 <= i < l.len() {
        if pid_at(l, i) {
            Some(i)
        } else {
            first_pid(l, i + 1)
        }
    } else {
        None
    }
}

/// The digits after the first `pid=` that has any.
pub open spec fn pid_of(l: Seq<char>) -> Option<Seq<char>> {
    match first_pid(l, 0) {
        Some(i) => Some(l.subrange(i + 4, i + 4 + digit_run(l, i + 4))),
        None => None,
    }
}

pub open spec fn users_marker() -> Seq<char> {
    seq!['u', 's', 'e', 'r', 's', ':', '(', '(', '"']
}

/// A character a process name may hold: a Unicode word character, `-`
/// or `+`.
pub open spec fn is_name_char(c: char) -> bool {
    word_char(c) || c == '-' || c == '+'
}

/// Length of the run of name characters that starts at `i`.
pub open spec fn name_run(l: Seq<char>, i: int) -> nat
    decreases l.len() - i,
{
    if 0 <= i < l.len() && is_name_char(l[i]) {
        1 + name_run(l, i + 1)
    } else {
        0
    }
}

/// Whether `users:(("` followed by a non-empty run of name characters and
/// a closing quote occurs at `i`.
pub open spec fn name_at(l: Seq<char>, i: int) -> bool {
    &&& occurs_at(l, i, users_marker())
    &&& name_run(l, i + 9) >= 1
    &&& i + 9 + name_run(l, i + 9) < l.len()
    &&& l[i + 9 + name_run(l, i + 9)] == '"'
}

pub open spec fn first_name(l: Seq<char>, i: int) -> Option<int>
    decreases l.len() - i,
{
    if 0 <= i < l.len() {
        if name_at(l, i) {
            Some(i)
        } else {
            first_name(l, i + 1)
        }
    } else {
        None
    }
}

/// The quoted process name after the first `users:((` that is followed by
/// one made of name characters alone.
pub open spec fn name_of(l: Seq<char>) -> Option<Seq<char>> {
    match first_name(l, 0) {
        Some(i) => Some(l.subrange(i + 9, i + 9 + name_run(l, i + 9))),
        None => None,
    }
}

/// The record a line describes: pid, process name, local and remote
/// address. A line that lacks any of them describes none.
pub open spec fn record_of(l: Seq<char>) -> Option<(Seq<char>, Seq<char>, Ipv4Address, Ipv4Address)> {
    match (addresses_of(l), pid_of(l), name_of(l)) {
        (Some((f, t)), Some(p), Some(n)) => match (ipv4_of(f), ipv4_of(t)) {
            (Some(a), Some(b)) => Some((p, n, a, b)),
            _ => None,
        },
        _ => None,
    }
}

proof fn lemma_groups_end_after(l: Seq<char>, i: int, n: nat)
    requires
        groups_end(l, i, n) is Some,
    ensures
        groups_end(l, i, n)->0 > i,
    decreases n,
{
    let k = digit_run(l, i);
    if n > 1 {
        lemma_groups_end_after(l, i + k + 1, (n - 1) as nat);
    }
}

fn groups_end_at(l: &Vec<char>, i: usize, n: usize) -> (r: Option<usize>)
    requires
        i <= l@.len(),
        1 <= n,
    ensures
        match r {
            Some(e) => groups_end(l@, i as int, n as nat) == Some(e as int) && e <= l@.len(),
            None => groups_end(l@, i as int, n as nat) is None,
        },
    decreases n,
{
    let len: usize = l.len();
    let k = digit_run_at(l, i);
    if k < 1 || k > 3 {
        None
    } else if n == 1 {
        Some(i + k)
    } else if i + k < len && l[i + k] == '.' {
        groups_end_at(l, i + k + 1, n - 1)
    } else {
        None
    }
}

/// Where the endpoint at `i` ends its host and ends, if one is there.
fn endpoint_at_pos(l: &Vec<char>, i: usize) -> (r: Option<(usize, usize)>)
    requires
        i <= l@.len(),
    ensures
        r is Some <==> endpoint_at(l@, i as int),
        r matches Some((e, p)) ==> {
            &&& e == groups_end(l@, i as int, 4)->0
            &&& p == endpoint_stop(l@, i as int)
            &&& i < e < p <= l@.len()
        },
{
    let len: usize = l.len();
    if i >= len {
        return None;
    }
    match groups_end_at(l, i, 4) {
        None => None,
        Some(e) => {
            proof {
                lemma_groups_end_after(l@, i as int, 4);
            }
            if e < len && l[e] == ':' {
                let k = digit_run_at(l, e + 1);
                let p = e + 1 + k;
                if k >= 1 {
                    Some((e, p))
                } else {
                    None
                }
            } else {
                None
            }
        },
    }
}

/// The first endpoint from `start` on: its start, host end and end.
fn find_endpoint(l: &Vec<char>, start: usize) -> (r: Option<(usize, usize, usize)>)
    requires
        start <= l@.len(),
    ensures
        match r {
            Some((i, e, p)) => {
                &&& first_endpoint(l@, start as int) == Some(i as int)
                &&& e == groups_end(l@, i as int, 4)->0
                &&& p == endpoint_stop(l@, i as int)
                &&& i <= e <= p <= l@.len()
            },
            None => first_endpoint(l@, start as int) is None,
        },
{
    let mut i: usize = start;
    while i < l.len()
        invariant
            start <= i <= l@.len(),
            first_endpoint(l@, start as int) == first_endpoint(l@, i as int),
        decreases l@.len() - i,
    {
        match endpoint_at_pos(l, i) {
            Some((e, p)) => {
                return Some((i, e, p));
            },
            None => {},
        }
        i = i + 1;
    }
    None
}

fn addresses_in(l: &Vec<char>) -> (r: Option<(Vec<char>, Vec<char>)>)
    ensures
        match r {
            Some((f, t)) => addresses_of(l@) == Some((f@, t@)),
            None => addresses_of(l@) is None,
        },
{
    match find_endpoint(l, 0) {
        None => None,
        Some((i, e, p)) => match find_endpoint(l, p) {
            None => None,
            Some((j, e2, _stop)) => Some((slice_of(l, i, e), slice_of(l, j, e2))),
        },
    }
}

/// The hosts of the first two non-overlapping `d.d.d.d:port` occurrences
/// in a socket table line, local first; `None` where it has fewer than two.
pub fn parse_ip_addresses(process_line: &str) -> (r: Option<(String, String)>)
    ensures
        match r {
            Some((f, t)) => addresses_of(process_line@) == Some((f@, t@)),
            None => addresses_of(process_line@) is None,
        },
{
    let l = chars_of(process_line);
    match addresses_in(&l) {
        Some((f, t)) => Some((string_of(&f), string_of(&t))),
        None => None,
    }
}

fn is_name_char_exec(c: char) -> (r: bool)
    ensures
        r == is_name_char(c),
{
    is_word_char(c) || c == '-' || c == '+'
}

fn name_run_at(l: &Vec<char>, i: usize) -> (k: usize)
    requires
        i <= l@.len(),
    ensures
        k == name_run(l@, i as int),
        i + k <= l@.len(),
{
    let mut j: usize = i;
    while j < l.len() && is_name_char_exec(l[j])
        invariant
            i <= j <= l@.len(),
            name_run(l@, i as int) == (j - i) + name_run(l@, j as int),
        decreases l@.len() - j,
    {
        j = j + 1;
    }
    j - i
}

fn pid_in(l: &Vec<char>) -> (r: Option<Vec<char>>)
    ensures
        match r {
            Some(p) => pid_of(l@) == Some(p@),
            None => pid_of(l@) is None,
        },
{
    let marker: Vec<char> = vec!['p', 'i', 'd', '='];
    assert(marker@ =~= pid_marker());
    let mut i: usize = 0;
    while i < l.len()
        invariant
            i <= l@.len(),
            marker@ == pid_marker(),
            first_pid(l@, 0) == first_pid(l@, i as int),
        decreases l@.len() - i,
    {
        if occurs_at_pos(l, i, &marker) {
            let k = digit_run_at(l, i + 4);
            if k >= 1 {
                return Some(slice_of(l, i + 4, i + 4 + k));
            }
        }
        i = i + 1;
    }
    None
}

fn name_in(l: &Vec<char>) -> (r: Option<Vec<char>>)
    ensures
        match r {
            Some(n) => name_of(l@) == Some(n@),
            None => name_of(l@) is None,
        },
{
    let marker: Vec<char> = vec!['u', 's', 'e', 'r', 's', ':', '(', '(', '"'];
    assert(marker@ =~= users_marker());
    let mut i: usize = 0;
    while i < l.len()
        invariant
            i <= l@.len(),
            marker@ == users_marker(),
            first_name(l@, 0) == first_name(l@, i as int),
        decreases l@.len() - i,
    {
        if occurs_at_pos(l, i, &marker) {
            let k = name_run_at(l, i + 9);
            if k >= 1 && i + 9 + k < l.len() && l[i + 9 + k] == '"' {
                return Some(slice_of(l, i + 9, i + 9 + k));
            }
        }
        i = i + 1;
    }
    None
}

/// The process id of a socket table line: the digits after the first
/// `pid=` that is followed by any.
pub fn parse_pid(process_line: &str) -> (r: Option<String>)
    ensures
        match r {
            Some(p) => pid_of(process_line@) == Some(p@),
            None => pid_of(process_line@) is None,
        },
{
    let l = chars_of(process_line);
    match pid_in(&l) {
        Some(p) => Some(string_of(&p)),
        None => None,
    }
}

/// The process name of a socket table line: the quoted name, made of
/// Unicode word characters, `-` and `+`, after the first `users:((` that is
/// followed by one.
pub fn parse_process(process_line: &str) -> (r: Option<String>)
    ensures
        match r {
            Some(n) => name_of(process_line@) == Some(n@),
            None => name_of(process_line@) is None,
        },
{
    let l = chars_of(process_line);
    match name_in(&l) {
        Some(n) => Some(string_of(&n)),
        None => None,
    }
}

/// A live connection and the process that owns it.
#[derive(Debug)]
pub struct Process {
    pub pid: String,
    pub process: String,
    pub from: Ipv4Address,
    pub to: Ipv4Address,
}

impl View for Process {
    type V = (Seq<char>, Seq<char>, Ipv4Address, Ipv4Address);

    open spec fn view(&self) -> Self::V {
        (self.pid@, self.process@, self.from, self.to)
    }
}

/// The record that the line `l` describes, if any.
pub(crate) fn record_in(l: &Vec<char>) -> (r: Option<Process>)
    ensures
        match r {
            Some(p) => record_of(l@) == Some(p@),
            None => record_of(l@) is None,
        },
{
    let (f, t) = match addresses_in(l) {
        Some(ft) => ft,
        None => {
            return None;
        },
    };
    let (from, to) = match (ipv4_from_chars(&f), ipv4_from_chars(&t)) {
        (Some(a), Some(b)) => (a, b),
        _ => {
            return None;
        },
    };
    match (pid_in(l), name_in(l)) {
        (Some(p), Some(n)) => Some(
            Process { pid: string_of(&p), process: string_of(&n), from, to },
        ),
        _ => None,
    }
}

impl Process {
    /// The connection record that a socket table line describes; `None`
    /// where the line lacks a pid, a well-formed quoted process name or a
    /// pair of `d.d.d.d:port` occurrences whose hosts are IPv4 addresses.
    pub fn new(process_line: &str) -> (r: Option<Process>)
        ensures
            match r {
                Some(p) => record_of(process_line@) == Some(p@),
                None => record_of(process_line@) is None,
            },
    {
        let l = chars_of(process_line);
        record_in(&l)
    }

    /// Whether this connection runs from `from` to `to`, in that order.
    pub fn matches(&self, from: &Ipv4Address, to: &Ipv4Address) -> (r: bool)
        ensures
            r == (self.from == *from && self.to == *to),
    {
        self.from == *from && self.to == *to
    }
}

/// The lines of `t`, split at each newline; after a final newline comes an
/// empty line.
pub open spec fn lines(t: Seq<char>) -> Seq<Seq<char>>
    decreases t.len(),
{
    if t.len() == 0 {
        seq![Seq::<char>::empty()]
    } else {
        let ls = lines(t.drop_last());
        if t.last() == '\n' {
            ls.push(Seq::<char>::empty())
        } else {
            ls.update(ls.len() - 1, ls.last().push(t.last()))
        }
    }
}

/// The records that the lines `ls` describe, in order, skipping the lines
/// that describe none.
pub open spec fn records_of_lines(ls: Seq<Seq<char>>) -> Seq<(Seq<char>, Seq<char>, Ipv4Address, Ipv4Address)>
    decreases ls.len(),
{
    if ls.len() == 0 {
        Seq::empty()
    } else {
        let earlier = records_of_lines(ls.drop_last());
        match record_of(ls.last()) {
            Some(x) => earlier.push(x),
            None => earlier,
        }
    }
}

/// The connection records of a socket table, one for each line that
/// describes one, in the order of the lines.
pub fn connections_in(table: &str) -> (r: Vec<Process>)
    ensures
        r@.map_values(|p: Process| p@) == records_of_lines(lines(table@)),
{
    let t = chars_of(table);
    let mut out: Vec<Process> = Vec::new();
    let mut cur: Vec<char> = Vec::new();
    let mut i: usize = 0;
    proof {
        assert(t@.subrange(0, 0) =~= Seq::<char>::empty());
        assert(out@.map_values(|p: Process| p@) =~= Seq::empty());
    }
    while i < t.len()
        invariant
            i <= t@.len(),
            lines(t@.subrange(0, i as int)).len() >= 1,
            lines(t@.subrange(0, i as int)).last() == cur@,
            records_of_lines(lines(t@.subrange(0, i as int)).drop_last()) == out@.map_values(
                |p: Process| p@,
            ),
        decreases t@.len() - i,
    {
        let ghost before = lines(t@.subrange(0, i as int));
        assert(t@.subrange(0, i + 1).drop_last() =~= t@.subrange(0, i as int));
        let c = t[i];
        if c == '\n' {
            assert(lines(t@.subrange(0, i + 1)) == before.push(Seq::<char>::empty()));
            assert(before.push(Seq::<char>::empty()).drop_last() =~= before);
            match record_in(&cur) {
                Some(p) => {
                    out.push(p);
                    assert(out@.map_values(|p: Process| p@) =~= records_of_lines(before.drop_last()).push(p@));
                },
                None => {},
            }
            cur = Vec::new();
        } else {
            cur.push(c);
            assert(lines(t@.subrange(0, i + 1)).drop_last() =~= before.drop_last());
        }
        i = i + 1;
    }
    proof {
        assert(t@.subrange(0, i as int) =~= t@);
    }
    let ghost all = lines(t@);
    match record_in(&cur) {
        Some(p) => {
            out.push(p);
            assert(out@.map_values(|p: Process| p@) =~= records_of_lines(all.drop_last()).push(p@));
        },
        None => {},
    }
    out
}

/// A line that lacks a pid, a process name, or two non-overlapping
/// `d.d.d.d:port` occurrences describes no record: a partial line never
/// gives a partial record.
pub proof fn lemma_partial_line_gives_no_record(l: Seq<char>)
    requires
        pid_of(l) is None || name_of(l) is None || addresses_of(l) is None,
    ensures
        record_of(l) is None,
{
}

proof fn lemma_no_endpoint_from(l: Seq<char>, i: int)
    requires
        0 <= i,
        forall|j: int| i <= j ==> !#[trigger] endpoint_at(l, j),
    ensures
        first_endpoint(l, i) is None,
    decreases l.len() - i,
{
    if i < l.len() {
        lemma_no_endpoint_from(l, i + 1);
    }
}

/// A line without a single dot, as one whose addresses are all written in
/// IPv6's colon form, has no address pair.
pub proof fn lemma_dotless_line_has_no_addresses(l: Seq<char>)
    requires
        forall|j: int| 0 <= j < l.len() ==> l[j] != '.',
    ensures
        addresses_of(l) is None,
        record_of(l) is None,
{
    assert forall|j: int| 0 <= j implies !#[trigger] endpoint_at(l, j) by {
        let k = digit_run(l, j);
        if endpoint_at(l, j) {
            assert(l[j + k] == '.');
        }
    }
    lemma_no_endpoint_from(l, 0);
}

proof fn lemma_groups_end_after_digit(l: Seq<char>, i: int, n: nat)
    requires
        0 <= i,
        groups_end(l, i, n) is Some,
    ensures
        crate::text::is_digit(l[groups_end(l, i, n)->0 - 1]),
    decreases n,
{
    let k = digit_run(l, i);
    if n <= 1 {
        crate::address::lemma_digit_in_run(l, i, k - 1);
    } else {
        lemma_groups_end_after_digit(l, i + k + 1, (n - 1) as nat);
    }
}

/// A line in which no `:` directly follows a digit, as one whose addresses
/// are all written in bracketed IPv6 form (`[::1]:53`,
/// `[::ffff:10.0.0.1]:80`), has no address pair.
pub proof fn lemma_ipv6_line_has_no_addresses(l: Seq<char>)
    requires
        forall|j: int|
            0 < j < l.len() && #[trigger] l[j] == ':' ==> !crate::text::is_digit(l[j - 1]),
    ensures
        addresses_of(l) is None,
        record_of(l) is None,
{
    assert forall|j: int| 0 <= j implies !#[trigger] endpoint_at(l, j) by {
        if endpoint_at(l, j) {
            lemma_groups_end_after(l, j, 4);
            lemma_groups_end_after_digit(l, j, 4);
            assert(l[groups_end(l, j, 4)->0] == ':');
        }
    }
    lemma_no_endpoint_from(l, 0);
}

/// Whether a record has a non-empty pid of digits and a non-empty name of
/// name characters.
pub open spec fn complete_record(r: (Seq<char>, Seq<char>, Ipv4Address, Ipv4Address)) -> bool {
    &&& r.0.len() >= 1
    &&& forall|k: int| 0 <= k < r.0.len() ==> crate::text::is_digit(#[trigger] r.0[k])
    &&& r.1.len() >= 1
    &&& forall|k: int| 0 <= k < r.1.len() ==> is_name_char(#[trigger] r.1[k])
}

proof fn lemma_first_pid_found(l: Seq<char>, i: int)
    requires
        first_pid(l, i) is Some,
    ensures
        pid_at(l, first_pid(l, i)->0),
        first_pid(l, i)->0 >= i,
    decreases l.len() - i,
{
    if 0 <= i < l.len() && !pid_at(l, i) {
        lemma_first_pid_found(l, i + 1);
    }
}

proof fn lemma_first_name_found(l: Seq<char>, i: int)
    requires
        first_name(l, i) is Some,
    ensures
        name_at(l, first_name(l, i)->0),
        first_name(l, i)->0 >= i,
    decreases l.len() - i,
{
    if 0 <= i < l.len() && !name_at(l, i) {
        lemma_first_name_found(l, i + 1);
    }
}

proof fn lemma_name_in_run(s: Seq<char>, i: int, j: int)
    requires
        0 <= i,
        0 <= j < name_run(s, i),
    ensures
        is_name_char(s[i + j]),
    decreases j,
{
    if j > 0 {
        lemma_name_in_run(s, i + 1, j - 1);
    }
}

proof fn lemma_runs_in_line(l: Seq<char>, i: int)
    requires
        0 <= i <= l.len(),
    ensures
        i + digit_run(l, i) <= l.len(),
        i + name_run(l, i) <= l.len(),
    decreases l.len() - i,
{
    if i < l.len() {
        lemma_runs_in_line(l, i + 1);
    }
}

/// Every record that a line describes has a non-empty pid of digits and a
/// non-empty name.
pub proof fn lemma_record_complete(l: Seq<char>)
    requires
        record_of(l) is Some,
    ensures
        complete_record(record_of(l)->0),
{
    lemma_first_pid_found(l, 0);
    lemma_first_name_found(l, 0);
    let i = first_pid(l, 0)->0;
    let n = first_name(l, 0)->0;
    let p = pid_of(l)->0;
    let m = name_of(l)->0;
    lemma_runs_in_line(l, i + 4);
    lemma_runs_in_line(l, n + 9);
    assert forall|k: int| 0 <= k < p.len() implies crate::text::is_digit(#[trigger] p[k]) by {
        crate::address::lemma_digit_in_run(l, i + 4, k);
    }
    assert forall|k: int| 0 <= k < m.len() implies is_name_char(#[trigger] m[k]) by {
        lemma_name_in_run(l, n + 9, k);
    }
}

proof fn lemma_records_complete(ls: Seq<Seq<char>>)
    ensures
        forall|k: int|
            0 <= k < records_of_lines(ls).len() ==> complete_record(
                #[trigger] records_of_lines(ls)[k],
            ),
    decreases ls.len(),
{
    if ls.len() > 0 {
        lemma_records_complete(ls.drop_last());
        let earlier = records_of_lines(ls.drop_last());
        if record_of(ls.last()) is Some {
            lemma_record_complete(ls.last());
            assert forall|k: int| 0 <= k < records_of_lines(ls).len() implies complete_record(
                #[trigger] records_of_lines(ls)[k],
            ) by {
                if k < earlier.len() {
                    assert(records_of_lines(ls)[k] == earlier[k]);
                }
            }
        }
    }
}

proof fn lemma_line_record_kept(ls: Seq<Seq<char>>, k: int)
    requires
        0 <= k < ls.len(),
        record_of(ls[k]) is Some,
    ensures
        records_of_lines(ls).contains(record_of(ls[k])->0),
    decreases ls.len(),
{
    let r = record_of(ls[k])->0;
    let earlier = records_of_lines(ls.drop_last());
    if k == ls.len() - 1 {
        assert(records_of_lines(ls)[earlier.len() as int] == r);
    } else {
        assert(ls.drop_last()[k] == ls[k]);
        lemma_line_record_kept(ls.drop_last(), k);
        let w = choose|w: int| 0 <= w < earlier.len() && earlier[w] == r;
        assert(records_of_lines(ls)[w] == r);
    }
}

/// A socket table never gives a partial record: each record that it gives
/// has a non-empty pid of digits and a non-empty name.
pub proof fn lemma_table_records_complete(t: Seq<char>)
    ensures
        forall|k: int|
            0 <= k < records_of_lines(lines(t)).len() ==> complete_record(
                #[trigger] records_of_lines(lines(t))[k],
            ),
{
    lemma_records_complete(lines(t));
}

/// Each line of a socket table that describes a record contributes that
/// record to the table's records.
pub proof fn lemma_table_keeps_described_line(t: Seq<char>, k: int)
    requires
        0 <= k < lines(t).len(),
        record_of(lines(t)[k]) is Some,
    ensures
        records_of_lines(lines(t)).contains(record_of(lines(t)[k])->0),
{
    lemma_line_record_kept(lines(t), k);
}

} // verus!
