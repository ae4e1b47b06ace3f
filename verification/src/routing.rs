//! Routing table: the authoritative mapping from project name to the
//! backend port the reverse proxy must reach. The event router is its only
//! writer; the proxy reads it. Viewed as a `Map<Seq<char>, u16>`.

use vstd::prelude::*;
use crate::strutil::str_eq;

verus! {

/// One route: requests for `<name>.localhost` go to `127.0.0.1:<port>`.
pub struct RouteEntry {
    pub name: String,
    pub port: u16,
}

/// Map from project name to backend port, at most one entry per name.
pub struct RoutingTable {
    entries: Vec<RouteEntry>,
}

/// The map described by a sequence of entries; later entries win.
pub open spec fn entries_map(s: Seq<RouteEntry>) -> Map<Seq<char>, u16>
    decreases s.len(),
{
    if s.len() == 0 {
        Map::empty()
    } else {
        entries_map(s.drop_last()).insert(s.last().name@, s.last().port)
    }
}

pub open spec fn unique_names(s: Seq<RouteEntry>) -> bool {
    forall|i: int, j: int| 0 <= i < j < s.len() ==> s[i].name@ != s[j].name@
}

pub proof fn lemma_entries_map_present(s: Seq<RouteEntry>, i: int)
    requires
        0 <= i < s.len(),
        unique_names(s),
    ensures
        entries_map(s).contains_key(s[i].name@),
        entries_map(s)[s[i].name@] == s[i].port,
    decreases s.len(),
{
    if i < s.len() - 1 {
        assert(unique_names(s.drop_last()));
        assert(s.drop_last()[i] == s[i]);
        lemma_entries_map_present(s.drop_last(), i);
        assert(s[i].name@ != s.last().name@);
    }
}

pub proof fn lemma_entries_map_absent(s: Seq<RouteEntry>, n: Seq<char>)
    requires
        forall|i: int| 0 <= i < s.len() ==> (#[trigger] s[i].name@) != n,
    ensures
        !entries_map(s).contains_key(n),
    decreases s.len(),
{
    if s.len() > 0 {
        assert(forall|i: int|
            0 <= i < s.drop_last().len() ==> (#[trigger] s.drop_last()[i].name@) != n);
        lemma_entries_map_absent(s.drop_last(), n);
        assert(s.last().name@ != n);
    }
}

impl RoutingTable {
    /// Well-formed: no project name occurs twice.
    pub closed spec fn wf(&self) -> bool {
        unique_names(self.entries@)
    }

    /// The mathematical content of the table.
    pub closed spec fn as_map(&self) -> Map<Seq<char>, u16> {
        entries_map(self.entries@)
    }

    /// What a lookup of `n` must observe.
    pub open spec fn spec_lookup(&self, n: Seq<char>) -> Option<u16> {
        if self.as_map().contains_key(n) {
            Some(self.as_map()[n])
        } else {
            None
        }
    }

    pub fn new() -> (r: Self)
        ensures
            r.wf(),
            r.as_map() == Map::<Seq<char>, u16>::empty(),
    {
        RoutingTable { entries: Vec::new() }
    }

    /// The port currently routed for a project name, if any.
    pub fn lookup(&self, name: &str) -> (r: Option<u16>)
        requires
            self.wf(),
        ensures
            r == self.spec_lookup(name@),
    {
        let n = self.entries.len();
        let mut i: usize = 0;
        while i < n
            invariant
                i <= n,
                n == self.entries@.len(),
                self.wf(),
                forall|j: int| 0 <= j < i ==> (#[trigger] self.entries@[j].name@) != name@,
            decreases n - i,
        {
            if str_eq(self.entries[i].name.as_str(), name) {
                proof {
                    lemma_entries_map_present(self.entries@, i as int);
                }
                return Some(self.entries[i].port);
            }
            i = i + 1;
        }
        proof {
            lemma_entries_map_absent(self.entries@, name@);
        }
        None
    }

    /// Make `name` route to `port`, replacing any prior entry for `name`.
    pub fn install(&mut self, name: String, port: u16)
        requires
            old(self).wf(),
        ensures
            final(self).wf(),
            final(self).as_map() == old(self).as_map().insert(name@, port),
    {
        let n = self.entries.len();
        let mut i: usize = 0;
        while i < n
            invariant
                i <= n,
                n == self.entries@.len(),
                self.wf(),
                *self == *old(self),
                forall|j: int| 0 <= j < i ==> (#[trigger] self.entries@[j].name@) != name@,
            decreases n - i,
        {
            if str_eq(self.entries[i].name.as_str(), name.as_str()) {
                self.entries[i] = RouteEntry { name, port };
                proof {
                    lemma_update_entry(old(self).entries@, i as int, self.entries@[i as int]);
                }
                return;
            }
            i = i + 1;
        }
        self.entries.push(RouteEntry { name, port });
        proof {
            assert(self.entries@.drop_last() =~= old(self).entries@);
        }
    }

    /// Remove the route for `name`, if there is one.
    pub fn remove(&mut self, name: &str)
        requires
            old(self).wf(),
        ensures
            final(self).wf(),
            final(self).as_map() == old(self).as_map().remove(name@),
    {
        let n = self.entries.len();
        let mut i: usize = 0;
        while i < n
            invariant
                i <= n,
                n == self.entries@.len(),
                self.wf(),
                *self == *old(self),
                forall|j: int| 0 <= j < i ==> (#[trigger] self.entries@[j].name@) != name@,
            decreases n - i,
        {
            if str_eq(self.entries[i].name.as_str(), name) {
                self.entries.remove(i);
                proof {
                    lemma_remove_entry(old(self).entries@, i as int);
                    assert(unique_names(final(self).entries@));
                }
                return;
            }
            i = i + 1;
        }
        proof {
            lemma_entries_map_absent(self.entries@, name@);
            assert(self.as_map().remove(name@) =~= self.as_map());
        }
    }

    /// All routes, for diagnostics; each pair is present in the map.
    pub fn snapshot(&self) -> (r: Vec<(String, u16)>)
        requires
            self.wf(),
        ensures
            r@.len() == self.as_map().dom().len(),
            forall|i: int|
                0 <= i < r@.len() ==> self.as_map().contains_key(#[trigger] r@[i].0@)
                    && self.as_map()[r@[i].0@] == r@[i].1,
    {
        let n = self.entries.len();
        let mut r: Vec<(String, u16)> = Vec::new();
        let mut i: usize = 0;
        while i < n
            invariant
                i <= n,
                n == self.entries@.len(),
                self.wf(),
                r@.len() == i,
                forall|j: int|
                    0 <= j < i ==> self.as_map().contains_key(#[trigger] r@[j].0@)
                        && self.as_map()[r@[j].0@] == r@[j].1,
            decreases n - i,
        {
            proof {
                lemma_entries_map_present(self.entries@, i as int);
            }
            r.push((self.entries[i].name.clone(), self.entries[i].port));
            i = i + 1;
        }
        proof {
            lemma_entries_map_card(self.entries@);
        }
        r
    }
}

/// Replacing entry `i` by one with the same name turns the map into an
/// insert of that key.
proof fn lemma_update_entry(s: Seq<RouteEntry>, i: int, e: RouteEntry)
    requires
        0 <= i < s.len(),
        unique_names(s),
        e.name@ == s[i].name@,
    ensures
        unique_names(s.update(i, e)),
        entries_map(s.update(i, e)) =~= entries_map(s).insert(e.name@, e.port),
    decreases s.len(),
{
    let t = s.update(i, e);
    assert(forall|j: int| 0 <= j < s.len() ==> (#[trigger] t[j].name@) == s[j].name@);
    if i == s.len() - 1 {
        assert(t.drop_last() =~= s.drop_last());
    } else {
        assert(t.drop_last() =~= s.drop_last().update(i, e));
        assert(unique_names(s.drop_last()));
        assert(s.drop_last()[i] == s[i]);
        lemma_update_entry(s.drop_last(), i, e);
        assert(s[i].name@ != s.last().name@);
        assert(t.last() == s.last());
    }
}

/// Removing entry `i` turns the map into a remove of that key.
proof fn lemma_remove_entry(s: Seq<RouteEntry>, i: int)
    requires
        0 <= i < s.len(),
        unique_names(s),
    ensures
        unique_names(s.remove(i)),
        entries_map(s.remove(i)) =~= entries_map(s).remove(s[i].name@),
    decreases s.len(),
{
    let t = s.remove(i);
    if i == s.len() - 1 {
        assert(t =~= s.drop_last());
        assert(forall|j: int|
            0 <= j < s.drop_last().len() ==> (#[trigger] s.drop_last()[j].name@) != s[i].name@);
        lemma_entries_map_absent(s.drop_last(), s[i].name@);
        assert(entries_map(s.drop_last()).remove(s[i].name@) =~= entries_map(s.drop_last()));
    } else {
        assert(unique_names(s.drop_last()));
        assert(s.drop_last()[i] == s[i]);
        lemma_remove_entry(s.drop_last(), i);
        assert(t.drop_last() =~= s.drop_last().remove(i));
        assert(t.last() == s.last());
        assert(s[i].name@ != s.last().name@);
    }
}

/// With unique names the map has exactly one key per entry.
proof fn lemma_entries_map_card(s: Seq<RouteEntry>)
    requires
        unique_names(s),
    ensures
        entries_map(s).dom().finite(),
        entries_map(s).dom().len() == s.len(),
    decreases s.len(),
{
    if s.len() > 0 {
        assert(unique_names(s.drop_last()));
        lemma_entries_map_card(s.drop_last());
        assert(forall|j: int|
            0 <= j < s.drop_last().len() ==> (#[trigger] s.drop_last()[j].name@)
                != s.last().name@);
        lemma_entries_map_absent(s.drop_last(), s.last().name@);
        assert(entries_map(s).dom() =~= entries_map(s.drop_last()).dom().insert(s.last().name@));
    }
}

/// Create a new, empty routing table.
pub fn new_routing_table() -> (r: RoutingTable)
    ensures
        r.wf(),
        r.as_map() == Map::<Seq<char>, u16>::empty(),
{
    RoutingTable::new()
}

/// One write to the routing table.
pub enum RouteOp {
    Install { name: Seq<char>, port: u16 },
    Remove { name: Seq<char> },
}

pub open spec fn op_touches(op: RouteOp, n: Seq<char>) -> bool {
    match op {
        RouteOp::Install { name, .. } => name == n,
        RouteOp::Remove { name } => name == n,
    }
}

pub open spec fn apply_route_op(m: Map<Seq<char>, u16>, op: RouteOp) -> Map<Seq<char>, u16> {
    match op {
        RouteOp::Install { name, port } => m.insert(name, port),
        RouteOp::Remove { name } => m.remove(name),
    }
}

pub open spec fn apply_route_ops(m: Map<Seq<char>, u16>, ops: Seq<RouteOp>) -> Map<Seq<char>, u16>
    decreases ops.len(),
{
    if ops.len() == 0 {
        m
    } else {
        apply_route_op(apply_route_ops(m, ops.drop_last()), ops.last())
    }
}

/// After any sequence of installs and removes, a lookup observes exactly
/// the most recent operation for its name: the installed port after an
/// `Install`, absence after a `Remove`.
pub proof fn lemma_lookup_after_last_op(
    m: Map<Seq<char>, u16>,
    ops: Seq<RouteOp>,
    i: int,
    n: Seq<char>,
)
    requires
        0 <= i < ops.len(),
        op_touches(ops[i], n),
        forall|j: int| i < j < ops.len() ==> !op_touches(#[trigger] ops[j], n),
    ensures
        ({
            let result = apply_route_ops(m, ops);
            match ops[i] {
                RouteOp::Install { port, .. } => result.contains_key(n) && result[n] == port,
                RouteOp::Remove { .. } => !result.contains_key(n),
            }
        }),
    decreases ops.len(),
{
    if i == ops.len() - 1 {
    } else {
        assert(ops.drop_last()[i] == ops[i]);
        lemma_lookup_after_last_op(m, ops.drop_last(), i, n);
        assert(!op_touches(ops.last(), n));
    }
}

} // verus!
