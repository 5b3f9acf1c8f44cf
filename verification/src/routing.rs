//! The server's and client's decisions on what arrives: who registered under
//! which name, and where the messages that user code produces must go.
//!
//! The server gives each accepted connection a number. A client registers its
//! name on its connection; a later registration of the same name replaces the
//! earlier one. Messages addressed to a name go to the connection registered
//! under it; messages to a name nobody registered are reported and dropped.
use vstd::prelude::*;

verus! {

/// What one decoded frame asks of its receiver.
#[derive(Debug, PartialEq, Eq)]
pub enum Incoming<M> {
    /// The peer registers under this name.
    Register(String),
    /// A user message to hand to user code.
    Message(M),
    /// Neither a name nor a message.
    Nothing,
}

/// Sorts a decoded frame `(name, message)`: a name makes it a registration
/// (any message beside it is ignored), else a message makes it a message.
pub fn classify<M>(item: (Option<String>, Option<M>)) -> (incoming: Incoming<M>)
    ensures
        match item {
            (Some(name), _) => incoming == Incoming::<M>::Register(name),
            (None, Some(message)) => incoming == Incoming::Message(message),
            (None, None) => incoming is Nothing,
        },
{
    let (name, message) = item;
    match name {
        Some(name) => Incoming::Register(name),
        None => match message {
            Some(message) => Incoming::Message(message),
            None => Incoming::Nothing,
        },
    }
}

/// Where one outgoing message goes.
#[derive(Debug, PartialEq, Eq)]
pub enum Delivery<M> {
    /// Send the message on this connection.
    Deliver(u64, M),
    /// Nobody registered under this name; the message is dropped.
    Unregistered(String),
}

/// Where the outgoing `(destination, message)` goes under `routes`.
pub open spec fn delivery_for<M>(routes: Map<Seq<char>, u64>, outgoing: (String, M)) -> Delivery<M> {
    if routes.dom().contains(outgoing.0@) {
        Delivery::Deliver(routes[outgoing.0@], outgoing.1)
    } else {
        Delivery::Unregistered(outgoing.0)
    }
}

/// The names that clients registered, each with its connection.
#[derive(Debug)]
pub struct Registry {
    entries: Vec<(String, u64)>,
}

/// Whether no name occurs twice among `entries`.
pub open spec fn names_distinct(entries: Seq<(String, u64)>) -> bool {
    forall|i: int, j: int|
        0 <= i < j < entries.len() ==> #[trigger] entries[i].0@ != #[trigger] entries[j].0@
}

/// Whether `name` is registered in `entries`.
pub open spec fn has_name(entries: Seq<(String, u64)>, name: Seq<char>) -> bool {
    exists|i: int| 0 <= i < entries.len() && #[trigger] entries[i].0@ == name
}

/// The position of `name` in `entries`, where it occurs.
pub open spec fn position_of(entries: Seq<(String, u64)>, name: Seq<char>) -> int {
    choose|i: int| 0 <= i < entries.len() && #[trigger] entries[i].0@ == name
}

/// The registered names and their connections, as a map.
pub open spec fn routes_of(entries: Seq<(String, u64)>) -> Map<Seq<char>, u64> {
    Map::new(|name: Seq<char>| has_name(entries, name), |name: Seq<char>| entries[position_of(entries, name)].1)
}

/// With distinct names, the entry at `i` is what the map says of its name.
proof fn lemma_routes_at(entries: Seq<(String, u64)>, i: int)
    requires
        names_distinct(entries),
        0 <= i < entries.len(),
    ensures
        routes_of(entries).dom().contains(entries[i].0@),
        routes_of(entries)[entries[i].0@] == entries[i].1,
{
    let name = entries[i].0@;
    assert(has_name(entries, name));
    let j = position_of(entries, name);
    assert(entries[j].0@ == name);
    if j < i {
        assert(entries[j].0@ != entries[i].0@);
    } else if i < j {
        assert(entries[i].0@ != entries[j].0@);
    }
}

impl View for Registry {
    type V = Map<Seq<char>, u64>;

    closed spec fn view(&self) -> Map<Seq<char>, u64> {
        routes_of(self.entries@)
    }
}

impl Registry {
    #[verifier::type_invariant]
    spec fn names_unique(&self) -> bool {
        names_distinct(self.entries@)
    }

    /// A registry with no names in it.
    pub fn new() -> (registry: Registry)
        ensures
            registry@ == Map::<Seq<char>, u64>::empty(),
    {
        let registry = Registry { entries: Vec::new() };
        assert(registry@ =~= Map::<Seq<char>, u64>::empty());
        registry
    }

    /// The connection registered under `name`, if any.
    pub fn lookup(&self, name: &String) -> (conn: Option<u64>)
        ensures
            conn == (if self@.dom().contains(name@) {
                Some(self@[name@])
            } else {
                None
            }),
    {
        proof {
            use_type_invariant(self);
        }
        let mut i: usize = 0;
        while i < self.entries.len()
            invariant
                i <= self.entries@.len(),
                names_distinct(self.entries@),
                forall|j: int| 0 <= j < i ==> #[trigger] self.entries@[j].0@ != name@,
            decreases self.entries@.len() - i,
        {
            if self.entries[i].0 == *name {
                proof {
                    lemma_routes_at(self.entries@, i as int);
                }
                return Some(self.entries[i].1);
            }
            i = i + 1;
        }
        assert(!has_name(self.entries@, name@));
        None
    }

    /// Registers `name` on connection `conn`, replacing the connection that
    /// was registered under `name` before, if any.
    pub fn register(&mut self, name: String, conn: u64)
        ensures
            final(self)@ == old(self)@.insert(name@, conn),
    {
        proof {
            use_type_invariant(&*self);
        }
        let ghost before = self.entries@;
        let mut entries: Vec<(String, u64)> = Vec::new();
        std::mem::swap(&mut entries, &mut self.entries);
        assert(entries@ == before);
        let mut i: usize = 0;
        let mut found = false;
        while i < entries.len()
            invariant_except_break
                !found,
            invariant
                entries@ == before,
                i <= entries@.len(),
                forall|j: int| 0 <= j < i ==> #[trigger] entries@[j].0@ != name@,
            ensures
                found ==> i < entries@.len() && entries@[i as int].0@ == name@,
                !found ==> forall|j: int| 0 <= j < entries@.len() ==> #[trigger] entries@[j].0@ != name@,
            decreases entries@.len() - i,
        {
            if entries[i].0 == name {
                found = true;
                break;
            }
            i = i + 1;
        }
        let ghost key = name@;
        if found {
            assert(entries@[i as int].0@ == key);
            entries.set(i, (name, conn));
            proof {
                let after = entries@;
                assert(after == before.update(i as int, after[i as int]));
                assert(names_distinct(after)) by {
                    assert forall|a: int, b: int| 0 <= a < b < after.len() implies
                        #[trigger] after[a].0@ != #[trigger] after[b].0@ by {
                        assert(before[a].0@ != before[b].0@);
                    }
                }
                assert forall|k: Seq<char>| #[trigger] has_name(after, k) == has_name(before, k) by {
                    if has_name(before, k) {
                        let p = choose|p: int| 0 <= p < before.len() && #[trigger] before[p].0@ == k;
                        assert(after[p].0@ == k);
                    }
                    if has_name(after, k) {
                        let p = choose|p: int| 0 <= p < after.len() && #[trigger] after[p].0@ == k;
                        assert(before[p].0@ == k);
                    }
                }
                assert forall|k: Seq<char>| has_name(after, k) implies routes_of(after)[k]
                    == old(self)@.insert(key, conn)[k] by {
                    let p = choose|p: int| 0 <= p < after.len() && #[trigger] after[p].0@ == k;
                    lemma_routes_at(after, p);
                    lemma_routes_at(before, p);
                }
                assert(routes_of(after) =~= old(self)@.insert(key, conn));
            }
        } else {
            entries.push((name, conn));
            proof {
                let after = entries@;
                assert(after == before.push(after[before.len() as int]));
                assert(!has_name(before, key));
                assert(names_distinct(after)) by {
                    assert forall|a: int, b: int| 0 <= a < b < after.len() implies
                        #[trigger] after[a].0@ != #[trigger] after[b].0@ by {
                        if b < before.len() {
                            assert(before[a].0@ != before[b].0@);
                        }
                    }
                }
                assert forall|k: Seq<char>| #[trigger] has_name(after, k) == (has_name(before, k)
                    || k == key) by {
                    if has_name(before, k) {
                        let p = choose|p: int| 0 <= p < before.len() && #[trigger] before[p].0@ == k;
                        assert(after[p].0@ == k);
                    }
                    if k == key {
                        assert(after[before.len() as int].0@ == k);
                    }
                    if has_name(after, k) && k != key {
                        let p = choose|p: int| 0 <= p < after.len() && #[trigger] after[p].0@ == k;
                        assert(before[p].0@ == k);
                    }
                }
                assert forall|k: Seq<char>| has_name(after, k) implies routes_of(after)[k]
                    == old(self)@.insert(key, conn)[k] by {
                    let p = choose|p: int| 0 <= p < after.len() && #[trigger] after[p].0@ == k;
                    lemma_routes_at(after, p);
                    if p < before.len() {
                        lemma_routes_at(before, p);
                    }
                }
                assert(routes_of(after) =~= old(self)@.insert(key, conn));
            }
        }
        self.entries = entries;
    }

    /// Decides, in order, where each `(destination, message)` that user code
    /// produced goes: to the connection registered under the destination, or
    /// nowhere when nobody registered under it.
    pub fn route<M>(&self, outgoing: Vec<(String, M)>) -> (deliveries: Vec<Delivery<M>>)
        ensures
            deliveries@.len() == outgoing@.len(),
            forall|i: int|
                0 <= i < outgoing@.len() ==> #[trigger] deliveries@[i] == delivery_for(
                    self@,
                    outgoing@[i],
                ),
            forall|i: int|
                0 <= i < outgoing@.len() && self@.dom().contains(#[trigger] outgoing@[i].0@)
                    ==> deliveries@[i] == Delivery::Deliver(self@[outgoing@[i].0@], outgoing@[i].1),
            forall|i: int|
                0 <= i < outgoing@.len() && !self@.dom().contains(#[trigger] outgoing@[i].0@)
                    ==> deliveries@[i] == Delivery::<M>::Unregistered(outgoing@[i].0),
    {
        let mut deliveries: Vec<Delivery<M>> = Vec::new();
        for item in it: outgoing
            invariant
                deliveries@.len() == it.index(),
                forall|i: int|
                    0 <= i < it.index() ==> #[trigger] deliveries@[i] == delivery_for(
                        self@,
                        it.seq()[i],
                    ),
        {
            let (dest, message) = item;
            match self.lookup(&dest) {
                Some(conn) => deliveries.push(Delivery::Deliver(conn, message)),
                None => deliveries.push(Delivery::Unregistered(dest)),
            }
        }
        deliveries
    }
}

/// A message to a registered name goes to the connection registered under
/// it, whatever that connection's number; a message to a name nobody
/// registered is reported with that name.
pub proof fn delivery_follows_registration<M>(routes: Map<Seq<char>, u64>, dest: String, message: M)
    ensures
        routes.dom().contains(dest@) ==> delivery_for(routes, (dest, message)) == Delivery::Deliver(
            routes[dest@],
            message,
        ),
        !routes.dom().contains(dest@) ==> delivery_for(routes, (dest, message))
            == Delivery::<M>::Unregistered(dest),
{
}

/// After `name` is registered on `conn`, a message to `name` goes to `conn`,
/// and a message to another name goes where it went before.
pub proof fn route_after_register<M>(
    routes: Map<Seq<char>, u64>,
    name: Seq<char>,
    conn: u64,
    dest: String,
    message: M,
)
    ensures
        dest@ == name ==> delivery_for(routes.insert(name, conn), (dest, message))
            == Delivery::Deliver(conn, message),
        dest@ != name ==> delivery_for(routes.insert(name, conn), (dest, message)) == delivery_for(
            routes,
            (dest, message),
        ),
{
}

/// Registering a name and then looking it up gives the connection just
/// registered; other names keep what they had.
pub proof fn register_then_lookup(routes: Map<Seq<char>, u64>, name: Seq<char>, conn: u64, other: Seq<char>)
    requires
        other != name,
    ensures
        routes.insert(name, conn).dom().contains(name),
        routes.insert(name, conn)[name] == conn,
        routes.insert(name, conn).dom().contains(other) == routes.dom().contains(other),
        routes.dom().contains(other) ==> routes.insert(name, conn)[other] == routes[other],
{
}

} // verus!
