use dashmap::mapref::entry::Entry;
use dashmap::DashMap;
use crate::text::trim;
use vstd::prelude::*;
use vstd::utf8::encode_utf8;

verus! {

/// `dashmap::DashMap`, the concurrent map that holds the users; opaque here.
#[verifier::external_type_specification]
#[verifier::external_body]
#[verifier::reject_recursive_types(K)]
#[verifier::reject_recursive_types(V)]
#[verifier::reject_recursive_types(S)]
pub struct ExDashMap<K, V, S>(DashMap<K, V, S>);

/// The entries of a table of users: each name with its connection.
pub uninterp spec fn user_table(m: DashMap<String, u64>) -> Map<Seq<char>, u64>;

/// The table without entries.
pub open spec fn no_users() -> Map<Seq<char>, u64> {
    Map::empty()
}

/// `DashMap::new`: an empty table.
#[verifier::external_body]
fn table_new() -> (fresh: DashMap<String, u64>)
    ensures
        user_table(fresh) == no_users(),
{
    DashMap::new()
}

/// `DashMap::entry`, then `VacantEntry::insert` where the name is free: the
/// name is claimed for `conn` in one step where no entry has it, and the
/// table stays as it was where one has.
#[verifier::external_body]
fn table_claim(m: &mut DashMap<String, u64>, name: String, conn: u64) -> (claimed: bool)
    ensures
        claimed == !user_table(*old(m)).contains_key(name@),
        claimed ==> user_table(*final(m)) == user_table(*old(m)).insert(name@, conn),
        !claimed ==> user_table(*final(m)) == user_table(*old(m)),
{
    match m.entry(name) {
        Entry::Occupied(_) => false,
        Entry::Vacant(entry) => {
            entry.insert(conn);
            true
        },
    }
}

/// `DashMap::insert`: the name now goes with `conn`; the connection it went
/// with before, if any, comes back.
#[verifier::external_body]
fn table_insert(m: &mut DashMap<String, u64>, name: String, conn: u64) -> (previous: Option<u64>)
    ensures
        user_table(*final(m)) == user_table(*old(m)).insert(name@, conn),
        previous == if user_table(*old(m)).contains_key(name@) {
            Some(user_table(*old(m))[name@])
        } else {
            None
        },
{
    m.insert(name, conn)
}

/// `DashMap::remove`: the entry of the name leaves the table and comes back,
/// if there was one.
#[verifier::external_body]
fn table_remove(m: &mut DashMap<String, u64>, name: &str) -> (removed: Option<(String, u64)>)
    ensures
        user_table(*final(m)) == user_table(*old(m)).remove(name@),
        match removed {
            Some((k, v)) => user_table(*old(m)).contains_key(name@) && k@ == name@ && v
                == user_table(*old(m))[name@],
            None => !user_table(*old(m)).contains_key(name@),
        },
{
    m.remove(name)
}

/// `DashMap::iter`, each entry taken as its name and connection: every entry
/// of the table once, in an order that nothing fixes.
#[verifier::external_body]
fn table_entries(m: &DashMap<String, u64>) -> (entries: Vec<(String, u64)>)
    ensures
        lists_entries(entries@, user_table(*m)),
{
    m.iter().map(|e| (e.key().clone(), *e.value())).collect()
}

/// `entries` lists each entry of `table` exactly once.
pub open spec fn lists_entries(entries: Seq<(String, u64)>, table: Map<Seq<char>, u64>) -> bool {
    &&& forall|i: int|
        0 <= i < entries.len() ==> table.contains_key(#[trigger] entries[i].0@) && table[entries[i].0@]
            == entries[i].1
    &&& forall|k: Seq<char>|
        table.contains_key(k) ==> exists|i: int| 0 <= i < entries.len() && #[trigger] entries[i].0@ == k
    &&& forall|i: int, j: int|
        0 <= i < j < entries.len() ==> #[trigger] entries[i].0@ != #[trigger] entries[j].0@
}

/// `recipients` lists each user of `table` but `sender`, with its connection,
/// exactly once.
pub open spec fn is_recipient_list(
    recipients: Seq<(String, u64)>,
    table: Map<Seq<char>, u64>,
    sender: Seq<char>,
) -> bool {
    lists_entries(recipients, table.remove(sender))
}

/// A broadcast reaches every other user once and never its sender.
pub proof fn law_broadcast_skips_sender(
    recipients: Seq<(String, u64)>,
    users: Map<Seq<char>, u64>,
    sender: Seq<char>,
)
    requires
        is_recipient_list(recipients, users, sender),
    ensures
        forall|i: int| 0 <= i < recipients.len() ==> (#[trigger] recipients[i]).0@ != sender,
        forall|i: int|
            0 <= i < recipients.len() ==> users.contains_key((#[trigger] recipients[i]).0@)
                && users[recipients[i].0@] == recipients[i].1,
        forall|k: Seq<char>|
            users.contains_key(k) && k != sender ==> exists|i: int|
                0 <= i < recipients.len() && (#[trigger] recipients[i]).0@ == k,
{
    assert forall|i: int| 0 <= i < recipients.len() implies (#[trigger] recipients[i]).0@ != sender
        && users.contains_key(recipients[i].0@) && users[recipients[i].0@] == recipients[i].1 by {
        assert(users.remove(sender).contains_key(recipients[i].0@));
    }
    assert forall|k: Seq<char>| users.contains_key(k) && k != sender implies exists|i: int|
        0 <= i < recipients.len() && (#[trigger] recipients[i]).0@ == k by {
        assert(users.remove(sender).contains_key(k));
    }
}

/// The most bytes that a username may take in UTF-8.
pub const MAX_USERNAME_LEN: usize = 32;

/// A name that a user may have: trimmed, not empty, and at most
/// `MAX_USERNAME_LEN` bytes long in UTF-8.
pub open spec fn valid_username(name: Seq<char>) -> bool {
    &&& trim(name) == name
    &&& name.len() > 0
    &&& encode_utf8(name).len() <= MAX_USERNAME_LEN
}

/// Every user of `users` has a valid name. (Names are unique, as the keys of
/// a map are.)
pub open spec fn all_names_valid(users: Map<Seq<char>, u64>) -> bool {
    forall|k: Seq<char>| users.contains_key(k) ==> valid_username(k)
}

/// The users that are connected: each name with the connection that the
/// server sends it messages through.
///
/// The table is taken out of its slot while it changes, so that the
/// registry's invariant holds at every step; the slot is empty only then.
pub struct Registry {
    pub(crate) table: Option<DashMap<String, u64>>,
}

/// The users in a slot that may hold a table.
pub open spec fn slot_users(slot: Option<DashMap<String, u64>>) -> Map<Seq<char>, u64> {
    match slot {
        Some(t) => user_table(t),
        None => no_users(),
    }
}

impl View for Registry {
    type V = Map<Seq<char>, u64>;

    closed spec fn view(&self) -> Map<Seq<char>, u64> {
        slot_users(self.table)
    }
}

impl Registry {
    /// Every name in the registry is a valid username.
    #[verifier::type_invariant]
    pub(crate) open spec fn names_are_valid(self) -> bool {
        all_names_valid(slot_users(self.table))
    }

    /// The invariant says that every name in the registry is valid.
    pub(crate) proof fn lemma_names_are_valid(r: Registry)
        requires
            r.names_are_valid(),
        ensures
            all_names_valid(r@),
    {
    }

    /// Takes the table out of its slot, or a new empty table where the slot
    /// is empty.
    fn take_table(&mut self) -> (t: DashMap<String, u64>)
        ensures
            user_table(t) == old(self)@,
            final(self)@ == no_users(),
    {
        let mut slot: Option<DashMap<String, u64>> = None;
        std::mem::swap(&mut slot, &mut self.table);
        match slot {
            Some(t) => t,
            None => table_new(),
        }
    }

    /// A registry with no user.
    pub fn new() -> (r: Registry)
        ensures
            r@ == no_users(),
            all_names_valid(r@),
    {
        Registry { table: Some(table_new()) }
    }

    /// Takes the valid name `name` for `conn` where no user has it, in one
    /// step; says whether it did.
    pub fn claim(&mut self, name: String, conn: u64) -> (claimed: bool)
        requires
            valid_username(name@),
        ensures
            claimed == !old(self)@.contains_key(name@),
            final(self)@ == if claimed {
                old(self)@.insert(name@, conn)
            } else {
                old(self)@
            },
            all_names_valid(final(self)@),
    {
        proof {
            use_type_invariant(&*self);
        }
        let mut t = self.take_table();
        let claimed = table_claim(&mut t, name, conn);
        self.table = Some(t);
        claimed
    }

    /// Binds the user `name` to `conn`, in place of the connection it had.
    pub fn attach(&mut self, name: String, conn: u64)
        requires
            old(self)@.contains_key(name@),
        ensures
            final(self)@ == old(self)@.insert(name@, conn),
            all_names_valid(final(self)@),
    {
        proof {
            use_type_invariant(&*self);
        }
        let mut t = self.take_table();
        let _ = table_insert(&mut t, name, conn);
        self.table = Some(t);
    }

    /// Takes `name` out of the registry; returns the connection it had.
    pub fn remove(&mut self, name: &str) -> (conn: Option<u64>)
        ensures
            final(self)@ == old(self)@.remove(name@),
            conn == if old(self)@.contains_key(name@) {
                Some(old(self)@[name@])
            } else {
                None
            },
            all_names_valid(final(self)@),
    {
        proof {
            use_type_invariant(&*self);
        }
        let mut t = self.take_table();
        let removed = table_remove(&mut t, name);
        self.table = Some(t);
        match removed {
            Some((_, c)) => Some(c),
            None => None,
        }
    }

    /// Each user but `sender`, with its connection, once.
    pub fn recipients(&self, sender: &str) -> (r: Vec<(String, u64)>)
        ensures
            is_recipient_list(r@, self@, sender@),
            all_names_valid(self@),
    {
        proof {
            use_type_invariant(self);
        }
        let entries = match &self.table {
            Some(t) => table_entries(t),
            None => Vec::new(),
        };
        let sender_name = String::from_str(sender);
        let ghost table = self@;
        let mut out: Vec<(String, u64)> = Vec::new();
        let mut i: usize = 0;
        while i < entries.len()
            invariant
                i <= entries.len(),
                sender_name@ == sender@,
                lists_entries(entries@, table),
                forall|j: int|
                    0 <= j < out.len() ==> table.remove(sender@).contains_key(#[trigger] out@[j].0@)
                        && table.remove(sender@)[out@[j].0@] == out@[j].1,
                forall|j: int|
                    0 <= j < out.len() ==> exists|l: int|
                        0 <= l < i && #[trigger] out@[j].0@ == entries@[l].0@,
                forall|l: int|
                    0 <= l < i && entries@[l].0@ != sender@ ==> exists|j: int|
                        0 <= j < out.len() && #[trigger] out@[j].0@ == entries@[l].0@,
                forall|a: int, b: int|
                    0 <= a < b < out.len() ==> #[trigger] out@[a].0@ != #[trigger] out@[b].0@,
            decreases entries.len() - i,
        {
            let (name, conn) = (entries[i].0.clone(), entries[i].1);
            if !(name == sender_name) {
                let ghost before = out@;
                out.push((name, conn));
                proof {
                    assert(out@[out@.len() - 1].0@ == entries@[i as int].0@);
                    assert forall|j: int| 0 <= j < out.len() implies exists|l: int|
                        0 <= l < i + 1 && #[trigger] out@[j].0@ == entries@[l].0@ by {
                        if j < before.len() {
                            assert(out@[j] == before[j]);
                        } else {
                            assert(out@[j].0@ == entries@[i as int].0@);
                        }
                    }
                    assert forall|a: int, b: int|
                        0 <= a < b < out.len() implies #[trigger] out@[a].0@ != #[trigger] out@[b].0@ by {
                        if b == out.len() - 1 {
                            assert(out@[a] == before[a]);
                            let l = choose|l: int| 0 <= l < i && before[a].0@ == entries@[l].0@;
                            assert(entries@[l].0@ != entries@[i as int].0@);
                        } else {
                            assert(out@[a] == before[a]);
                            assert(out@[b] == before[b]);
                        }
                    }
                    assert forall|l: int|
                        0 <= l < i + 1 && entries@[l].0@ != sender@ implies exists|j: int|
                        0 <= j < out.len() && #[trigger] out@[j].0@ == entries@[l].0@ by {
                        if l < i {
                            let j = choose|j: int|
                                0 <= j < before.len() && #[trigger] before[j].0@ == entries@[l].0@;
                            assert(out@[j] == before[j]);
                        } else {
                            assert(out@[out@.len() - 1].0@ == entries@[l].0@);
                        }
                    }
                    assert forall|j: int| 0 <= j < out.len() implies table.remove(
                        sender@,
                    ).contains_key(#[trigger] out@[j].0@) && table.remove(sender@)[out@[j].0@]
                        == out@[j].1 by {
                        if j < before.len() {
                            assert(out@[j] == before[j]);
                        }
                    }
                }
            }
            i = i + 1;
        }
        proof {
            assert forall|k: Seq<char>| table.remove(sender@).contains_key(k) implies exists|j: int|
                0 <= j < out.len() && #[trigger] out@[j].0@ == k by {
                let l = choose|l: int| 0 <= l < entries.len() && #[trigger] entries@[l].0@ == k;
                assert(entries@[l].0@ != sender@);
            }
        }
        out
    }
}

} // verus!
