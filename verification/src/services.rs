//! A small table from service names to their status, in the order in which
//! the names were first entered.

use vstd::prelude::*;

verus! {

/// Service names with their status.
#[derive(Clone, Debug)]
pub struct ServiceTable {
    pub entries: Vec<(String, String)>,
}

/// The position of the first entry for `name`, or the number of entries
/// when there is none.
pub open spec fn position_of(entries: Seq<(Seq<char>, Seq<char>)>, name: Seq<char>) -> nat
    decreases entries.len(),
{
    if entries.len() == 0 || entries[0].0 == name {
        0
    } else {
        1 + position_of(entries.drop_first(), name)
    }
}

/// The status entered for `name`, if any.
pub open spec fn status_of(entries: Seq<(Seq<char>, Seq<char>)>, name: Seq<char>) -> Option<
    Seq<char>,
> {
    let at = position_of(entries, name) as int;
    if at < entries.len() {
        Some(entries[at].1)
    } else {
        None
    }
}

/// The entries after `status` is entered for `name`: it takes the place of
/// an earlier status for that name, or goes to the end.
pub open spec fn entered(
    entries: Seq<(Seq<char>, Seq<char>)>,
    name: Seq<char>,
    status: Seq<char>,
) -> Seq<(Seq<char>, Seq<char>)> {
    let at = position_of(entries, name) as int;
    if at < entries.len() {
        entries.update(at, (name, status))
    } else {
        entries.push((name, status))
    }
}

/// The first entry for a name is an entry for that name, and none before
/// it is.
pub proof fn lemma_position_of(entries: Seq<(Seq<char>, Seq<char>)>, name: Seq<char>)
    ensures
        position_of(entries, name) <= entries.len(),
        position_of(entries, name) < entries.len() ==> entries[position_of(
            entries,
            name,
        ) as int].0 == name,
        forall|k: int| 0 <= k < position_of(entries, name) ==> (#[trigger] entries[k]).0 != name,
    decreases entries.len(),
{
    if entries.len() > 0 && entries[0].0 != name {
        let rest = entries.drop_first();
        lemma_position_of(rest, name);
        assert forall|k: int| 0 <= k < position_of(entries, name) implies (#[trigger] entries[k]).0
            != name by {
            if k > 0 {
                assert(entries[k] == rest[k - 1]);
            }
        }
    }
}

proof fn lemma_position_found(entries: Seq<(Seq<char>, Seq<char>)>, name: Seq<char>, at: int)
    requires
        0 <= at <= entries.len(),
        forall|k: int| 0 <= k < at ==> (#[trigger] entries[k]).0 != name,
        at == entries.len() || entries[at].0 == name,
    ensures
        position_of(entries, name) == at,
    decreases at,
{
    if at > 0 {
        let rest = entries.drop_first();
        assert forall|k: int| 0 <= k < at - 1 implies (#[trigger] rest[k]).0 != name by {
            assert(rest[k] == entries[k + 1]);
        }
        lemma_position_found(rest, name, at - 1);
    }
}

/// After a status is entered for a name, that name has that status and every
/// other name has the status it had.
pub proof fn lemma_entered(
    entries: Seq<(Seq<char>, Seq<char>)>,
    name: Seq<char>,
    status: Seq<char>,
    other: Seq<char>,
)
    ensures
        status_of(entered(entries, name, status), name) == Some(status),
        other != name ==> status_of(entered(entries, name, status), other) == status_of(
            entries,
            other,
        ),
{
    let after = entered(entries, name, status);
    let at = position_of(entries, name) as int;
    lemma_position_of(entries, name);
    assert forall|k: int| 0 <= k < at implies (#[trigger] after[k]).0 != name by {
        assert(after[k] == entries[k]);
    }
    lemma_position_found(after, name, at);
    if other != name {
        let there = position_of(entries, other) as int;
        lemma_position_of(entries, other);
        assert forall|k: int| 0 <= k < there implies (#[trigger] after[k]).0 != other by {
            if k < entries.len() && k != at {
                assert(after[k] == entries[k]);
            }
        }
        if there < entries.len() {
            assert(after[there] == entries[there]);
            lemma_position_found(after, other, there);
        } else {
            lemma_position_found(after, other, after.len() as int);
        }
    }
}

impl View for ServiceTable {
    type V = Seq<(Seq<char>, Seq<char>)>;

    open spec fn view(&self) -> Seq<(Seq<char>, Seq<char>)> {
        self.entries@.map_values(|e: (String, String)| (e.0@, e.1@))
    }
}

impl ServiceTable {
    /// A table without entries.
    pub fn new() -> (table: ServiceTable)
        ensures
            table@.len() == 0,
    {
        ServiceTable { entries: Vec::new() }
    }

    fn find(&self, name: &str) -> (at: usize)
        ensures
            at == position_of(self@, name@),
            at <= self.entries.len(),
    {
        let mut at: usize = 0;
        while at < self.entries.len()
            invariant
                at <= self.entries.len(),
                forall|k: int| 0 <= k < at ==> (#[trigger] self@[k]).0 != name@,
            decreases self.entries.len() - at,
        {
            assert(self@[at as int].0 == self.entries@[at as int].0@);
            if str_equal(self.entries[at].0.as_str(), name) {
                proof {
                    lemma_position_found(self@, name@, at as int);
                }
                return at;
            }
            at = at + 1;
        }
        proof {
            lemma_position_found(self@, name@, at as int);
        }
        at
    }

    /// Enters `status` for `name`, in place of any status entered for it
    /// before. Afterwards `name` has that status, and every other name has
    /// the status it had.
    pub fn insert(&mut self, name: String, status: String)
        ensures
            final(self)@ == entered(old(self)@, name@, status@),
            status_of(final(self)@, name@) == Some(status@),
            forall|other: Seq<char>|
                #![trigger status_of(final(self)@, other)]
                other != name@ ==> status_of(final(self)@, other) == status_of(old(self)@, other),
    {
        let at = self.find(name.as_str());
        let ghost wanted = entered(self@, name@, status@);
        proof {
            lemma_entered(self@, name@, status@, name@);
            assert forall|other: Seq<char>| other != name@ implies #[trigger] status_of(
                wanted,
                other,
            ) == status_of(self@, other) by {
                lemma_entered(self@, name@, status@, other);
            }
        }
        if at < self.entries.len() {
            self.entries.remove(at);
            self.entries.insert(at, (name, status));
            assert(self@ =~= wanted);
        } else {
            self.entries.push((name, status));
            assert(self@ =~= wanted);
        }
    }

    /// The status entered for `name`, if any.
    pub fn get(&self, name: &str) -> (status: Option<&String>)
        ensures
            status_of(self@, name@) == (match status {
                Some(found) => Some(found@),
                None => None,
            }),
    {
        let at = self.find(name);
        if at < self.entries.len() {
            assert(self@[at as int].1 == self.entries@[at as int].1@);
            Some(&self.entries[at].1)
        } else {
            None
        }
    }

    /// The number of entries.
    pub fn len(&self) -> (count: usize)
        ensures
            count == self@.len(),
    {
        self.entries.len()
    }

    /// Removes every entry.
    pub fn clear(&mut self)
        ensures
            final(self)@.len() == 0,
    {
        self.entries.clear();
    }
}

/// Whether two strings hold the same characters.
pub fn str_equal(a: &str, b: &str) -> (same: bool)
    ensures
        same == (a@ == b@),
{
    let left = crate::text::to_chars(a);
    let right = crate::text::to_chars(b);
    crate::text::chars_equal(&left, &right)
}

} // verus!
