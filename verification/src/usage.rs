//! The usage counter: how many times each command has been attempted.
//!
//! The counter is an ordinary owned value: an increment takes `&mut self`, so
//! no two increments can interleave and none is lost. A program that counts
//! from several tasks keeps the counter behind a lock of its own.

use vstd::prelude::*;
use vstd::string::*;
use crate::assoc::{keys_distinct, lemma_place_of, lemma_put, lists, map_of, put};
use crate::text::same_text;

verus! {

/// One line of a usage snapshot.
pub struct UsageEntry {
    pub name: String,
    pub count: u64,
}

/// Counts attempted dispatches per command name.
pub struct UsageCounter {
    entries: Vec<UsageEntry>,
}

/// A list of names with their counts.
pub type Listing = Seq<(Seq<char>, nat)>;

/// A count after one more attempt; it stops at `u64::MAX` rather than wrap.
pub open spec fn bumped(count: nat) -> nat {
    if count < u64::MAX {
        count + 1
    } else {
        count
    }
}

/// The count of `name` in `counts`, zero if it is absent.
pub open spec fn count_in(counts: Map<Seq<char>, nat>, name: Seq<char>) -> nat {
    if counts.dom().contains(name) {
        counts[name]
    } else {
        0
    }
}

/// The counts after one more attempt of `name`.
pub open spec fn counted(counts: Map<Seq<char>, nat>, name: Seq<char>) -> Map<Seq<char>, nat> {
    counts.insert(name, bumped(count_in(counts, name)))
}

/// The counts after `n` more attempts of `name`.
pub open spec fn counted_times(counts: Map<Seq<char>, nat>, name: Seq<char>, n: nat) -> Map<
    Seq<char>,
    nat,
>
    decreases n,
{
    if n == 0 {
        counts
    } else {
        counted(counted_times(counts, name, (n - 1) as nat), name)
    }
}

/// No attempt is lost or counted twice: after `n` attempts of `name` its
/// count is higher by exactly `n`, as long as it stays within `u64`, and no
/// other count has moved.
pub proof fn lemma_no_lost_updates(counts: Map<Seq<char>, nat>, name: Seq<char>, n: nat)
    requires
        count_in(counts, name) + n <= u64::MAX,
    ensures
        count_in(counted_times(counts, name, n), name) == count_in(counts, name) + n,
        forall|other: Seq<char>|
            other != name ==> count_in(counted_times(counts, name, n), other) == count_in(
                counts,
                other,
            ),
    decreases n,
{
    if n > 0 {
        lemma_no_lost_updates(counts, name, (n - 1) as nat);
    }
}

/// A count never goes down, whatever is attempted.
pub proof fn lemma_counts_never_decrease(counts: Map<Seq<char>, nat>, name: Seq<char>)
    ensures
        forall|any: Seq<char>| count_in(counted(counts, name), any) >= count_in(counts, any),
{
}

/// The listing after one more attempt of `name`: its line is bumped where it
/// stands, or added at the end.
pub open spec fn listed(l: Listing, name: Seq<char>) -> Listing {
    put(l, name, bumped(count_in(map_of(l), name)))
}

spec fn listing_of(es: Seq<UsageEntry>) -> Listing {
    Seq::new(es.len(), |i: int| (es[i].name@, es[i].count as nat))
}

impl View for UsageCounter {
    type V = Map<Seq<char>, nat>;

    /// The counts by command name; a name that was never counted is absent.
    open spec fn view(&self) -> Map<Seq<char>, nat> {
        map_of(self.listing())
    }
}

impl UsageCounter {
    /// No name is listed twice.
    #[verifier::type_invariant]
    pub closed spec fn wf(&self) -> bool {
        keys_distinct(listing_of(self.entries@))
    }

    /// The names in the order in which they were first counted, each with
    /// its count.
    pub closed spec fn listing(&self) -> Listing {
        listing_of(self.entries@)
    }

    /// The count of `name`, zero if it was never counted.
    pub open spec fn count(&self, name: Seq<char>) -> nat {
        count_in(self@, name)
    }

    /// A well-formed counter lists no name twice.
    pub proof fn lemma_wf(&self)
        requires
            self.wf(),
        ensures
            keys_distinct(self.listing()),
    {
    }

    /// A counter that has counted nothing.
    pub fn new() -> (c: Self)
        ensures
            c.wf(),
            c.listing() == Listing::empty(),
            c@ == Map::<Seq<char>, nat>::empty(),
    {
        let c = UsageCounter { entries: Vec::new() };
        assert(c.listing() =~= Listing::empty());
        assert(c@ =~= Map::<Seq<char>, nat>::empty());
        c
    }

    fn find(&self, name: &str) -> (r: Option<usize>)
        ensures
            match r {
                Some(i) => i < self.entries.len() && self.entries[i as int].name@ == name@,
                None => !lists(self.listing(), name@),
            },
    {
        let mut i: usize = 0;
        while i < self.entries.len()
            invariant
                i <= self.entries.len(),
                forall|j: int| 0 <= j < i ==> self.entries[j].name@ != name@,
            decreases self.entries.len() - i,
        {
            if same_text(self.entries[i].name.as_str(), name) {
                return Some(i);
            }
            i += 1;
        }
        None
    }

    /// Counts one more attempt of `name`. The other counts stay as they are,
    /// and no count ever goes down.
    pub fn increment(&mut self, name: &str)
        ensures
            final(self).wf(),
            final(self).listing() == listed(old(self).listing(), name@),
            final(self)@ == counted(old(self)@, name@),
            forall|any: Seq<char>| final(self).count(any) >= old(self).count(any),
    {
        proof {
            use_type_invariant(&*self);
            lemma_put(self.listing(), name@, bumped(count_in(map_of(self.listing()), name@)));
        }
        let found = self.find(name);
        let ghost before = self.listing();
        let mut entries: Vec<UsageEntry> = Vec::new();
        std::mem::swap(&mut self.entries, &mut entries);
        match found {
            Some(i) => {
                proof {
                    lemma_place_of(before, i as int);
                }
                let c = entries[i].count;
                if c < u64::MAX {
                    entries[i].count = c + 1;
                }
            },
            None => {
                entries.push(UsageEntry { name: String::from_str(name), count: 1 });
            },
        }
        assert(listing_of(entries@) =~= listed(before, name@));
        std::mem::swap(&mut self.entries, &mut entries);
    }

    /// The present count of `name`.
    pub fn get(&self, name: &str) -> (n: u64)
        ensures
            n == self.count(name@),
    {
        proof {
            use_type_invariant(self);
        }
        match self.find(name) {
            Some(i) => {
                proof {
                    lemma_place_of(self.listing(), i as int);
                }
                self.entries[i].count
            },
            None => 0,
        }
    }

    /// A copy of the counts as they are now, in the order in which the names
    /// were first counted.
    pub fn snapshot(&self) -> (v: Vec<UsageEntry>)
        ensures
            snapshot_view(v@) == self.listing(),
    {
        let mut v: Vec<UsageEntry> = Vec::new();
        let mut i: usize = 0;
        while i < self.entries.len()
            invariant
                i <= self.entries.len(),
                v.len() == i,
                forall|j: int|
                    0 <= j < i ==> (#[trigger] v[j]).name@ == self.entries[j].name@ && v[j].count
                        == self.entries[j].count,
            decreases self.entries.len() - i,
        {
            v.push(UsageEntry { name: self.entries[i].name.clone(), count: self.entries[i].count });
            i += 1;
        }
        assert(snapshot_view(v@) =~= self.listing());
        v
    }
}

/// What a snapshot lists.
pub open spec fn snapshot_view(entries: Seq<UsageEntry>) -> Listing {
    Seq::new(entries.len(), |i: int| (entries[i].name@, entries[i].count as nat))
}

} // verus!
