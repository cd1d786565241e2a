//! What was learnt of a series, kept by the name it was searched under.

use vstd::prelude::*;

verus! {

/// What the movie database said of one series: the series and one of its
/// seasons, each as the text of the answer.
#[derive(Debug, Clone)]
pub struct CachedShow {
    pub name: String,
    pub series: String,
    pub season_info: String,
}

/// The answers kept, at most one for a name in use: a lookup finds the
/// first entry of a name.
#[derive(Debug)]
pub struct TvShowCache {
    pub entries: Vec<CachedShow>,
}

/// What a lookup of `name` finds among `entries`: the series and the season
/// of the first entry of that name.
pub open spec fn lookup(entries: Seq<CachedShow>, name: Seq<char>) -> Option<(Seq<char>, Seq<char>)>
    decreases entries.len(),
{
    if entries.len() == 0 {
        None
    } else if entries[0].name@ == name {
        Some((entries[0].series@, entries[0].season_info@))
    } else {
        lookup(entries.drop_first(), name)
    }
}

/// A lookup that passes the first `k` entries, none of which has the name,
/// finds what a lookup among the rest finds.
pub proof fn lemma_lookup_skips(entries: Seq<CachedShow>, name: Seq<char>, k: int)
    requires
        0 <= k <= entries.len(),
        forall|j: int| 0 <= j < k ==> entries[j].name@ != name,
    ensures
        lookup(entries, name) == lookup(entries.subrange(k, entries.len() as int), name),
    decreases k,
{
    if k == 0 {
        assert(entries.subrange(0, entries.len() as int) =~= entries);
    } else {
        let rest = entries.drop_first();
        assert forall|j: int| 0 <= j < k - 1 implies rest[j].name@ != name by {
            assert(rest[j] == entries[j + 1]);
        }
        lemma_lookup_skips(rest, name, k - 1);
        assert(rest.subrange(k - 1, rest.len() as int) =~= entries.subrange(
            k,
            entries.len() as int,
        ));
    }
}

/// Changing an entry's answers, or adding an entry of a new name at the end,
/// changes what a lookup of that name finds and nothing else.
pub proof fn lemma_lookup_after_put(
    before: Seq<CachedShow>,
    after: Seq<CachedShow>,
    k: int,
    name: Seq<char>,
    other: Seq<char>,
)
    requires
        0 <= k <= before.len(),
        forall|j: int| 0 <= j < k ==> before[j].name@ != name,
        k < before.len() ==> before[k].name@ == name && after.len() == before.len(),
        k == before.len() ==> after.len() == before.len() + 1,
        after[k].name@ == name,
        forall|j: int| 0 <= j < before.len() && j != k ==> after[j] == before[j],
    ensures
        lookup(after, name) == Some((after[k].series@, after[k].season_info@)),
        other != name ==> lookup(after, other) == lookup(before, other),
    decreases before.len(),
{
    if k == 0 {
        if other != name {
            if before.len() > 0 {
                assert(after.drop_first() =~= before.drop_first());
            } else {
                assert(after.drop_first() =~= before);
            }
        }
    } else {
        assert(after[0] == before[0]);
        let before_rest = before.drop_first();
        let after_rest = after.drop_first();
        assert forall|j: int| 0 <= j < k - 1 implies before_rest[j].name@ != name by {
            assert(before_rest[j] == before[j + 1]);
        }
        assert forall|j: int| 0 <= j < before_rest.len() && j != k - 1 implies after_rest[j]
            == before_rest[j] by {
            assert(after_rest[j] == after[j + 1]);
            assert(before_rest[j] == before[j + 1]);
        }
        lemma_lookup_after_put(before_rest, after_rest, k - 1, name, other);
    }
}

impl TvShowCache {
    /// A cache without entries.
    pub fn new() -> (cache: TvShowCache)
        ensures
            cache.entries@.len() == 0,
    {
        TvShowCache { entries: Vec::new() }
    }

    /// The place of the first entry of `name`.
    fn position(&self, name: &str) -> (at: usize)
        ensures
            at <= self.entries@.len(),
            forall|j: int| 0 <= j < at ==> self.entries@[j].name@ != name@,
            at < self.entries@.len() ==> self.entries@[at as int].name@ == name@,
    {
        let wanted = name.to_owned();
        let mut at: usize = 0;
        while at < self.entries.len()
            invariant
                wanted@ == name@,
                at <= self.entries@.len(),
                forall|j: int| 0 <= j < at ==> self.entries@[j].name@ != name@,
            decreases self.entries@.len() - at,
        {
            if self.entries[at].name == wanted {
                return at;
            }
            at = at + 1;
        }
        at
    }

    /// Looks up what is kept of the series searched under `name`.
    pub fn get(&self, name: &str) -> (found: Option<&CachedShow>)
        ensures
            match found {
                Some(show) => lookup(self.entries@, name@) == Some((show.series@, show.season_info@)),
                None => lookup(self.entries@, name@) is None,
            },
    {
        let at = self.position(name);
        proof {
            lemma_lookup_skips(self.entries@, name@, at as int);
            if at == self.entries@.len() {
                assert(self.entries@.subrange(at as int, at as int).len() == 0);
            }
        }
        if at < self.entries.len() {
            Some(&self.entries[at])
        } else {
            None
        }
    }

    /// Keeps the answers for the series searched under `name`, in place of
    /// what was kept for that name.
    pub fn insert(&mut self, name: String, series: String, season_info: String)
        ensures
            lookup(final(self).entries@, name@) == Some((series@, season_info@)),
            forall|other: Seq<char>|
                other != name@ ==> #[trigger] lookup(final(self).entries@, other) == lookup(
                    old(self).entries@,
                    other,
                ),
    {
        let at = self.position(name.as_str());
        let show = CachedShow { name, series, season_info };
        if at < self.entries.len() {
            self.entries.set(at, show);
        } else {
            self.entries.push(show);
        }
        proof {
            assert forall|other: Seq<char>| other != name@ implies #[trigger] lookup(
                self.entries@,
                other,
            ) == lookup(old(self).entries@, other) by {
                lemma_lookup_after_put(old(self).entries@, self.entries@, at as int, name@, other);
            }
            lemma_lookup_after_put(old(self).entries@, self.entries@, at as int, name@, name@);
        }
    }
}

/// Empties the cache.
pub fn clean_cache(cache: &mut TvShowCache)
    ensures
        final(cache).entries@.len() == 0,
        forall|name: Seq<char>| #[trigger] lookup(final(cache).entries@, name) is None,
{
    cache.entries.clear();
}

} // verus!
