//! The store behind the statistics: a table of hours, each with a table of
//! versions per category.

use crate::counts::{count_in, mergeable, merged, Category, Counts, Key};
use crate::stats::{lists, Entry, StatsError};
use crate::table::Table;
use vstd::prelude::*;

verus! {

/// The counters of one hour: for each category, a count per version.
pub(crate) struct HourStats {
    client: Table<u64>,
    bundler: Table<u64>,
    runtime: Table<u64>,
}

impl HourStats {
    /// Each of the three tables is well formed.
    spec fn wf(&self) -> bool {
        &&& self.client.wf()
        &&& self.bundler.wf()
        &&& self.runtime.wf()
    }

    /// The counts of one category, by version.
    spec fn table(&self, category: Category) -> Table<u64> {
        match category {
            Category::Client => self.client,
            Category::Bundler => self.bundler,
            Category::Runtime => self.runtime,
        }
    }

    /// An hour in which nothing was seen yet.
    fn new() -> (h: Self)
        ensures
            h.wf(),
            forall|c: Category| #[trigger] h.table(c)@ == Map::<Seq<char>, u64>::empty(),
    {
        let h = HourStats { client: Table::new(), bundler: Table::new(), runtime: Table::new() };
        assert forall|c: Category| #[trigger] h.table(c)@ == Map::<Seq<char>, u64>::empty() by {
            assert(h.table(c)@ =~= Map::<Seq<char>, u64>::empty());
        }
        h
    }

    /// The counts of one category, to be read.
    fn table_ref(&self, category: Category) -> (t: &Table<u64>)
        ensures
            *t == self.table(category),
    {
        match category {
            Category::Client => &self.client,
            Category::Bundler => &self.bundler,
            Category::Runtime => &self.runtime,
        }
    }

    /// The counts of one category, to be changed in place.
    fn table_mut(&mut self, category: Category) -> (t: &mut Table<u64>)
        ensures
            *t == old(self).table(category),
            final(self).table(category) == *final(t),
            forall|c: Category| c != category ==> final(self).table(c) == old(self).table(c),
    {
        match category {
            Category::Client => &mut self.client,
            Category::Bundler => &mut self.bundler,
            Category::Runtime => &mut self.runtime,
        }
    }
}

/// The counters of one category of one hour that stand at the first `n`
/// positions of `table`.
spec fn table_part(hour: Seq<char>, category: Category, table: Table<u64>, n: int) -> Counts {
    Map::new(
        |k: Key|
            k.hour == hour && k.category == category && table.slots().contains_key(k.version)
                && table.slots()[k.version] < n,
        |k: Key| table.values()[table.slots()[k.version]] as nat,
    )
}

/// The counters of one hour.
spec fn hour_part(hour: Seq<char>, stats: HourStats) -> Counts {
    Map::new(
        |k: Key| k.hour == hour && stats.table(k.category)@.contains_key(k.version),
        |k: Key| stats.table(k.category)@[k.version] as nat,
    )
}

/// A list of distinct counters stays one when a counter that it lacks is
/// appended.
proof fn lemma_lists_push(entries: Seq<Entry>, counts: Counts, entry: Entry)
    requires
        lists(entries, counts),
        !counts.contains_key(entry.key()),
    ensures
        lists(entries.push(entry), counts.insert(entry.key(), entry.count as nat)),
{
    let longer = entries.push(entry);
    let more = counts.insert(entry.key(), entry.count as nat);
    assert forall|k: Key| more.contains_key(k) implies exists|i: int|
        0 <= i < longer.len() && #[trigger] longer[i].key() == k by {
        if k == entry.key() {
            assert(longer[entries.len() as int].key() == k);
        } else {
            let i = choose|i: int| 0 <= i < entries.len() && #[trigger] entries[i].key() == k;
            assert(longer[i].key() == k);
        }
    }
}

/// A counter for every (hour, category, version) triple that was seen.
pub(crate) struct Ledger {
    hours: Table<HourStats>,
}

impl Ledger {
    /// Every table of the structure is well formed.
    pub(crate) closed spec fn wf(&self) -> bool {
        &&& self.hours.wf()
        &&& forall|i: int| 0 <= i < self.hours.values().len() ==> (#[trigger] self.hours.values()[i]).wf()
    }

    /// The counters that are present, each with its count.
    pub(crate) closed spec fn view(&self) -> Counts {
        Map::new(
            |k: Key|
                self.hours@.contains_key(k.hour) && self.hours@[k.hour].table(
                    k.category,
                )@.contains_key(k.version),
            |k: Key| self.hours@[k.hour].table(k.category)@[k.version] as nat,
        )
    }

    /// Every count fits in 64 bits.
    pub(crate) proof fn lemma_counts_fit(&self)
        ensures
            forall|k: Key| #[trigger] count_in(self@, k) <= u64::MAX,
    {
    }

    /// A ledger without any counter.
    pub(crate) fn new() -> (m: Self)
        ensures
            m.wf(),
            m@ == Map::<Key, nat>::empty(),
    {
        let m = Ledger { hours: Table::new() };
        assert(m@ =~= Map::<Key, nat>::empty());
        m
    }

    /// Adds `n` to one counter, creating the counter if it is absent. Where
    /// the sum does not fit, nothing changes.
    pub(crate) fn add(&mut self, hour: &str, category: Category, version: &str, n: u64) -> (r: Result<
        (),
        StatsError,
    >)
        requires
            old(self).wf(),
        ensures
            final(self).wf(),
            ({
                let key = Key { hour: hour@, category, version: version@ };
                let sum = count_in(old(self)@, key) + n;
                match r {
                    Ok(_) => sum <= u64::MAX && final(self)@ == old(self)@.insert(key, sum as nat),
                    Err(e) => e == StatsError::CounterOverflow && sum > u64::MAX && final(self)@
                        == old(self)@,
                }
            }),
    {
        let ghost key = Key { hour: hour@, category, version: version@ };
        let h = match self.hours.find(hour) {
            Some(h) => h,
            None => {
                self.hours.push(hour.to_owned(), HourStats::new());
                assert(self@ =~= old(self)@);
                self.hours.len() - 1
            },
        };
        let ghost before = *self;
        let stats = self.hours.value_at_mut(h);
        let table = stats.table_mut(category);
        let r = match table.find(version) {
            Some(v) => {
                let slot = table.value_at_mut(v);
                match slot.checked_add(n) {
                    Some(sum) => {
                        *slot = sum;
                        Ok(())
                    },
                    None => Err(StatsError::CounterOverflow),
                }
            },
            None => {
                table.push(version.to_owned(), n);
                Ok(())
            },
        };
        proof {
            assert forall|i: int| 0 <= i < self.hours.values().len() implies (
            #[trigger] self.hours.values()[i]).wf() by {
                if i == h {
                    let now = self.hours.values()[i];
                    let was = before.hours.values()[i];
                    assert(was.wf());
                    assert(forall|c: Category| c != category ==> now.table(c) == was.table(c));
                    assert(now.table(Category::Client).wf());
                    assert(now.table(Category::Bundler).wf());
                    assert(now.table(Category::Runtime).wf());
                } else {
                    assert(self.hours.values()[i] == before.hours.values()[i]);
                }
            }
            if r is Ok {
                assert(self@ =~= before@.insert(key, (count_in(before@, key) + n) as nat));
            } else {
                assert(self@ =~= before@);
            }
        }
        r
    }

    /// The counters of the hours that stand at the first `n` positions.
    spec fn first_hours(&self, n: int) -> Counts {
        Map::new(
            |k: Key| self@.contains_key(k) && self.hours.slots()[k.hour] < n,
            |k: Key| self@[k],
        )
    }

    /// Adds every count of one category of one hour to the counter of the
    /// same name. Stops at the first sum that does not fit.
    fn absorb_table(&mut self, hour: &str, category: Category, table: &Table<u64>) -> (r: Result<
        (),
        StatsError,
    >)
        requires
            old(self).wf(),
            table.wf(),
        ensures
            final(self).wf(),
            ({
                let part = table_part(hour@, category, *table, table.keys().len() as int);
                match r {
                    Ok(_) => mergeable(old(self)@, part) && final(self)@ == merged(
                        old(self)@,
                        part,
                    ),
                    Err(e) => e == StatsError::CounterOverflow && !mergeable(old(self)@, part),
                }
            }),
    {
        let n = table.len();
        let ghost full = table_part(hour@, category, *table, n as int);
        let mut j: usize = 0;
        assert(self@ =~= merged(old(self)@, table_part(hour@, category, *table, 0)));
        while j < n
            invariant
                self.wf(),
                table.wf(),
                n == table.keys().len(),
                j <= n,
                full == table_part(hour@, category, *table, n as int),
                self@ == merged(old(self)@, table_part(hour@, category, *table, j as int)),
            decreases n - j,
        {
            let ghost key = Key { hour: hour@, category, version: table.keys()[j as int] };
            let ghost done = table_part(hour@, category, *table, j as int);
            assert(!done.contains_key(key));
            assert(full.contains_key(key) && full[key] == table.values()[j as int]);
            match self.add(hour, category, table.key_at(j).as_str(), *table.value_at(j)) {
                Ok(_) => {},
                Err(e) => {
                    assert(count_in(old(self)@, key) + count_in(full, key) > u64::MAX);
                    return Err(e);
                },
            }
            j += 1;
            assert(self@ =~= merged(old(self)@, table_part(hour@, category, *table, j as int)));
        }
        assert forall|k: Key| #[trigger] count_in(old(self)@, k) + count_in(full, k) <= u64::MAX by {
            assert(count_in(self@, k) == count_in(old(self)@, k) + count_in(full, k));
        }
        Ok(())
    }

    /// Adds every count of one hour to the counter of the same name. Stops at
    /// the first sum that does not fit.
    fn absorb_hour(&mut self, hour: &str, stats: &HourStats) -> (r: Result<(), StatsError>)
        requires
            old(self).wf(),
            stats.wf(),
        ensures
            final(self).wf(),
            match r {
                Ok(_) => mergeable(old(self)@, hour_part(hour@, *stats)) && final(self)@ == merged(
                    old(self)@,
                    hour_part(hour@, *stats),
                ),
                Err(e) => e == StatsError::CounterOverflow && !mergeable(
                    old(self)@,
                    hour_part(hour@, *stats),
                ),
            },
    {
        let ghost whole = hour_part(hour@, *stats);
        let ghost clients = table_part(
            hour@,
            Category::Client,
            stats.client,
            stats.client.keys().len() as int,
        );
        let ghost bundlers = table_part(
            hour@,
            Category::Bundler,
            stats.bundler,
            stats.bundler.keys().len() as int,
        );
        let ghost runtimes = table_part(
            hour@,
            Category::Runtime,
            stats.runtime,
            stats.runtime.keys().len() as int,
        );
        proof {
            assert forall|k: Key|
                count_in(whole, k) == count_in(clients, k) + count_in(bundlers, k) + count_in(
                    runtimes,
                    k,
                ) && whole.contains_key(k) == (clients.contains_key(k) || bundlers.contains_key(k)
                    || runtimes.contains_key(k)) by {
                assert(stats.table(Category::Client) == stats.client);
                assert(stats.table(Category::Bundler) == stats.bundler);
                assert(stats.table(Category::Runtime) == stats.runtime);
            }
        }
        match self.absorb_table(hour, Category::Client, &stats.client) {
            Ok(_) => {},
            Err(e) => {
                proof {
                    let k = choose|k: Key| count_in(old(self)@, k) + count_in(clients, k) > u64::MAX;
                    assert(count_in(old(self)@, k) + count_in(whole, k) > u64::MAX);
                }
                return Err(e);
            },
        }
        let ghost first = self@;
        match self.absorb_table(hour, Category::Bundler, &stats.bundler) {
            Ok(_) => {},
            Err(e) => {
                proof {
                    let k = choose|k: Key| count_in(first, k) + count_in(bundlers, k) > u64::MAX;
                    assert(count_in(old(self)@, k) + count_in(whole, k) > u64::MAX);
                }
                return Err(e);
            },
        }
        let ghost second = self@;
        match self.absorb_table(hour, Category::Runtime, &stats.runtime) {
            Ok(_) => {},
            Err(e) => {
                proof {
                    let k = choose|k: Key| count_in(second, k) + count_in(runtimes, k) > u64::MAX;
                    assert(count_in(old(self)@, k) + count_in(whole, k) > u64::MAX);
                }
                return Err(e);
            },
        }
        proof {
            assert(self@ =~= merged(old(self)@, whole));
            assert forall|k: Key| #[trigger]
                count_in(old(self)@, k) + count_in(whole, k) <= u64::MAX by {
                assert(count_in(self@, k) == count_in(old(self)@, k) + count_in(whole, k));
            }
        }
        Ok(())
    }

    /// Adds every count of `other` to the counter of the same name. Stops at
    /// the first sum that does not fit, with some of the counts added.
    pub(crate) fn absorb(&mut self, other: &Ledger) -> (r: Result<(), StatsError>)
        requires
            old(self).wf(),
            other.wf(),
        ensures
            final(self).wf(),
            match r {
                Ok(_) => mergeable(old(self)@, other@) && final(self)@ == merged(
                    old(self)@,
                    other@,
                ),
                Err(e) => e == StatsError::CounterOverflow && !mergeable(old(self)@, other@),
            },
    {
        let n = other.hours.len();
        let mut i: usize = 0;
        assert(self@ =~= merged(old(self)@, other.first_hours(0)));
        while i < n
            invariant
                self.wf(),
                other.wf(),
                n == other.hours.keys().len(),
                i <= n,
                self@ == merged(old(self)@, other.first_hours(i as int)),
            decreases n - i,
        {
            let ghost hour = other.hours.keys()[i as int];
            let ghost part = hour_part(hour, other.hours.values()[i as int]);
            let ghost done = other.first_hours(i as int);
            let ghost before = self@;
            assert(other.hours.values()[i as int].wf());
            assert forall|k: Key| part.contains_key(k) implies !done.contains_key(k)
                && other@.contains_key(k) && other@[k] == part[k] by {}
            match self.absorb_hour(other.hours.key_at(i).as_str(), other.hours.value_at(i)) {
                Ok(_) => {},
                Err(e) => {
                    proof {
                        let k = choose|k: Key| count_in(before, k) + count_in(part, k) > u64::MAX;
                        assert(count_in(old(self)@, k) + count_in(other@, k) > u64::MAX);
                    }
                    return Err(e);
                },
            }
            i += 1;
            assert(self@ =~= merged(old(self)@, other.first_hours(i as int)));
        }
        proof {
            assert(other.first_hours(n as int) =~= other@);
            assert forall|k: Key| #[trigger]
                count_in(old(self)@, k) + count_in(other@, k) <= u64::MAX by {
                assert(count_in(self@, k) == count_in(old(self)@, k) + count_in(other@, k));
            }
        }
        Ok(())
    }

    /// Appends the counters of one category of one hour to a list.
    fn list_table(
        hour: &String,
        category: Category,
        table: &Table<u64>,
        out: &mut Vec<Entry>,
        Ghost(base): Ghost<Counts>,
    )
        requires
            table.wf(),
            lists(old(out)@, base),
            forall|k: Key| base.contains_key(k) ==> !(k.hour == hour@ && k.category == category),
        ensures
            lists(
                final(out)@,
                base.union_prefer_right(
                    table_part(hour@, category, *table, table.keys().len() as int),
                ),
            ),
    {
        let n = table.len();
        let mut j: usize = 0;
        assert(base.union_prefer_right(table_part(hour@, category, *table, 0)) =~= base);
        while j < n
            invariant
                table.wf(),
                n == table.keys().len(),
                j <= n,
                forall|k: Key|
                    base.contains_key(k) ==> !(k.hour == hour@ && k.category == category),
                lists(
                    out@,
                    base.union_prefer_right(table_part(hour@, category, *table, j as int)),
                ),
            decreases n - j,
        {
            let entry = Entry {
                hour: hour.clone(),
                category,
                version: table.key_at(j).clone(),
                count: *table.value_at(j),
            };
            proof {
                let so_far = base.union_prefer_right(table_part(hour@, category, *table, j as int));
                lemma_lists_push(out@, so_far, entry);
                assert(so_far.insert(entry.key(), entry.count as nat) =~= base.union_prefer_right(
                    table_part(hour@, category, *table, j + 1),
                ));
            }
            out.push(entry);
            j += 1;
        }
    }

    /// Appends the counters of one hour to a list.
    fn list_hour(hour: &String, stats: &HourStats, out: &mut Vec<Entry>, Ghost(base): Ghost<Counts>)
        requires
            stats.wf(),
            lists(old(out)@, base),
            forall|k: Key| base.contains_key(k) ==> k.hour != hour@,
        ensures
            lists(final(out)@, base.union_prefer_right(hour_part(hour@, *stats))),
    {
        let ghost clients = table_part(
            hour@,
            Category::Client,
            stats.client,
            stats.client.keys().len() as int,
        );
        let ghost bundlers = table_part(
            hour@,
            Category::Bundler,
            stats.bundler,
            stats.bundler.keys().len() as int,
        );
        let ghost runtimes = table_part(
            hour@,
            Category::Runtime,
            stats.runtime,
            stats.runtime.keys().len() as int,
        );
        Self::list_table(hour, Category::Client, &stats.client, out, Ghost(base));
        let ghost first = base.union_prefer_right(clients);
        Self::list_table(hour, Category::Bundler, &stats.bundler, out, Ghost(first));
        let ghost second = first.union_prefer_right(bundlers);
        Self::list_table(hour, Category::Runtime, &stats.runtime, out, Ghost(second));
        proof {
            assert(stats.table(Category::Client) == stats.client);
            assert(stats.table(Category::Bundler) == stats.bundler);
            assert(stats.table(Category::Runtime) == stats.runtime);
            assert(second.union_prefer_right(runtimes) =~= base.union_prefer_right(
                hour_part(hour@, *stats),
            ));
        }
    }

    /// Every counter with its count, each once: hour by hour in the order in
    /// which the hours arrived.
    pub(crate) fn entries(&self) -> (out: Vec<Entry>)
        requires
            self.wf(),
        ensures
            lists(out@, self@),
    {
        let mut out: Vec<Entry> = Vec::new();
        let n = self.hours.len();
        let mut i: usize = 0;
        assert(self.first_hours(0) =~= Map::<Key, nat>::empty());
        while i < n
            invariant
                self.wf(),
                n == self.hours.keys().len(),
                i <= n,
                lists(out@, self.first_hours(i as int)),
            decreases n - i,
        {
            assert(self.hours.values()[i as int].wf());
            Self::list_hour(
                self.hours.key_at(i),
                self.hours.value_at(i),
                &mut out,
                Ghost(self.first_hours(i as int)),
            );
            proof {
                assert(self.first_hours(i as int).union_prefer_right(
                    hour_part(self.hours.keys()[i as int], self.hours.values()[i as int]),
                ) =~= self.first_hours(i + 1));
            }
            i += 1;
        }
        assert(self.first_hours(n as int) =~= self@);
        out
    }

    /// The count of one version of one category in one hour; zero where no
    /// such counter exists.
    pub(crate) fn count(&self, hour: &str, category: Category, version: &str) -> (n: u64)
        requires
            self.wf(),
        ensures
            n == count_in(self@, Key { hour: hour@, category, version: version@ }),
    {
        match self.hours.find(hour) {
            None => 0,
            Some(h) => {
                let table = self.hours.value_at(h).table_ref(category);
                match table.find(version) {
                    None => 0,
                    Some(v) => *table.value_at(v),
                }
            },
        }
    }
}

} // verus!
