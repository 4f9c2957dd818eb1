//! The configuration ledger: a mapping from configuration name to
//! configuration, kept in lexicographic name order, with the valuation
//! that prices a calendar grid.

use vstd::prelude::*;

use crate::cell::Cell;
use crate::config::{spec_value, Config};
use crate::grid::{lemma_usage_bound, lemma_usage_congruent, lemma_usage_zero, spec_usage, CellGrid};
use crate::util::{
    lemma_lex_irreflexive, lemma_lex_transitive, lemma_lex_trichotomy, lex_less, sorted_name_seq,
    str_order, StrOrder,
};

verus! {

/// The names of a ledger's entries, in storage order.
pub open spec fn entry_names(s: Seq<(String, Config)>) -> Seq<Seq<char>> {
    s.map_values(|e: (String, Config)| e.0@)
}

/// Whether some entry carries `name`.
pub open spec fn spec_contains_name(s: Seq<(String, Config)>, name: Seq<char>) -> bool {
    exists|i: int| 0 <= i < s.len() && (#[trigger] s[i]).0@ == name
}

/// The position of the entry carrying `name`.
pub open spec fn spec_index_of(s: Seq<(String, Config)>, name: Seq<char>) -> int {
    choose|i: int| 0 <= i < s.len() && (#[trigger] s[i]).0@ == name
}

/// The configuration stored under `name`, if any.
pub open spec fn spec_get(s: Seq<(String, Config)>, name: Seq<char>) -> Option<Config> {
    if spec_contains_name(s, name) {
        Some(s[spec_index_of(s, name)].1)
    } else {
        None
    }
}

/// Total pay owed by the entries of `s` against the cells: the sum of
/// each configuration's value at its usage count, in entry order.
pub open spec fn spec_total(s: Seq<(String, Config)>, cells: Seq<Cell>) -> int
    decreases s.len(),
{
    if s.len() == 0 {
        0
    } else {
        spec_total(s.drop_last(), cells) + spec_value(
            s.last().1,
            spec_usage(cells, s.last().0@),
        )
    }
}

/// A configuration's value is never negative.
pub proof fn lemma_value_nonneg(c: Config, count: int)
    requires
        c.wf(),
        count >= 0,
    ensures
        spec_value(c, count) >= 0,
{
    match c.rate_type {
        crate::config::Type::PerTime => {
            assert(c.pay as int * count >= 0) by (nonlinear_arith)
                requires
                    c.pay >= 0,
                    count >= 0,
            ;
        },
        crate::config::Type::PerHour(w) => {
            let d = crate::config::spec_duration_minutes(w);
            assert(d >= 0);
            assert(c.pay as int * count * d >= 0) by (nonlinear_arith)
                requires
                    c.pay >= 0,
                    count >= 0,
                    d >= 0,
            ;
            assert((c.pay as int * count * d) / 60 >= 0);
        },
    }
}

/// Every prefix sum stays at or below the full total when the stored
/// configurations are well-formed.
pub proof fn lemma_total_prefix_le(s: Seq<(String, Config)>, cells: Seq<Cell>, i: int)
    requires
        0 <= i <= s.len(),
        forall|k: int| 0 <= k < s.len() ==> (#[trigger] s[k]).1.wf(),
    ensures
        spec_total(s.take(i), cells) <= spec_total(s, cells),
    decreases s.len() - i,
{
    if i == s.len() {
        assert(s.take(i) =~= s);
    } else {
        lemma_total_prefix_le(s, cells, i + 1);
        assert(s.take(i + 1).drop_last() =~= s.take(i));
        assert(s.take(i + 1).last() == s[i]);
        lemma_usage_bound(cells, s[i].0@);
        lemma_value_nonneg(s[i].1, spec_usage(cells, s[i].0@));
    }
}

/// A name that no entry carries contributes nothing: the usage count of
/// that name is zero once it is removed from every cell, and the total
/// over the remaining entries does not change when it is.
pub proof fn lemma_remove_consistency(
    s: Seq<(String, Config)>,
    cells_before: Seq<Cell>,
    cells_after: Seq<Cell>,
    name: Seq<char>,
)
    requires
        forall|k: int| 0 <= k < s.len() ==> (#[trigger] s[k]).0@ != name,
        cells_after.len() == cells_before.len(),
        forall|i: int|
            0 <= i < cells_before.len() ==> (#[trigger] cells_after[i]).name_set()
                == cells_before[i].name_set().remove(name),
    ensures
        spec_usage(cells_after, name) == 0,
        spec_total(s, cells_after) == spec_total(s, cells_before),
    decreases s.len(),
{
    assert forall|i: int|
        0 <= i < cells_after.len() implies !(#[trigger] cells_after[i]).name_set().contains(
        name,
    ) by {
        assert(cells_after[i].name_set() == cells_before[i].name_set().remove(name));
    }
    lemma_usage_zero(cells_after, name);
    if s.len() > 0 {
        lemma_remove_consistency(s.drop_last(), cells_before, cells_after, name);
        let n = s.last().0@;
        assert(n != name);
        assert forall|i: int|
            0 <= i < cells_before.len() implies (#[trigger] cells_after[i]).name_set().contains(
            n,
        ) == (#[trigger] cells_before[i]).name_set().contains(n) by {
            assert(cells_after[i].name_set() == cells_before[i].name_set().remove(name));
        }
        lemma_usage_congruent(cells_after, cells_before, n);
    }
}

/// The ledger: configuration entries in strictly increasing name order.
pub struct ConfigLedger {
    /// The entries, sorted by name.
    pub entries: Vec<(String, Config)>,
}

impl ConfigLedger {
    /// Entry names are strictly sorted and every stored configuration is
    /// well-formed.
    pub open spec fn wf(self) -> bool {
        &&& sorted_name_seq(entry_names(self.entries@))
        &&& forall|k: int| 0 <= k < self.entries@.len() ==> (#[trigger] self.entries@[k]).1.wf()
    }

    /// An empty ledger.
    pub fn new() -> (l: ConfigLedger)
        ensures
            l.wf(),
            l.entries@.len() == 0,
    {
        ConfigLedger { entries: Vec::new() }
    }

    /// Number of entries.
    pub fn len(&self) -> (n: usize)
        ensures
            n == self.entries@.len(),
    {
        self.entries.len()
    }

    /// The entry at `position`, for display in ledger order.
    pub fn entry_at(&self, position: usize) -> (r: (&String, &Config))
        requires
            position < self.entries@.len(),
        ensures
            r.0@ == self.entries@[position as int].0@,
            *r.1 == self.entries@[position as int].1,
    {
        let entry = &self.entries[position];
        (&entry.0, &entry.1)
    }

    /// The configuration stored under `name`, if any.
    pub fn get(&self, name: &str) -> (r: Option<&Config>)
        requires
            self.wf(),
        ensures
            r is Some <==> spec_contains_name(self.entries@, name@),
            r matches Some(c) ==> spec_get(self.entries@, name@) == Some(*c),
    {
        let position = find_entry(&self.entries, name);
        match position {
            Some(i) => {
                proof {
                    lemma_get_at_found(self.entries@, name@, i as int);
                }
                Some(&self.entries[i].1)
            },
            None => {
                proof {
                    assert forall|k: int|
                        0 <= k < self.entries@.len() implies (#[trigger] self.entries@[k]).0@
                            != name@ by {
                        assert(entry_names(self.entries@)[k] != name@);
                    }
                }
                None
            },
        }
    }

    /// Store `config` under `name`, replacing any entry with the same
    /// name (the later push wins).
    pub fn insert(&mut self, name: String, config: Config)
        requires
            old(self).wf(),
            config.wf(),
        ensures
            final(self).wf(),
            spec_get(final(self).entries@, name@) == Some(config),
            forall|n: Seq<char>|
                n != name@ ==> #[trigger] spec_get(final(self).entries@, n) == spec_get(
                    old(self).entries@,
                    n,
                ),
    {
        let ghost old_entries = self.entries@;
        let position = entry_lower_bound(&self.entries, name.as_str());
        let mut replace = false;
        if position < self.entries.len() {
            match str_order(self.entries[position].0.as_str(), name.as_str()) {
                StrOrder::Equal => {
                    replace = true;
                },
                _ => {},
            }
        }
        if replace {
            let ghost p = position as int;
            self.entries.set(position, (name, config));
            proof {
                let new_entries = self.entries@;
                assert(entry_names(old_entries)[p] == name@);
                assert forall|k: int|
                    0 <= k < new_entries.len() implies #[trigger] entry_names(new_entries)[k]
                        == entry_names(old_entries)[k] by {
                    assert(entry_names(new_entries)[k] == new_entries[k].0@);
                    assert(entry_names(old_entries)[k] == old_entries[k].0@);
                }
                assert(sorted_name_seq(entry_names(new_entries)));
                lemma_sorted_get_facts(old_entries, new_entries, p, name@, config);
            }
        } else {
            proof {
                if position < old_entries.len() {
                    assert(!lex_less(entry_names(old_entries)[position as int], name@));
                    assert(entry_names(old_entries)[position as int] != name@);
                    lemma_lex_trichotomy(name@, entry_names(old_entries)[position as int]);
                    assert(lex_less(name@, entry_names(old_entries)[position as int]));
                }
            }
            let ghost p = position as int;
            self.entries.insert(position, (name, config));
            proof {
                let new_entries = self.entries@;
                old_entries.insert_ensures(p, (name, config));
                assert forall|k: int| 0 <= k < new_entries.len() implies #[trigger] entry_names(
                    new_entries,
                )[k] == (if k < p {
                    entry_names(old_entries)[k]
                } else if k == p {
                    name@
                } else {
                    entry_names(old_entries)[k - 1]
                }) by {
                    assert(entry_names(new_entries)[k] == new_entries[k].0@);
                    if k < p {
                        assert(entry_names(old_entries)[k] == old_entries[k].0@);
                    } else if k > p {
                        assert(entry_names(old_entries)[k - 1] == old_entries[k - 1].0@);
                    }
                }
                let names_old = entry_names(old_entries);
                let names_new = entry_names(new_entries);
                assert forall|i: int, j: int|
                    0 <= i < j < names_new.len() implies lex_less(
                    names_new[i],
                    names_new[j],
                ) by {
                    if j < p || i > p {
                        assert(lex_less(names_old[if j < p { i } else { i - 1 }], names_old[
                        if j < p {
                            j
                        } else {
                            j - 1
                        }]));
                    } else if i < p && j > p {
                        assert(lex_less(names_old[i], name@));
                        assert(lex_less(name@, names_old[p]));
                        if j - 1 == p {
                            lemma_lex_transitive(names_old[i], name@, names_old[j - 1]);
                        } else {
                            lemma_lex_transitive(name@, names_old[p], names_old[j - 1]);
                            lemma_lex_transitive(names_old[i], name@, names_old[j - 1]);
                        }
                    } else if j == p {
                        assert(lex_less(names_old[i], name@));
                    } else {
                        assert(i == p && j > p);
                        assert(lex_less(name@, names_old[p]));
                        if j - 1 == p {
                            assert(lex_less(name@, names_old[j - 1]));
                        } else {
                            lemma_lex_transitive(name@, names_old[p], names_old[j - 1]);
                        }
                    }
                }
                assert forall|k: int|
                    0 <= k < old_entries.len() implies (#[trigger] old_entries[k]).0@
                        != name@ by {
                    assert(names_old[k] == old_entries[k].0@);
                    if k < p {
                        assert(lex_less(names_old[k], name@));
                        lemma_lex_irreflexive(name@);
                    } else if k == p {
                        assert(lex_less(name@, names_old[p]));
                        lemma_lex_irreflexive(name@);
                    } else {
                        assert(lex_less(names_old[p], names_old[k]));
                        assert(lex_less(name@, names_old[p]));
                        lemma_lex_transitive(name@, names_old[p], names_old[k]);
                        lemma_lex_irreflexive(name@);
                    }
                }
                lemma_inserted_get_facts(old_entries, new_entries, p, name@, config);
            }
        }
    }

    /// Delete the entry stored under `name`; deleting an absent name
    /// changes nothing.  The caller keeps the grid consistent by also
    /// removing the name from every cell.
    pub fn remove(&mut self, name: &str)
        requires
            old(self).wf(),
        ensures
            final(self).wf(),
            spec_get(final(self).entries@, name@) == None::<Config>,
            forall|n: Seq<char>|
                n != name@ ==> #[trigger] spec_get(final(self).entries@, n) == spec_get(
                    old(self).entries@,
                    n,
                ),
    {
        let ghost old_entries = self.entries@;
        let position = find_entry(&self.entries, name);
        match position {
            Some(i) => {
                let ghost p = i as int;
                self.entries.remove(i);
                proof {
                    let new_entries = self.entries@;
                    old_entries.remove_ensures(p);
                    assert(entry_names(old_entries)[p] == name@);
                    assert forall|k: int|
                        0 <= k < new_entries.len() implies #[trigger] entry_names(new_entries)[k]
                            == (if k < p {
                            entry_names(old_entries)[k]
                        } else {
                            entry_names(old_entries)[k + 1]
                        }) by {
                        assert(entry_names(new_entries)[k] == new_entries[k].0@);
                        if k < p {
                            assert(entry_names(old_entries)[k] == old_entries[k].0@);
                        } else {
                            assert(entry_names(old_entries)[k + 1] == old_entries[k + 1].0@);
                        }
                    }
                    let names_old = entry_names(old_entries);
                    let names_new = entry_names(new_entries);
                    assert forall|i2: int, j2: int|
                        0 <= i2 < j2 < names_new.len() implies lex_less(
                        names_new[i2],
                        names_new[j2],
                    ) by {
                        let oi = if i2 < p {
                            i2
                        } else {
                            i2 + 1
                        };
                        let oj = if j2 < p {
                            j2
                        } else {
                            j2 + 1
                        };
                        assert(lex_less(names_old[oi], names_old[oj]));
                    }
                    lemma_removed_get_facts(old_entries, new_entries, p, name@);
                }
            },
            None => {
                proof {
                    assert forall|k: int|
                        0 <= k < old_entries.len() implies (#[trigger] old_entries[k]).0@
                            != name@ by {
                        assert(entry_names(old_entries)[k] != name@);
                    }
                    assert(!spec_contains_name(old_entries, name@));
                }
            },
        }
    }

    /// Total pay owed over all entries against the grid, or nothing when
    /// the sum leaves the machine range.
    pub fn total_value(&self, grid: &CellGrid) -> (r: Option<u64>)
        requires
            self.wf(),
            grid.wf(),
        ensures
            r is Some <==> spec_total(self.entries@, grid.cells@) <= u64::MAX,
            r matches Some(v) ==> v as int == spec_total(self.entries@, grid.cells@),
    {
        let mut acc: u64 = 0;
        let mut i: usize = 0;
        while i < self.entries.len()
            invariant
                self.wf(),
                grid.wf(),
                i <= self.entries@.len(),
                acc as int == spec_total(self.entries@.take(i as int), grid.cells@),
            decreases self.entries@.len() - i,
        {
            let count = grid.usage_count(self.entries[i].0.as_str());
            let value = self.entries[i].1.sum(count);
            proof {
                assert(self.entries@.take(i as int + 1).drop_last() =~= self.entries@.take(
                    i as int,
                ));
                assert(self.entries@.take(i as int + 1).last() == self.entries@[i as int]);
            }
            match acc.checked_add(value) {
                Some(next) => {
                    acc = next;
                },
                None => {
                    proof {
                        lemma_total_prefix_le(self.entries@, grid.cells@, i as int + 1);
                    }
                    return None;
                },
            }
            i = i + 1;
        }
        proof {
            assert(self.entries@.take(self.entries@.len() as int) =~= self.entries@);
        }
        Some(acc)
    }
}

/// When entry `p` carries `name` on a sorted entry sequence, the lookup
/// reads exactly that entry.
proof fn lemma_get_at_found(s: Seq<(String, Config)>, name: Seq<char>, p: int)
    requires
        sorted_name_seq(entry_names(s)),
        0 <= p < s.len(),
        s[p].0@ == name,
    ensures
        spec_contains_name(s, name),
        spec_get(s, name) == Some(s[p].1),
{
    assert(entry_names(s)[p] == s[p].0@);
    let q = spec_index_of(s, name);
    assert(0 <= q < s.len() && s[q].0@ == name);
    if q != p {
        assert(entry_names(s)[q] == s[q].0@);
        if q < p {
            assert(lex_less(entry_names(s)[q], entry_names(s)[p]));
        } else {
            assert(lex_less(entry_names(s)[p], entry_names(s)[q]));
        }
        lemma_lex_irreflexive(name);
    }
}

/// No entry carries `name`.
proof fn lemma_get_absent(s: Seq<(String, Config)>, name: Seq<char>)
    requires
        forall|k: int| 0 <= k < s.len() ==> (#[trigger] s[k]).0@ != name,
    ensures
        spec_get(s, name) == None::<Config>,
{
}

/// Lookup facts after replacing the entry at `p` by `(name, config)`,
/// its name unchanged.
proof fn lemma_sorted_get_facts(
    old_s: Seq<(String, Config)>,
    new_s: Seq<(String, Config)>,
    p: int,
    name: Seq<char>,
    config: Config,
)
    requires
        sorted_name_seq(entry_names(old_s)),
        sorted_name_seq(entry_names(new_s)),
        0 <= p < old_s.len(),
        new_s.len() == old_s.len(),
        old_s[p].0@ == name,
        new_s[p].0@ == name,
        new_s[p].1 == config,
        forall|k: int| 0 <= k < new_s.len() && k != p ==> #[trigger] new_s[k] == old_s[k],
    ensures
        spec_get(new_s, name) == Some(config),
        forall|n: Seq<char>| n != name ==> #[trigger] spec_get(new_s, n) == spec_get(old_s, n),
{
    lemma_get_at_found(new_s, name, p);
    assert forall|n: Seq<char>| n != name implies #[trigger] spec_get(new_s, n) == spec_get(
        old_s,
        n,
    ) by {
        if spec_contains_name(old_s, n) {
            let k = spec_index_of(old_s, n);
            assert(0 <= k < old_s.len() && old_s[k].0@ == n);
            assert(k != p);
            assert(new_s[k].0@ == n);
            lemma_get_at_found(old_s, n, k);
            lemma_get_at_found(new_s, n, k);
        } else {
            assert forall|k: int| 0 <= k < new_s.len() implies (#[trigger] new_s[k]).0@
                != n by {
                if k == p {
                    assert(new_s[k].0@ == name);
                } else {
                    assert(new_s[k] == old_s[k]);
                    if old_s[k].0@ == n {
                        assert(spec_contains_name(old_s, n));
                    }
                }
            }
            lemma_get_absent(new_s, n);
            assert(!spec_contains_name(old_s, n));
        }
    }
}

/// Lookup facts after inserting `(name, config)` at position `p`.
proof fn lemma_inserted_get_facts(
    old_s: Seq<(String, Config)>,
    new_s: Seq<(String, Config)>,
    p: int,
    name: Seq<char>,
    config: Config,
)
    requires
        sorted_name_seq(entry_names(old_s)),
        sorted_name_seq(entry_names(new_s)),
        0 <= p <= old_s.len(),
        new_s.len() == old_s.len() + 1,
        new_s[p].0@ == name,
        new_s[p].1 == config,
        forall|k: int| 0 <= k < p ==> #[trigger] new_s[k] == old_s[k],
        forall|k: int| p < k < new_s.len() ==> #[trigger] new_s[k] == old_s[k - 1],
        forall|k: int| 0 <= k < old_s.len() ==> (#[trigger] old_s[k]).0@ != name,
    ensures
        spec_get(new_s, name) == Some(config),
        forall|n: Seq<char>| n != name ==> #[trigger] spec_get(new_s, n) == spec_get(old_s, n),
{
    lemma_get_at_found(new_s, name, p);
    assert forall|n: Seq<char>| n != name implies #[trigger] spec_get(new_s, n) == spec_get(
        old_s,
        n,
    ) by {
        if spec_contains_name(old_s, n) {
            let k = spec_index_of(old_s, n);
            assert(0 <= k < old_s.len() && old_s[k].0@ == n);
            lemma_get_at_found(old_s, n, k);
            if k < p {
                assert(new_s[k].0@ == n);
                lemma_get_at_found(new_s, n, k);
            } else {
                assert(new_s[k + 1].0@ == n);
                lemma_get_at_found(new_s, n, k + 1);
            }
        } else {
            assert forall|k: int| 0 <= k < new_s.len() implies (#[trigger] new_s[k]).0@
                != n by {
                if k == p {
                } else if k < p {
                    if old_s[k].0@ == n {
                        assert(spec_contains_name(old_s, n));
                    }
                } else {
                    if old_s[k - 1].0@ == n {
                        assert(spec_contains_name(old_s, n));
                    }
                }
            }
            lemma_get_absent(new_s, n);
        }
    }
}

/// Lookup facts after removing the entry at `p`, which carried `name`.
proof fn lemma_removed_get_facts(
    old_s: Seq<(String, Config)>,
    new_s: Seq<(String, Config)>,
    p: int,
    name: Seq<char>,
)
    requires
        sorted_name_seq(entry_names(old_s)),
        sorted_name_seq(entry_names(new_s)),
        0 <= p < old_s.len(),
        new_s.len() == old_s.len() - 1,
        old_s[p].0@ == name,
        forall|k: int| 0 <= k < p ==> #[trigger] new_s[k] == old_s[k],
        forall|k: int| p <= k < new_s.len() ==> #[trigger] new_s[k] == old_s[k + 1],
    ensures
        spec_get(new_s, name) == None::<Config>,
        forall|n: Seq<char>| n != name ==> #[trigger] spec_get(new_s, n) == spec_get(old_s, n),
{
    assert forall|k: int|
        0 <= k < old_s.len() && k != p implies (#[trigger] old_s[k]).0@ != name by {
        assert(entry_names(old_s)[k] == old_s[k].0@);
        assert(entry_names(old_s)[p] == name);
        if k < p {
            assert(lex_less(entry_names(old_s)[k], entry_names(old_s)[p]));
        } else {
            assert(lex_less(entry_names(old_s)[p], entry_names(old_s)[k]));
        }
        lemma_lex_irreflexive(name);
    }
    assert forall|k: int| 0 <= k < new_s.len() implies (#[trigger] new_s[k]).0@ != name by {
        if k < p {
            assert(new_s[k] == old_s[k]);
        } else {
            assert(new_s[k] == old_s[k + 1]);
        }
    }
    lemma_get_absent(new_s, name);
    assert forall|n: Seq<char>| n != name implies #[trigger] spec_get(new_s, n) == spec_get(
        old_s,
        n,
    ) by {
        if spec_contains_name(old_s, n) {
            let k = spec_index_of(old_s, n);
            assert(0 <= k < old_s.len() && old_s[k].0@ == n);
            assert(k != p);
            lemma_get_at_found(old_s, n, k);
            if k < p {
                assert(new_s[k].0@ == n);
                lemma_get_at_found(new_s, n, k);
            } else {
                assert(new_s[k - 1].0@ == n);
                lemma_get_at_found(new_s, n, k - 1);
            }
        } else {
            assert forall|k: int| 0 <= k < new_s.len() implies (#[trigger] new_s[k]).0@
                != n by {
                if k < p {
                    if old_s[k].0@ == n {
                        assert(spec_contains_name(old_s, n));
                    }
                } else {
                    if old_s[k + 1].0@ == n {
                        assert(spec_contains_name(old_s, n));
                    }
                }
            }
            lemma_get_absent(new_s, n);
        }
    }
}

/// First position whose entry name does not come before `name`, on a
/// sorted entry vector.
fn entry_lower_bound(v: &Vec<(String, Config)>, name: &str) -> (r: usize)
    requires
        sorted_name_seq(entry_names(v@)),
    ensures
        r <= v.len(),
        forall|k: int| 0 <= k < r ==> lex_less(#[trigger] entry_names(v@)[k], name@),
        r < v.len() ==> !lex_less(entry_names(v@)[r as int], name@),
{
    let ghost names = entry_names(v@);
    let mut i: usize = 0;
    while i < v.len()
        invariant
            i <= v.len(),
            names == entry_names(v@),
            sorted_name_seq(names),
            forall|k: int| 0 <= k < i ==> lex_less(#[trigger] names[k], name@),
        decreases v.len() - i,
    {
        proof {
            assert(names[i as int] == v@[i as int].0@);
        }
        match str_order(v[i].0.as_str(), name) {
            StrOrder::Less => {
                i = i + 1;
            },
            _ => {
                proof {
                    lemma_lex_irreflexive(names[i as int]);
                }
                return i;
            },
        }
    }
    i
}

/// Position of the entry carrying `name` on a sorted entry vector, if
/// any.
fn find_entry(v: &Vec<(String, Config)>, name: &str) -> (r: Option<usize>)
    requires
        sorted_name_seq(entry_names(v@)),
    ensures
        r matches Some(i) ==> i < v.len() && entry_names(v@)[i as int] == name@,
        r is None ==> forall|k: int| 0 <= k < v.len() ==> #[trigger] entry_names(v@)[k] != name@,
{
    let ghost names = entry_names(v@);
    let mut i: usize = 0;
    while i < v.len()
        invariant
            i <= v.len(),
            names == entry_names(v@),
            sorted_name_seq(names),
            forall|k: int| 0 <= k < i ==> #[trigger] names[k] != name@,
        decreases v.len() - i,
    {
        proof {
            assert(names[i as int] == v@[i as int].0@);
        }
        match str_order(v[i].0.as_str(), name) {
            StrOrder::Equal => {
                return Some(i);
            },
            StrOrder::Less => {
                proof {
                    lemma_lex_irreflexive(names[i as int]);
                }
                i = i + 1;
            },
            StrOrder::Greater => {
                proof {
                    assert(names.len() == v@.len());
                    assert forall|k: int| 0 <= k < v.len() implies #[trigger] names[k]
                        != name@ by {
                        if k > i {
                            assert(lex_less(names[i as int], names[k]));
                            lemma_lex_transitive(name@, names[i as int], names[k]);
                            lemma_lex_irreflexive(names[k]);
                        } else if k == i {
                            lemma_lex_irreflexive(names[k]);
                        }
                    }
                }
                return None;
            },
        }
    }
    None
}

} // verus!
