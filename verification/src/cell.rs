//! One slot of the calendar grid: a selection flag and the set of
//! configuration names assigned to the day shown there.
//!
//! The assigned names are kept as a vector in strictly increasing
//! lexicographic order, so membership is a set and iteration order is
//! reproducible.

use vstd::prelude::*;

use crate::util::{
    lemma_lex_irreflexive, lemma_lex_transitive, lemma_lex_trichotomy, lex_less, name_views,
    sorted_name_seq, str_order, StrOrder,
};

verus! {

/// One calendar-grid slot.
pub struct Cell {
    /// Whether the user has ticked this cell.
    pub selected: bool,
    /// Names of the configurations assigned to this cell, in strictly
    /// increasing lexicographic order.
    pub config_names: Vec<String>,
}

impl Cell {
    /// The assigned names as character sequences, in storage order.
    pub open spec fn names(self) -> Seq<Seq<char>> {
        name_views(self.config_names@)
    }

    /// The assigned names as a set.
    pub open spec fn name_set(self) -> Set<Seq<char>> {
        self.names().to_set()
    }

    /// The assigned names are strictly sorted (hence free of duplicates).
    pub open spec fn wf(self) -> bool {
        sorted_name_seq(self.names())
    }

    /// A fresh cell: not selected, nothing assigned.
    pub fn new() -> (c: Cell)
        ensures
            c.wf(),
            !c.selected,
            c.names() =~= Seq::<Seq<char>>::empty(),
    {
        Cell { selected: false, config_names: Vec::new() }
    }

    /// Whether `name` is assigned to this cell.
    pub fn contains(&self, name: &str) -> (r: bool)
        requires
            self.wf(),
        ensures
            r == self.name_set().contains(name@),
    {
        let position = find_name(&self.config_names, name);
        proof {
            match position {
                Some(i) => {
                    assert(self.names()[i as int] == name@);
                    assert(self.names().contains(name@));
                },
                None => {
                    assert forall|k: int|
                        0 <= k < self.names().len() implies self.names()[k] != name@ by {
                        assert(name_views(self.config_names@)[k] != name@);
                    }
                    assert(!self.names().contains(name@));
                },
            }
        }
        position.is_some()
    }

    /// Set the selection flag.
    pub fn select(&mut self, selected: bool)
        ensures
            final(self).selected == selected,
            final(self).config_names == old(self).config_names,
    {
        self.selected = selected;
    }

    /// Clear the selection flag.
    pub fn deselect(&mut self)
        ensures
            !final(self).selected,
            final(self).config_names == old(self).config_names,
    {
        self.selected = false;
    }

    /// Drop every assigned name, keeping the selection flag.
    pub fn clear_added(&mut self)
        ensures
            final(self).selected == old(self).selected,
            final(self).names() =~= Seq::<Seq<char>>::empty(),
            final(self).wf(),
    {
        self.config_names.clear();
    }

    /// Reset the cell completely: deselect it and drop every name.
    pub fn clear(&mut self)
        ensures
            !final(self).selected,
            final(self).names() =~= Seq::<Seq<char>>::empty(),
            final(self).wf(),
    {
        self.deselect();
        self.clear_added();
    }

    /// Assign `name` to this cell.  Assigning a name that is already
    /// present changes nothing.
    pub fn insert(&mut self, name: String)
        requires
            old(self).wf(),
        ensures
            final(self).wf(),
            final(self).selected == old(self).selected,
            final(self).name_set() == old(self).name_set().insert(name@),
    {
        let ghost old_names = self.names();
        let position = lower_bound(&self.config_names, name.as_str());
        if position < self.config_names.len() {
            match str_order(self.config_names[position].as_str(), name.as_str()) {
                StrOrder::Equal => {
                    proof {
                        assert(old_names[position as int] == name@);
                        assert(old_names.contains(name@));
                        assert(self.name_set().insert(name@) =~= self.name_set());
                    }
                    return ;
                },
                _ => {},
            }
        }
        proof {
            if position < old_names.len() {
                assert(!lex_less(old_names[position as int], name@));
                assert(old_names[position as int] != name@);
                lemma_lex_trichotomy(name@, old_names[position as int]);
                assert(lex_less(name@, old_names[position as int]));
            }
        }
        self.config_names.insert(position, name);
        proof {
            let new_names = self.names();
            let p = position as int;
            old(self).config_names@.insert_ensures(p, name);
            assert forall|k: int| 0 <= k < new_names.len() implies new_names[k] == (
            if k < p {
                old_names[k]
            } else if k == p {
                name@
            } else {
                old_names[k - 1]
            }) by {
                assert(new_names[k] == self.config_names@[k]@);
                if k < p {
                    assert(old_names[k] == old(self).config_names@[k]@);
                } else if k > p {
                    assert(old_names[k - 1] == old(self).config_names@[k - 1]@);
                }
            }
            assert forall|i: int, j: int|
                0 <= i < j < new_names.len() implies lex_less(new_names[i], new_names[j]) by {
                if j < p || i > p {
                    assert(lex_less(old_names[if j < p { i } else { i - 1 }], old_names[
                    if j < p {
                        j
                    } else {
                        j - 1
                    }]));
                } else if i < p && j > p {
                    assert(lex_less(old_names[i], name@));
                    assert(lex_less(name@, old_names[p]));
                    assert(j - 1 >= p);
                    if j - 1 == p {
                        lemma_lex_transitive(old_names[i], name@, old_names[j - 1]);
                    } else {
                        lemma_lex_transitive(name@, old_names[p], old_names[j - 1]);
                        lemma_lex_transitive(old_names[i], name@, old_names[j - 1]);
                    }
                } else if j == p {
                    assert(lex_less(old_names[i], name@));
                } else {
                    assert(i == p && j > p);
                    assert(lex_less(name@, old_names[p]));
                    if j - 1 == p {
                        assert(lex_less(name@, old_names[j - 1]));
                    } else {
                        lemma_lex_transitive(name@, old_names[p], old_names[j - 1]);
                    }
                }
            }
            assert forall|x: Seq<char>|
                new_names.to_set().contains(x) == old_names.to_set().insert(name@).contains(
                    x,
                ) by {
                if new_names.contains(x) {
                    let k = choose|k: int| 0 <= k < new_names.len() && new_names[k] == x;
                    if k < p {
                        assert(old_names[k] == x);
                        assert(old_names.contains(x));
                    } else if k > p {
                        assert(old_names[k - 1] == x);
                        assert(old_names.contains(x));
                    } else {
                        assert(x == name@);
                    }
                }
                if old_names.contains(x) {
                    let k = choose|k: int| 0 <= k < old_names.len() && old_names[k] == x;
                    if k < p {
                        assert(new_names[k] == x);
                    } else {
                        assert(new_names[k + 1] == x);
                    }
                    assert(new_names.contains(x));
                }
                if x == name@ {
                    assert(new_names[p] == x);
                    assert(new_names.contains(x));
                }
            }
            assert(final(self).name_set() =~= old(self).name_set().insert(name@));
        }
    }

    /// Remove `name` from this cell.  Removing an absent name changes
    /// nothing.
    pub fn remove(&mut self, name: &str)
        requires
            old(self).wf(),
        ensures
            final(self).wf(),
            final(self).selected == old(self).selected,
            final(self).name_set() == old(self).name_set().remove(name@),
    {
        let ghost old_names = self.names();
        let position = find_name(&self.config_names, name);
        match position {
            Some(i) => {
                self.config_names.remove(i);
                proof {
                    let new_names = self.names();
                    let p = i as int;
                    old(self).config_names@.remove_ensures(p);
                    assert(old_names[p] == name@);
                    assert forall|k: int| 0 <= k < new_names.len() implies new_names[k] == (
                    if k < p {
                        old_names[k]
                    } else {
                        old_names[k + 1]
                    }) by {
                        assert(new_names[k] == self.config_names@[k]@);
                        if k < p {
                            assert(old_names[k] == old(self).config_names@[k]@);
                        } else {
                            assert(old_names[k + 1] == old(self).config_names@[k + 1]@);
                        }
                    }
                    assert forall|i2: int, j2: int|
                        0 <= i2 < j2 < new_names.len() implies lex_less(
                        new_names[i2],
                        new_names[j2],
                    ) by {
                        let oi = if i2 < p {
                            i2
                        } else {
                            i2 + 1
                        };
                        let oj = if j2 < p {
                            j2
                        } else {
                            j2 + 1
                        };
                        assert(lex_less(old_names[oi], old_names[oj]));
                    }
                    assert forall|k: int|
                        0 <= k < old_names.len() && k != p implies old_names[k] != name@ by {
                        if k < p {
                            assert(lex_less(old_names[k], old_names[p]));
                            lemma_lex_irreflexive(old_names[p]);
                        } else {
                            assert(lex_less(old_names[p], old_names[k]));
                            lemma_lex_irreflexive(old_names[p]);
                        }
                    }
                    assert forall|x: Seq<char>|
                        new_names.to_set().contains(x) == old_names.to_set().remove(
                            name@,
                        ).contains(x) by {
                        if new_names.contains(x) {
                            let k = choose|k: int|
                                0 <= k < new_names.len() && new_names[k] == x;
                            if k < p {
                                assert(old_names[k] == x);
                                assert(old_names.contains(x));
                                assert(x != name@);
                            } else {
                                assert(old_names[k + 1] == x);
                                assert(old_names.contains(x));
                                assert(x != name@);
                            }
                        }
                        if old_names.contains(x) && x != name@ {
                            let k = choose|k: int|
                                0 <= k < old_names.len() && old_names[k] == x;
                            assert(k != p);
                            if k < p {
                                assert(new_names[k] == x);
                            } else {
                                assert(new_names[k - 1] == x);
                            }
                            assert(new_names.contains(x));
                        }
                    }
                    assert(final(self).name_set() =~= old(self).name_set().remove(name@));
                }
            },
            None => {
                proof {
                    assert forall|k: int|
                        0 <= k < old_names.len() implies old_names[k] != name@ by {
                        assert(name_views(old(self).config_names@)[k] != name@);
                    }
                    assert(!old_names.contains(name@));
                    assert(old(self).name_set().remove(name@) =~= old(self).name_set());
                }
            },
        }
    }
}

impl Default for Cell {
    /// A fresh cell: not selected, nothing assigned.
    fn default() -> (c: Cell)
        ensures
            c.wf(),
            !c.selected,
            c.names() =~= Seq::<Seq<char>>::empty(),
    {
        Cell::new()
    }
}

/// Assigning a name is idempotent on the membership state: a second
/// assignment of the same name leaves exactly the single-membership set
/// the first one left.
pub proof fn lemma_insert_idempotent(s: Set<Seq<char>>, name: Seq<char>)
    ensures
        s.insert(name).insert(name) == s.insert(name),
{
    assert(s.insert(name).insert(name) =~= s.insert(name));
}

/// Removing an absent name leaves the membership state untouched.
pub proof fn lemma_remove_absent(s: Set<Seq<char>>, name: Seq<char>)
    requires
        !s.contains(name),
    ensures
        s.remove(name) == s,
{
    assert(s.remove(name) =~= s);
}

/// A well-formed cell's display order is determined by its state: two
/// well-formed cells holding the same name set list their names
/// identically.
pub proof fn lemma_cell_names_determined(a: Cell, b: Cell)
    requires
        a.wf(),
        b.wf(),
        a.name_set() == b.name_set(),
    ensures
        a.names() == b.names(),
{
    crate::util::lemma_sorted_eq_by_set(a.names(), b.names());
}

/// First position whose name does not come before `name`, on a sorted
/// name vector.
fn lower_bound(v: &Vec<String>, name: &str) -> (r: usize)
    requires
        sorted_name_seq(name_views(v@)),
    ensures
        r <= v.len(),
        forall|k: int| 0 <= k < r ==> lex_less(#[trigger] name_views(v@)[k], name@),
        r < v.len() ==> !lex_less(name_views(v@)[r as int], name@),
{
    let ghost names = name_views(v@);
    let mut i: usize = 0;
    while i < v.len()
        invariant
            i <= v.len(),
            names == name_views(v@),
            sorted_name_seq(names),
            forall|k: int| 0 <= k < i ==> lex_less(#[trigger] names[k], name@),
        decreases v.len() - i,
    {
        proof {
            assert(names[i as int] == v@[i as int]@);
        }
        match str_order(v[i].as_str(), name) {
            StrOrder::Less => {
                i = i + 1;
            },
            _ => {
                proof {
                    lemma_lex_irreflexive(names[i as int]);
                }
                return i;
            },
        }
    }
    i
}

/// Position of `name` on a sorted name vector, if it is there.
fn find_name(v: &Vec<String>, name: &str) -> (r: Option<usize>)
    requires
        sorted_name_seq(name_views(v@)),
    ensures
        r matches Some(i) ==> i < v.len() && name_views(v@)[i as int] == name@,
        r is None ==> forall|k: int|
            0 <= k < v.len() ==> #[trigger] name_views(v@)[k] != name@,
{
    let ghost names = name_views(v@);
    let mut i: usize = 0;
    while i < v.len()
        invariant
            i <= v.len(),
            names == name_views(v@),
            sorted_name_seq(names),
            forall|k: int| 0 <= k < i ==> #[trigger] names[k] != name@,
        decreases v.len() - i,
    {
        proof {
            assert(names[i as int] == v@[i as int]@);
        }
        match str_order(v[i].as_str(), name) {
            StrOrder::Equal => {
                return Some(i);
            },
            StrOrder::Less => {
                proof {
                    lemma_lex_irreflexive(names[i as int]);
                }
                i = i + 1;
            },
            StrOrder::Greater => {
                proof {
                    assert(names.len() == v@.len());
                    assert forall|k: int| 0 <= k < v.len() implies #[trigger] names[k]
                        != name@ by {
                        if k > i {
                            assert(lex_less(names[i as int], names[k]));
                            lemma_lex_transitive(name@, names[i as int], names[k]);
                            lemma_lex_irreflexive(names[k]);
                        } else if k == i {
                            lemma_lex_irreflexive(names[k]);
                        }
                    }
                }
                return None;
            },
        }
    }
    None
}

} // verus!
