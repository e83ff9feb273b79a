//! Tables with one row for each name.

use crate::text;
use crate::text::same_str;
use vstd::prelude::*;

verus! {

/// A table with at most one row for each name.
pub struct Table<T> {
    rows: Vec<(String, T)>,
}

impl<T> Table<T> {
    /// The row at `i` is the row for `name`.
    spec fn is_at(self, name: Seq<char>, i: int) -> bool {
        0 <= i < self.rows@.len() && self.rows@[i].0@ == name
    }

    /// No name has two rows.
    pub closed spec fn well_formed(self) -> bool {
        forall|i: int, j: int|
            0 <= i < self.rows@.len() && 0 <= j < self.rows@.len() && i != j ==> (
            #[trigger] self.rows@[i]).0@ != (#[trigger] self.rows@[j]).0@
    }

    /// The names, in the order in which their rows came.
    pub closed spec fn names(self) -> Seq<Seq<char>> {
        Seq::new(self.rows@.len(), |i: int| self.rows@[i].0@)
    }
}

impl<T> View for Table<T> {
    type V = Map<Seq<char>, T>;

    /// The rows by their names.
    closed spec fn view(&self) -> Map<Seq<char>, T> {
        Map::new(
            |name: Seq<char>| exists|i: int| self.is_at(name, i),
            |name: Seq<char>| self.rows@[choose|i: int| self.is_at(name, i)].1,
        )
    }
}

impl<T> Table<T> {
    /// What the row at `i` holds is what the table holds under its name.
    proof fn row_counts(self, i: int)
        requires
            self.well_formed(),
            0 <= i < self.rows@.len(),
        ensures
            self@.contains_key(self.rows@[i].0@),
            self@[self.rows@[i].0@] == self.rows@[i].1,
    {
        let name = self.rows@[i].0@;
        assert(self.is_at(name, i));
        let k = choose|k: int| self.is_at(name, k);
        assert(self.is_at(name, k));
        assert(k == i);
    }

    /// The names are those of the table, each once.
    pub proof fn names_are_keys(self)
        requires
            self.well_formed(),
        ensures
            self.names().no_duplicates(),
            forall|name: Seq<char>| self.names().contains(name) <==> self@.contains_key(name),
    {
        assert forall|name: Seq<char>| self.names().contains(name) implies self@.contains_key(
            name,
        ) by {
            let i = choose|i: int| 0 <= i < self.names().len() && self.names()[i] == name;
            assert(self.is_at(name, i));
        }
        assert forall|name: Seq<char>| self@.contains_key(name) implies self.names().contains(
            name,
        ) by {
            let i = choose|i: int| self.is_at(name, i);
            assert(self.names()[i] == name);
        }
    }

    /// A table without rows.
    pub fn new() -> (r: Self)
        ensures
            r.well_formed(),
            r@ == Map::<Seq<char>, T>::empty(),
            r.names().len() == 0,
    {
        let r = Table { rows: Vec::new() };
        proof {
            assert(r@ =~= Map::<Seq<char>, T>::empty());
        }
        r
    }

    /// Where the row for `name` is.
    fn find(&self, name: &str) -> (r: Option<usize>)
        ensures
            match r {
                Some(i) => self.is_at(name@, i as int),
                None => forall|i: int| !self.is_at(name@, i),
            },
    {
        let mut i: usize = 0;
        while i < self.rows.len()
            invariant
                i <= self.rows.len(),
                forall|k: int| 0 <= k < i ==> !self.is_at(name@, k),
            decreases self.rows.len() - i,
        {
            if same_str(self.rows[i].0.as_str(), name) {
                return Some(i);
            }
            i += 1;
        }
        None
    }

    /// What the row for `name` holds.
    pub fn get(&self, name: &str) -> (r: Option<&T>)
        requires
            self.well_formed(),
        ensures
            match r {
                Some(value) => self@.contains_key(name@) && self@[name@] == *value,
                None => !self@.contains_key(name@),
            },
    {
        match self.find(name) {
            Some(i) => {
                proof {
                    self.row_counts(i as int);
                }
                Some(&self.rows[i].1)
            },
            None => None,
        }
    }

    /// Makes `value` what the row for `name` holds.
    pub fn set(&mut self, name: &str, value: T)
        requires
            old(self).well_formed(),
        ensures
            final(self).well_formed(),
            final(self)@ == old(self)@.insert(name@, value),
    {
        let ghost before = *self;
        match self.find(name) {
            Some(i) => {
                let key = self.rows[i].0.clone();
                self.rows.set(i, (key, value));
                proof {
                    assert(self.well_formed());
                    self.agrees_with(before, name@, i as int);
                    self.row_counts(i as int);
                    assert(self@ =~= before@.insert(name@, value));
                }
            },
            None => {
                let n: usize = self.rows.len();
                self.rows.push((name.to_owned(), value));
                proof {
                    assert forall|k: int| 0 <= k < n implies (
                    #[trigger] self.rows@[k]).0@ != name@ by {
                        assert(!before.is_at(name@, k));
                    }
                    assert(self.well_formed());
                    self.agrees_with(before, name@, n as int);
                    self.row_counts(n as int);
                    assert(self@ =~= before@.insert(name@, value));
                }
            },
        }
    }

    /// A table that differs from `before` only in the row for `name`, which is at `at`, holds the
    /// same under every other name.
    proof fn agrees_with(self, before: Self, name: Seq<char>, at: int)
        requires
            self.well_formed(),
            before.well_formed(),
            self.is_at(name, at),
            self.rows@.len() >= before.rows@.len(),
            self.rows@.len() <= before.rows@.len() + 1,
            self.rows@.len() > before.rows@.len() ==> at == before.rows@.len(),
            forall|k: int|
                0 <= k < before.rows@.len() && k != at ==> self.rows@[k] == before.rows@[k],
            at < before.rows@.len() ==> before.rows@[at].0@ == name,
            at >= before.rows@.len() ==> forall|k: int| !before.is_at(name, k),
        ensures
            forall|other: Seq<char>|
                other != name ==> #[trigger] self@.contains_key(other) == before@.contains_key(
                    other,
                ),
            forall|other: Seq<char>|
                other != name && before@.contains_key(other) ==> #[trigger] self@[other]
                    == before@[other],
    {
        assert forall|other: Seq<char>|
            other != name && #[trigger] before@.contains_key(other) implies self@.contains_key(
            other,
        ) && self@[other] == before@[other] by {
            let k = choose|k: int| before.is_at(other, k);
            assert(before.is_at(other, k));
            assert(self.is_at(other, k));
            before.row_counts(k);
            self.row_counts(k);
        }
        assert forall|other: Seq<char>|
            other != name && #[trigger] self@.contains_key(other) implies before@.contains_key(
            other,
        ) by {
            let k = choose|k: int| self.is_at(other, k);
            assert(self.is_at(other, k));
            assert(before.is_at(other, k));
        }
    }

    /// Takes the row for `name` out.
    pub fn remove(&mut self, name: &str)
        requires
            old(self).well_formed(),
        ensures
            final(self).well_formed(),
            final(self)@ == old(self)@.remove(name@),
    {
        let ghost before = *self;
        match self.find(name) {
            Some(i) => {
                let _ = self.rows.remove(i);
                proof {
                    assert forall|k: int| 0 <= k < self.rows@.len() implies #[trigger] self.rows@[k]
                        == before.rows@[if k < i {
                        k
                    } else {
                        k + 1
                    }] by {}
                    assert(self.well_formed());
                    assert forall|other: Seq<char>| #[trigger]
                        self@.contains_key(other) implies other != name@
                        && before@.contains_key(other) && self@[other] == before@[other] by {
                        let k = choose|k: int| self.is_at(other, k);
                        assert(self.is_at(other, k));
                        let m = if k < i {
                            k
                        } else {
                            k + 1
                        };
                        assert(before.is_at(other, m));
                        before.row_counts(m);
                        self.row_counts(k);
                    }
                    assert forall|other: Seq<char>|
                        other != name@ && #[trigger] before@.contains_key(
                            other,
                        ) implies self@.contains_key(
                        other,
                    ) by {
                        let m = choose|m: int| before.is_at(other, m);
                        assert(before.is_at(other, m));
                        let k = if m < i {
                            m
                        } else {
                            m - 1
                        };
                        assert(self.is_at(other, k));
                    }
                    assert(self@ =~= before@.remove(name@));
                }
            },
            None => {
                proof {
                    assert(self@ =~= before@.remove(name@));
                }
            },
        }
    }

    /// How many rows there are.
    pub fn len(&self) -> (r: usize)
        ensures
            r == self.names().len(),
    {
        self.rows.len()
    }

    /// The name and what is held under it of the row at `i`.
    pub fn row(&self, i: usize) -> (r: (&str, &T))
        requires
            self.well_formed(),
            i < self.names().len(),
        ensures
            r.0@ == self.names()[i as int],
            self@.contains_key(r.0@),
            self@[r.0@] == *r.1,
    {
        proof {
            self.row_counts(i as int);
        }
        (self.rows[i].0.as_str(), &self.rows[i].1)
    }
}

/// What lasts until a certain second.
pub trait Lasting {
    /// The second at which it ends.
    spec fn end(&self) -> i64;

    /// The second at which it ends.
    fn end_sec(&self) -> (r: i64)
        ensures
            r == self.end(),
    ;
}

/// `names` are those of the rows that last beyond `now`, each once, the longest first.
pub open spec fn by_end<T: Lasting>(
    names: Seq<Seq<char>>,
    rows: Map<Seq<char>, T>,
    now: i64,
) -> bool {
    &&& names.no_duplicates()
    &&& forall|name: Seq<char>| #[trigger]
        names.contains(name) <==> rows.contains_key(name) && rows[name].end() > now
    &&& forall|i: int, j: int|
        0 <= i < j < names.len() ==> rows[#[trigger] names[i]].end() >= rows[
            #[trigger] names[j]].end()
}

/// What is among the first `i + 1` of `list` is among the first `i`, or is the next.
proof fn one_more(list: Seq<Seq<char>>, i: int)
    requires
        0 <= i < list.len(),
    ensures
        forall|name: Seq<char>| #[trigger]
            list.take(i + 1).contains(name) <==> list.take(i).contains(name) || name == list[i],
{
    let some = list.take(i);
    let more = list.take(i + 1);
    assert forall|name: Seq<char>| some.contains(name) || name == list[i] implies #[trigger]
        more.contains(name) by {
        if name == list[i] {
            assert(more[i] == name);
        } else {
            let k = choose|k: int| 0 <= k < some.len() && some[k] == name;
            assert(more[k] == name);
        }
    }
    assert forall|name: Seq<char>| #[trigger] more.contains(name) && name
        != list[i] implies some.contains(name) by {
        let k = choose|k: int| 0 <= k < more.len() && more[k] == name;
        assert(some[k] == name);
    }
}

/// A name that is put in between belongs to the list, as do those that were there, and no other.
proof fn put_in(before: Seq<Seq<char>>, at: int, name: Seq<char>)
    requires
        0 <= at <= before.len(),
    ensures
        forall|other: Seq<char>| #[trigger]
            before.insert(at, name).contains(other) <==> before.contains(other) || other == name,
        before.no_duplicates() && !before.contains(name) ==> before.insert(
            at,
            name,
        ).no_duplicates(),
{
    let after = before.insert(at, name);
    before.insert_ensures(at, name);
    assert forall|other: Seq<char>| before.contains(other) || other == name implies #[trigger]
        after.contains(other) by {
        if other == name {
            assert(after[at] == name);
        } else {
            let k = choose|k: int| 0 <= k < before.len() && before[k] == other;
            assert(after[if k < at {
                k
            } else {
                k + 1
            }] == other);
        }
    }
    assert forall|other: Seq<char>| #[trigger] after.contains(other) && other
        != name implies before.contains(other) by {
        let k = choose|k: int| 0 <= k < after.len() && after[k] == other;
        assert(before[if k < at {
            k
        } else {
            k - 1
        }] == other);
    }
    if before.no_duplicates() && !before.contains(name) {
        assert forall|i: int, j: int|
            0 <= i < after.len() && 0 <= j < after.len() && i != j implies after[i] != after[j] by {
            let x = if i < at {
                i
            } else {
                i - 1
            };
            let y = if j < at {
                j
            } else {
                j - 1
            };
            if i != at {
                assert(after[i] == before[x]);
            }
            if j != at {
                assert(after[j] == before[y]);
            }
        }
    }
}

impl<T: Lasting> Table<T> {
    /// The rows for `names` are in the table, the longest first.
    spec fn in_order(self, names: Seq<Seq<char>>) -> bool {
        &&& forall|k: int| 0 <= k < names.len() ==> self@.contains_key(#[trigger] names[k])
        &&& forall|a: int, b: int|
            0 <= a < b < names.len() ==> self@[#[trigger] names[a]].end() >= self@[
                #[trigger] names[b]].end()
    }

    /// Where among `names` a row that lasts until `end` belongs: behind all that last as long.
    fn place(&self, names: &Vec<String>, end: i64) -> (r: usize)
        requires
            self.well_formed(),
            self.in_order(text::strings(names@)),
        ensures
            r <= names@.len(),
            forall|k: int|
                0 <= k < r ==> self@[#[trigger] text::strings(names@)[k]].end() >= end,
            forall|k: int|
                r <= k < names@.len() ==> self@[#[trigger] text::strings(names@)[k]].end() <= end,
    {
        let ghost list = text::strings(names@);
        let mut at: usize = 0;
        while at < names.len()
            invariant
                at <= names@.len(),
                self.well_formed(),
                list == text::strings(names@),
                self.in_order(list),
                forall|k: int| 0 <= k < at ==> self@[#[trigger] list[k]].end() >= end,
            decreases names@.len() - at,
        {
            proof {
                assert(list[at as int] == names@[at as int]@);
            }
            if let Some(row) = self.get(names[at].as_str()) {
                if row.end_sec() < end {
                    return at;
                }
            }
            at += 1;
        }
        at
    }

    /// The names of the rows that last beyond `now`, the longest first.
    pub fn names_by_end(&self, now: i64) -> (r: Vec<String>)
        requires
            self.well_formed(),
        ensures
            by_end(text::strings(r@), self@, now),
    {
        let mut out: Vec<String> = Vec::new();
        let mut i: usize = 0;
        proof {
            self.names_are_keys();
        }
        while i < self.len()
            invariant
                i <= self.names().len(),
                self.well_formed(),
                self.names().no_duplicates(),
                forall|name: Seq<char>| self.names().contains(name) <==> self@.contains_key(name),
                self.in_order(text::strings(out@)),
                text::strings(out@).no_duplicates(),
                forall|name: Seq<char>| #[trigger]
                    text::strings(out@).contains(name) <==> self.names().take(
                        i as int,
                    ).contains(name) && self@[name].end() > now,
            decreases self.names().len() - i,
        {
            let (name, value) = self.row(i);
            let end = value.end_sec();
            proof {
                one_more(self.names(), i as int);
                assert(!self.names().take(i as int).contains(name@));
            }
            if end > now {
                let ghost before = text::strings(out@);
                let at = self.place(&out, end);
                out.insert(at, name.to_owned());
                proof {
                    let after = text::strings(out@);
                    assert(after =~= before.insert(at as int, name@));
                    put_in(before, at as int, name@);
                    before.insert_ensures(at as int, name@);
                    assert forall|k: int| 0 <= k < after.len() implies self@.contains_key(
                        #[trigger] after[k],
                    ) by {
                        if k < at {
                            assert(after[k] == before[k]);
                        } else if k > at {
                            assert(after[k] == before[k - 1]);
                        }
                    }
                    assert forall|a: int, b: int| 0 <= a < b < after.len() implies self@[
                        #[trigger] after[a]].end() >= self@[#[trigger] after[b]].end() by {
                        let x = if a < at {
                            a
                        } else {
                            a - 1
                        };
                        let y = if b < at {
                            b
                        } else {
                            b - 1
                        };
                        if a != at {
                            assert(after[a] == before[x]);
                        }
                        if b != at {
                            assert(after[b] == before[y]);
                        }
                    }
                }
            }
            i += 1;
        }
        proof {
            assert(self.names().take(self.names().len() as int) =~= self.names());
        }
        out
    }
}

} // verus!
