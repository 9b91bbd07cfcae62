//! A map from names to values that lists its entries in the order of their names.

use vstd::prelude::*;

use crate::text::chars_of;

verus! {

/// Whether `a` stands before `b` in the dictionary: the characters are compared one by one, by
/// their code points, and a text stands after each of its beginnings.
pub open spec fn text_before(a: Seq<char>, b: Seq<char>) -> bool
    decreases a.len(),
{
    if b.len() == 0 {
        false
    } else if a.len() == 0 {
        true
    } else if a[0] == b[0] {
        text_before(a.drop_first(), b.drop_first())
    } else {
        a[0] < b[0]
    }
}

/// No text stands before itself, and of two different texts one stands before the other.
pub proof fn lemma_text_before_total(a: Seq<char>, b: Seq<char>)
    ensures
        !(text_before(a, b) && text_before(b, a)),
        a == b <==> !text_before(a, b) && !text_before(b, a),
    decreases a.len(),
{
    if a.len() > 0 && b.len() > 0 {
        lemma_text_before_total(a.drop_first(), b.drop_first());
        if a[0] == b[0] && a.drop_first() == b.drop_first() {
            assert(a =~= seq![a[0]] + a.drop_first());
            assert(b =~= seq![b[0]] + b.drop_first());
        }
    } else if a.len() == 0 && b.len() == 0 {
        assert(a =~= b);
    }
}

/// What stands before a text stands before all that follows it.
pub proof fn lemma_text_before_transitive(a: Seq<char>, b: Seq<char>, c: Seq<char>)
    requires
        text_before(a, b),
        text_before(b, c),
    ensures
        text_before(a, c),
    decreases a.len(),
{
    if a.len() > 0 && b.len() > 0 && c.len() > 0 && a[0] == b[0] && b[0] == c[0] {
        lemma_text_before_transitive(a.drop_first(), b.drop_first(), c.drop_first());
    }
}

/// The first character in which two texts differ decides, by its number, which of them stands
/// first; a text stands before all that begin with it.
pub proof fn law_the_first_difference_decides(a: Seq<char>, b: Seq<char>, k: int)
    requires
        0 <= k <= a.len(),
        k <= b.len(),
        a.take(k) == b.take(k),
        k < a.len() && k < b.len() ==> a[k] != b[k],
    ensures
        k < a.len() && k < b.len() ==> (text_before(a, b) <==> (a[k] as int) < (b[k] as int)),
        k == a.len() ==> (text_before(a, b) <==> a.len() < b.len()),
        k == b.len() ==> !text_before(a, b),
    decreases k,
{
    if k > 0 {
        assert(a[0] == a.take(k)[0]);
        assert(b[0] == b.take(k)[0]);
        let x = a.drop_first();
        let y = b.drop_first();
        assert(x.take(k - 1) =~= a.take(k).drop_first());
        assert(y.take(k - 1) =~= b.take(k).drop_first());
        law_the_first_difference_decides(x, y, k - 1);
    }
}

/// Whether the texts stand in the order of the dictionary, each of them once.
pub open spec fn ascending(names: Seq<Seq<char>>) -> bool {
    forall|i: int, j: int| 0 <= i < j < names.len() ==> text_before(#[trigger] names[i], #[trigger] names[j])
}

/// No text occurs twice in an ascending list.
pub proof fn lemma_ascending_distinct(names: Seq<Seq<char>>, i: int, j: int)
    requires
        ascending(names),
        0 <= i < names.len(),
        0 <= j < names.len(),
        names[i] == names[j],
    ensures
        i == j,
{
    lemma_text_before_total(names[i], names[j]);
}

/// A set of texts has one ascending listing.
pub proof fn lemma_ascending_unique(a: Seq<Seq<char>>, b: Seq<Seq<char>>)
    requires
        ascending(a),
        ascending(b),
        forall|t: Seq<char>| a.contains(t) <==> b.contains(t),
    ensures
        a == b,
    decreases a.len(),
{
    if a.len() == 0 {
        if b.len() > 0 {
            assert(b.contains(b[0]));
        }
        assert(a =~= b);
    } else {
        assert(a.contains(a[0]));
        assert(b.len() > 0);
        assert(b.contains(b[0]));
        let i = choose|i: int| 0 <= i < b.len() && b[i] == a[0];
        let j = choose|j: int| 0 <= j < a.len() && a[j] == b[0];
        lemma_text_before_total(a[0], b[0]);
        assert(a[0] == b[0]);
        let x = a.drop_first();
        let y = b.drop_first();
        assert forall|t: Seq<char>| x.contains(t) <==> y.contains(t) by {
            lemma_tail_contains(a, t);
            lemma_tail_contains(b, t);
        }
        assert(ascending(x)) by {
            assert forall|i: int, j: int| 0 <= i < j < x.len() implies text_before(
                #[trigger] x[i],
                #[trigger] x[j],
            ) by {
                assert(x[i] == a[i + 1] && x[j] == a[j + 1]);
            }
        }
        assert(ascending(y)) by {
            assert forall|i: int, j: int| 0 <= i < j < y.len() implies text_before(
                #[trigger] y[i],
                #[trigger] y[j],
            ) by {
                assert(y[i] == b[i + 1] && y[j] == b[j + 1]);
            }
        }
        lemma_ascending_unique(x, y);
        assert(a =~= seq![a[0]] + x);
        assert(b =~= seq![b[0]] + y);
    }
}

proof fn lemma_tail_contains(a: Seq<Seq<char>>, t: Seq<char>)
    requires
        ascending(a),
        a.len() > 0,
    ensures
        a.drop_first().contains(t) <==> a.contains(t) && t != a[0],
{
    let x = a.drop_first();
    if x.contains(t) {
        let i = choose|i: int| 0 <= i < x.len() && x[i] == t;
        assert(a[i + 1] == t);
        lemma_text_before_total(a[0], t);
    }
    if a.contains(t) && t != a[0] {
        let i = choose|i: int| 0 <= i < a.len() && a[i] == t;
        assert(x[i - 1] == t);
    }
}

/// How two texts stand to each other in the dictionary.
#[derive(Clone, Copy, PartialEq, Eq, Structural, Debug)]
pub enum Place {
    Before,
    Same,
    After,
}

/// Where `a` stands as seen from `b`.
pub fn place_of(a: &str, b: &str) -> (r: Place)
    ensures
        r == Place::Before <==> text_before(a@, b@),
        r == Place::Same <==> a@ == b@,
        r == Place::After <==> text_before(b@, a@),
{
    let left = chars_of(a);
    let right = chars_of(b);
    let mut k: usize = 0;
    assert(left@.skip(0) == a@ && right@.skip(0) == b@);
    while k < left.len() && k < right.len() && left[k] == right[k]
        invariant
            k <= left@.len(),
            k <= right@.len(),
            left@ == a@,
            right@ == b@,
            text_before(a@, b@) == text_before(left@.skip(k as int), right@.skip(k as int)),
            text_before(b@, a@) == text_before(right@.skip(k as int), left@.skip(k as int)),
        decreases left@.len() - k,
    {
        proof {
            assert(left@.skip(k as int).drop_first() == left@.skip(k + 1));
            assert(right@.skip(k as int).drop_first() == right@.skip(k + 1));
        }
        k = k + 1;
    }
    proof {
        lemma_text_before_total(a@, b@);
    }
    if k == left.len() {
        if k == right.len() {
            Place::Same
        } else {
            Place::Before
        }
    } else if k == right.len() {
        Place::After
    } else if left[k] < right[k] {
        Place::Before
    } else {
        Place::After
    }
}

/// Names with a value each, listed in the order of the names.
#[derive(Debug)]
pub struct NameMap<V> {
    entries: Vec<(String, V)>,
}

/// The names of the entries, in their order.
pub closed spec fn entry_names<V>(entries: Seq<(String, V)>) -> Seq<Seq<char>> {
    entries.map_values(|e: (String, V)| e.0@)
}

impl<V> View for NameMap<V> {
    type V = Map<Seq<char>, V>;

    closed spec fn view(&self) -> Map<Seq<char>, V> {
        Map::new(
            |name: Seq<char>| self.names().contains(name),
            |name: Seq<char>| self.entries@[self.names().index_of(name)].1,
        )
    }
}

impl<V: Clone> Clone for NameMap<V> {
    fn clone(&self) -> (r: Self)
        ensures
            r.names() == self.names(),
            self.wf() ==> r.wf(),
            self.wf() ==> forall|name: Seq<char>| #[trigger]
                self@.contains_key(name) ==> cloned(self@[name], r@[name]),
    {
        let mut entries: Vec<(String, V)> = Vec::new();
        let count = self.entries.len();
        for i in 0..count
            invariant
                count == self.entries@.len(),
                entries@.len() == i,
                forall|k: int|
                    0 <= k < i ==> (#[trigger] entries@[k]).0@ == self.entries@[k].0@ && cloned(
                        self.entries@[k].1,
                        entries@[k].1,
                    ),
        {
            let entry = (self.entries[i].0.clone(), self.entries[i].1.clone());
            entries.push(entry);
        }
        let r = NameMap { entries };
        assert(r.names() =~= self.names());
        assert(r@.dom() =~= r.names().to_set());
        proof {
            if self.wf() {
                assert forall|name: Seq<char>| #[trigger] self@.contains_key(name) implies cloned(
                    self@[name],
                    r@[name],
                ) by {
                    let k = self.names().index_of(name);
                    self.lemma_entry(k);
                    r.lemma_entry(k);
                    assert(cloned(self.entries@[k].1, r.entries@[k].1));
                }
            }
        }
        r
    }
}

impl<V> NameMap<V> {
    /// The names, in the order in which the map lists them.
    pub closed spec fn names(&self) -> Seq<Seq<char>> {
        entry_names(self.entries@)
    }

    /// The names stand in ascending order, each of them once.
    pub open spec fn wf(&self) -> bool {
        &&& ascending(self.names())
        &&& self@.dom() == self.names().to_set()
        &&& self.names().len() <= usize::MAX
    }

    /// An entry of the list is an entry of the map.
    proof fn lemma_entry(&self, i: int)
        requires
            ascending(self.names()),
            0 <= i < self.entries@.len(),
        ensures
            self@.contains_key(self.entries@[i].0@),
            self@[self.entries@[i].0@] == self.entries@[i].1,
    {
        let name = self.entries@[i].0@;
        assert(self.names()[i] == name);
        let k = self.names().index_of(name);
        lemma_ascending_distinct(self.names(), i, k);
    }

    /// A map whose entry at `k` got another value.
    proof fn lemma_replaced(self, after: Self, k: int, entry: (String, V))
        requires
            self.wf(),
            0 <= k < self.entries@.len(),
            after.entries@ == self.entries@.update(k, entry),
            entry.0@ == self.names()[k],
        ensures
            after.wf(),
            after@ == self@.insert(entry.0@, entry.1),
    {
        assert(after.names() =~= self.names());
        assert(after@.dom() =~= after.names().to_set());
        assert forall|name: Seq<char>| after@.contains_key(name) implies after@[name]
            == self@.insert(entry.0@, entry.1)[name] by {
            let i = after.names().index_of(name);
            after.lemma_entry(i);
            self.lemma_entry(i);
            if name == entry.0@ {
                lemma_ascending_distinct(self.names(), i, k);
            }
        }
        assert(self@.insert(entry.0@, entry.1).dom() =~= self@.dom()) by {
            self.lemma_entry(k);
        }
        assert(after@ =~= self@.insert(entry.0@, entry.1));
    }

    /// A map that got one more entry, at the place of its name.
    proof fn lemma_inserted(self, after: Self, k: int, entry: (String, V))
        requires
            self.wf(),
            0 <= k <= self.entries@.len(),
            after.entries@ == self.entries@.insert(k, entry),
            after.entries@.len() <= usize::MAX,
            forall|i: int| 0 <= i < k ==> text_before(#[trigger] self.names()[i], entry.0@),
            forall|i: int| k <= i < self.names().len() ==> text_before(entry.0@, #[trigger] self.names()[i]),
        ensures
            after.wf(),
            after@ == self@.insert(entry.0@, entry.1),
    {
        let name = entry.0@;
        let names = after.names();
        assert(names =~= self.names().insert(k, name));
        assert(ascending(names)) by {
            assert forall|i: int, j: int| 0 <= i < j < names.len() implies text_before(
                #[trigger] names[i],
                #[trigger] names[j],
            ) by {
                let a = if i < k { i } else { i - 1 };
                let b = if j < k { j } else { j - 1 };
                if i != k && j != k {
                    assert(names[i] == self.names()[a] && names[j] == self.names()[b]);
                } else if i == k {
                    assert(names[j] == self.names()[b]);
                } else {
                    assert(names[i] == self.names()[a]);
                }
            }
        }
        assert(after@.dom() =~= names.to_set());
        let goal = self@.insert(name, entry.1);
        assert forall|t: Seq<char>| after@.contains_key(t) implies goal.contains_key(t) && after@[t]
            == goal[t] by {
            let i = names.index_of(t);
            after.lemma_entry(i);
            if i < k {
                self.lemma_entry(i);
                lemma_text_before_total(t, name);
            } else if i > k {
                self.lemma_entry(i - 1);
                assert(names[i] == self.names()[i - 1]);
                lemma_text_before_total(t, name);
            }
        }
        assert forall|t: Seq<char>| goal.contains_key(t) implies after@.contains_key(t) by {
            if t == name {
                assert(names[k] == t);
            } else {
                let i = self.names().index_of(t);
                assert(self.names()[i] == t);
                assert(names[if i < k { i } else { i + 1 }] == t);
            }
        }
        assert(after@ =~= goal);
    }

    /// The map without entries.
    pub fn new() -> (r: Self)
        ensures
            r.wf(),
            r@ == Map::<Seq<char>, V>::empty(),
            r.names() == Seq::<Seq<char>>::empty(),
    {
        let r = NameMap { entries: Vec::new() };
        assert(r@ =~= Map::<Seq<char>, V>::empty());
        assert(r@.dom() =~= r.names().to_set());
        r
    }

    /// How many names there are.
    pub fn len(&self) -> (r: usize)
        ensures
            r == self.names().len(),
    {
        self.entries.len()
    }

    /// The name of the entry at `i`.
    pub fn name_at(&self, i: usize) -> (r: &str)
        requires
            i < self.names().len(),
        ensures
            r@ == self.names()[i as int],
    {
        self.entries[i].0.as_str()
    }

    /// The value of the entry at `i`.
    pub fn value_at(&self, i: usize) -> (r: &V)
        requires
            self.wf(),
            i < self.names().len(),
        ensures
            self@.contains_key(self.names()[i as int]),
            *r == self@[self.names()[i as int]],
    {
        proof {
            self.lemma_entry(i as int);
        }
        &self.entries[i].1
    }

    /// The first position whose name does not stand before `name`.
    fn position(&self, name: &str) -> (r: usize)
        requires
            ascending(self.names()),
        ensures
            r <= self.names().len(),
            forall|i: int| 0 <= i < r ==> text_before(#[trigger] self.names()[i], name@),
            forall|i: int| r <= i < self.names().len() ==> !text_before(#[trigger] self.names()[i], name@),
    {
        let mut k: usize = 0;
        while k < self.entries.len() && place_of(self.entries[k].0.as_str(), name) == Place::Before
            invariant
                k <= self.entries@.len(),
                forall|i: int| 0 <= i < k ==> text_before(#[trigger] self.names()[i], name@),
            decreases self.entries@.len() - k,
        {
            k = k + 1;
        }
        proof {
            assert forall|i: int| k <= i < self.names().len() implies !text_before(
                #[trigger] self.names()[i],
                name@,
            ) by {
                if text_before(self.names()[i], name@) {
                    if k < i {
                        lemma_text_before_transitive(self.names()[k as int], self.names()[i], name@);
                    }
                }
            }
        }
        k
    }

    /// Where `name` stands in the list, if it does.
    pub fn index_of(&self, name: &str) -> (r: Option<usize>)
        requires
            self.wf(),
        ensures
            match r {
                Some(i) => i < self.names().len() && self.names()[i as int] == name@,
                None => !self.names().contains(name@),
            },
    {
        let k = self.position(name);
        if k < self.entries.len() && place_of(self.entries[k].0.as_str(), name) == Place::Same {
            Some(k)
        } else {
            proof {
                if self.names().contains(name@) {
                    let i = self.names().index_of(name@);
                    assert(self.names()[i] == name@);
                    lemma_text_before_total(name@, name@);
                    assert(i >= k);
                    if i > k {
                        lemma_text_before_total(self.names()[k as int], name@);
                    }
                }
            }
            None
        }
    }

    /// The value that goes with `name`, if there is one.
    pub fn get(&self, name: &str) -> (r: Option<&V>)
        requires
            self.wf(),
        ensures
            match r {
                Some(value) => self@.contains_key(name@) && *value == self@[name@],
                None => !self@.contains_key(name@),
            },
    {
        match self.index_of(name) {
            Some(k) => {
                proof {
                    self.lemma_entry(k as int);
                }
                Some(&self.entries[k].1)
            },
            None => None,
        }
    }

    /// Gives `name` the value, in place of the one that it had.
    pub fn insert(&mut self, name: String, value: V)
        requires
            old(self).wf(),
        ensures
            final(self).wf(),
            final(self)@ == old(self)@.insert(name@, value),
    {
        let k = self.position(name.as_str());
        let ghost before = *self;
        let ghost entry = (name, value);
        if k < self.entries.len() && place_of(self.entries[k].0.as_str(), name.as_str())
            == Place::Same {
            self.entries[k] = (name, value);
            proof {
                before.lemma_replaced(*self, k as int, entry);
            }
        } else {
            proof {
                assert forall|i: int| k <= i < before.names().len() implies text_before(
                    entry.0@,
                    #[trigger] before.names()[i],
                ) by {
                    lemma_text_before_total(before.names()[i], entry.0@);
                    if before.names()[i] == entry.0@ && i > k {
                        assert(text_before(before.names()[k as int], before.names()[i]));
                    }
                }
            }
            self.entries.insert(k, (name, value));
            proof {
                assert(self.entries.len() <= usize::MAX);
                before.lemma_inserted(*self, k as int, entry);
            }
        }
    }
}

} // verus!
