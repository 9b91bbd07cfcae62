//! The names by which the services of a session can be called.

use vstd::prelude::*;

use crate::attach::short_names::{
    build_service_short_names, law_short_name_is_no_other_name, law_short_names_are_distinct,
    short_names_of, text_map,
};
use crate::ipc::ServiceSnapshot;
use crate::name_map::{ascending, NameMap};
use crate::text::{alphanumeric, chars_of, is_word_char, lemma_views_push, starts_with, views};

verus! {

/// The full and the short names of the services.
#[derive(Debug)]
pub struct ServiceNames {
    short_by_full: NameMap<String>,
    full_by_short: NameMap<String>,
}

/// The names as values: the full names and the short names, each in ascending order, and what
/// stands for what.
pub struct ServiceNamesView {
    pub full: Seq<Seq<char>>,
    pub short: Seq<Seq<char>>,
    pub short_by_full: Map<Seq<char>, Seq<char>>,
    pub full_by_short: Map<Seq<char>, Seq<char>>,
}

impl View for ServiceNames {
    type V = ServiceNamesView;

    closed spec fn view(&self) -> ServiceNamesView {
        ServiceNamesView {
            full: self.short_by_full.names(),
            short: self.full_by_short.names(),
            short_by_full: text_map(self.short_by_full@),
            full_by_short: text_map(self.full_by_short@),
        }
    }
}

/// The texts that begin with `prefix`.
pub open spec fn begins_with(prefix: Seq<char>) -> spec_fn(Seq<char>) -> bool {
    |t: Seq<char>| prefix.is_prefix_of(t)
}

/// Whether the text is made of letters and numbers alone.
pub open spec fn is_plain(s: Seq<char>) -> bool {
    forall|i: int| 0 <= i < s.len() ==> alphanumeric(#[trigger] s[i])
}

impl ServiceNamesView {
    /// The lists hold the names of the maps in ascending order, the maps are each other's
    /// inverse, and no short name is the full name of another service.
    pub open spec fn wf(self) -> bool {
        &&& ascending(self.full)
        &&& ascending(self.short)
        &&& self.full.to_set() == self.short_by_full.dom()
        &&& self.short.to_set() == self.full_by_short.dom()
        &&& forall|f: Seq<char>| #[trigger]
            self.short_by_full.contains_key(f) ==> self.full_by_short.contains_key(
                self.short_by_full[f],
            ) && self.full_by_short[self.short_by_full[f]] == f
        &&& forall|s: Seq<char>| #[trigger]
            self.full_by_short.contains_key(s) ==> self.short_by_full.contains_key(
                self.full_by_short[s],
            ) && self.short_by_full[self.full_by_short[s]] == s
        &&& forall|f: Seq<char>, g: Seq<char>| #[trigger]
            self.short_by_full.contains_key(f) && #[trigger] self.short_by_full.contains_key(g)
                && self.short_by_full[f] == g ==> f == g
    }

    /// The service that a token stands for: the one of that name, or else the one of that short
    /// name.
    pub open spec fn resolve(self, token: Seq<char>) -> Option<Seq<char>> {
        if self.short_by_full.contains_key(token) {
            Some(token)
        } else if self.full_by_short.contains_key(token) {
            Some(self.full_by_short[token])
        } else {
            None
        }
    }

    /// The short name of the service; empty for a name that no service has.
    pub open spec fn short_name(self, full_name: Seq<char>) -> Seq<char> {
        if self.short_by_full.contains_key(full_name) {
            self.short_by_full[full_name]
        } else {
            Seq::empty()
        }
    }

    /// What a beginning can be completed to: short names while it is plain, else full names; the
    /// other kind where there is none of the one.
    pub open spec fn candidates(self, prefix: Seq<char>) -> Seq<Seq<char>> {
        let short = self.short.filter(begins_with(prefix));
        let full = self.full.filter(begins_with(prefix));
        if short.len() > 0 && (is_plain(prefix) || full.len() == 0) {
            short
        } else {
            full
        }
    }
}

/// A short name stands for its service, and so does the full name: what the terminal shows and
/// what the configuration says can both be typed.
pub proof fn law_names_resolve(v: ServiceNamesView, full_name: Seq<char>)
    requires
        v.wf(),
        v.short_by_full.contains_key(full_name),
    ensures
        v.resolve(full_name) == Some(full_name),
        v.resolve(v.short_name(full_name)) == Some(full_name),
{
}

/// A token stands for a service only if it is that service's full or short name.
pub proof fn law_only_names_resolve(v: ServiceNamesView, token: Seq<char>)
    requires
        v.wf(),
        v.resolve(token) is Some,
    ensures
        v.short_by_full.contains_key(v.resolve(token)->0),
        token == v.resolve(token)->0 || token == v.short_name(v.resolve(token)->0),
{
}

/// Each candidate begins with what was typed and stands for a service.
pub proof fn law_candidates_resolve(v: ServiceNamesView, prefix: Seq<char>, i: int)
    requires
        v.wf(),
        0 <= i < v.candidates(prefix).len(),
    ensures
        prefix.is_prefix_of(v.candidates(prefix)[i]),
        v.resolve(v.candidates(prefix)[i]) is Some,
{
    let name = v.candidates(prefix)[i];
    let short = v.short.filter(begins_with(prefix));
    let full = v.full.filter(begins_with(prefix));
    lemma_filtered(v.short, begins_with(prefix));
    lemma_filtered(v.full, begins_with(prefix));
    if short.len() > 0 && (is_plain(prefix) || full.len() == 0) {
        assert(v.short.contains(name));
        assert(v.short.to_set().contains(name));
    } else {
        assert(v.full.contains(name));
        assert(v.full.to_set().contains(name));
    }
}

/// What can be completed is offered: a beginning that is plain offers exactly the short names that
/// begin with it, where there are any; every other offers exactly the full names that do, or,
/// where there are none, the short names.
pub proof fn law_candidates_are_all_that_begin_so(
    v: ServiceNamesView,
    prefix: Seq<char>,
    name: Seq<char>,
)
    requires
        v.wf(),
        prefix.is_prefix_of(name),
    ensures
        is_plain(prefix) && v.full_by_short.contains_key(name) ==> v.candidates(prefix).contains(
            name,
        ),
        !is_plain(prefix) && v.short_by_full.contains_key(name) ==> v.candidates(prefix).contains(
            name,
        ),
        v.full_by_short.contains_key(name) || v.short_by_full.contains_key(name) ==> v.candidates(
            prefix,
        ).len() > 0,
        is_plain(prefix) && v.full_by_short.contains_key(name) ==> forall|other: Seq<char>|
            #[trigger] v.candidates(prefix).contains(other) ==> v.full_by_short.contains_key(other),
        !is_plain(prefix) && v.short_by_full.contains_key(name) ==> forall|other: Seq<char>|
            #[trigger] v.candidates(prefix).contains(other) ==> v.short_by_full.contains_key(other),
{
    let p = begins_with(prefix);
    let short = v.short.filter(p);
    let full = v.full.filter(p);
    lemma_filtered(v.short, p);
    lemma_filtered(v.full, p);
    assert(p(name));
    if v.full_by_short.contains_key(name) {
        assert(v.short.to_set().contains(name));
        assert(v.short.contains(name));
        assert(short.contains(name));
    }
    if v.short_by_full.contains_key(name) {
        assert(v.full.to_set().contains(name));
        assert(v.full.contains(name));
        assert(full.contains(name));
    }
    assert forall|other: Seq<char>| #[trigger] short.contains(other) implies v.full_by_short.contains_key(
        other,
    ) by {
        let i = short.index_of(other);
        assert(v.short.contains(short[i]));
        assert(v.short.to_set().contains(other));
    }
    assert forall|other: Seq<char>| #[trigger] full.contains(other) implies v.short_by_full.contains_key(
        other,
    ) by {
        let i = full.index_of(other);
        assert(v.full.contains(full[i]));
        assert(v.full.to_set().contains(other));
    }
}

/// What was kept by a filter satisfies it, was there before, and is all that satisfies it.
pub proof fn lemma_filtered(s: Seq<Seq<char>>, p: spec_fn(Seq<char>) -> bool)
    ensures
        forall|i: int|
            0 <= i < s.filter(p).len() ==> p(#[trigger] s.filter(p)[i]) && s.contains(s.filter(p)[i]),
        forall|t: Seq<char>| #[trigger] s.contains(t) && p(t) ==> s.filter(p).contains(t),
    decreases s.len(),
{
    reveal(Seq::filter);
    if s.len() > 0 {
        let front = s.drop_last();
        lemma_filtered(front, p);
        assert forall|i: int| 0 <= i < s.filter(p).len() implies p(#[trigger] s.filter(p)[i])
            && s.contains(s.filter(p)[i]) by {
            if i < front.filter(p).len() {
                let t = front.filter(p)[i];
                let j = choose|j: int| 0 <= j < front.len() && front[j] == t;
                assert(s[j] == t);
            } else {
                assert(s[s.len() - 1] == s.last());
            }
        }
        assert forall|t: Seq<char>| #[trigger] s.contains(t) && p(t) implies s.filter(p).contains(
            t,
        ) by {
            if t == s.last() {
                assert(s.filter(p)[s.filter(p).len() - 1] == t);
            } else {
                let j = choose|j: int| 0 <= j < s.len() && s[j] == t;
                assert(front[j] == t);
                assert(front.contains(t));
                let k = choose|k: int| 0 <= k < front.filter(p).len() && front.filter(p)[k] == t;
                assert(s.filter(p)[k] == t);
            }
        }
    }
}

/// Whether the text is made of letters and numbers alone.
fn plain(s: &str) -> (r: bool)
    ensures
        r == is_plain(s@),
{
    let chars = chars_of(s);
    for i in 0..chars.len()
        invariant
            chars@ == s@,
            forall|j: int| 0 <= j < i ==> alphanumeric(#[trigger] chars@[j]),
    {
        if !is_word_char(chars[i]) {
            assert(!alphanumeric(s@[i as int]));
            return false;
        }
    }
    true
}

/// The names of the map that begin with `prefix`, in ascending order.
fn matching<'a>(map: &'a NameMap<String>, prefix: &str) -> (r: Vec<&'a str>)
    ensures
        views(r@) == map.names().filter(begins_with(prefix@)),
{
    let mut r: Vec<&'a str> = Vec::new();
    let count = map.len();
    let ghost names = map.names();
    assert(names.take(0).filter(begins_with(prefix@)) == Seq::<Seq<char>>::empty()) by {
        reveal(Seq::filter);
    }
    assert(views(r@) == Seq::<Seq<char>>::empty());
    for i in 0..count
        invariant
            names == map.names(),
            count == names.len(),
            views(r@) == names.take(i as int).filter(begins_with(prefix@)),
    {
        let name = map.name_at(i);
        proof {
            reveal(Seq::filter);
            assert(names.take(i + 1).drop_last() == names.take(i as int));
            assert(names.take(i + 1).last() == name@);
            lemma_views_push(r@, name);
        }
        if starts_with(name, prefix) {
            r.push(name);
        }
    }
    assert(names.take(names.len() as int) == names);
    r
}

impl ServiceNames {
    /// The maps are well formed and tell the same.
    pub closed spec fn wf(&self) -> bool {
        &&& self.short_by_full.wf()
        &&& self.full_by_short.wf()
        &&& self@.wf()
    }

    /// The names of the given services.
    pub fn from_services(services: &NameMap<ServiceSnapshot>) -> (r: Self)
        ensures
            r.wf(),
            r@.wf(),
            r@.short_by_full == short_names_of(services.names()),
    {
        let mut names: Vec<&str> = Vec::new();
        let count = services.len();
        assert(views(names@) == services.names().take(0));
        for i in 0..count
            invariant
                count == services.names().len(),
                views(names@) == services.names().take(i as int),
        {
            let name = services.name_at(i);
            proof {
                lemma_views_push(names@, name);
                assert(services.names().take(i + 1) == services.names().take(i as int).push(name@));
            }
            names.push(name);
        }
        assert(services.names().take(count as int) == services.names());
        Self::from_names(names.as_slice())
    }

    /// The names of services that are called so.
    pub fn from_names(names: &[&str]) -> (r: Self)
        ensures
            r.wf(),
            r@.wf(),
            r@.short_by_full == short_names_of(views(names@)),
    {
        let ghost all = views(names@);
        let mut owned: Vec<String> = Vec::new();
        assert(views(owned@) == all.take(0));
        for i in 0..names.len()
            invariant
                all == views(names@),
                views(owned@) == all.take(i as int),
        {
            let name = names[i].to_owned();
            proof {
                lemma_views_push(owned@, name);
                assert(all.take(i + 1) == all.take(i as int).push(name@));
            }
            owned.push(name);
        }
        assert(all.take(all.len() as int) == all);
        let short_by_full = build_service_short_names(owned.as_slice());
        let mut full_by_short: NameMap<String> = NameMap::new();
        let count = short_by_full.len();
        let ghost shorts = text_map(short_by_full@);
        let ghost order = short_by_full.names();
        assert(shorts == short_names_of(all));
        assert(shorts.dom() =~= short_by_full@.dom());
        for i in 0..count
            invariant
                count == order.len(),
                order == short_by_full.names(),
                short_by_full.wf(),
                shorts == text_map(short_by_full@),
                shorts == short_names_of(all),
                full_by_short.wf(),
                forall|j: int|
                    0 <= j < i ==> full_by_short@.contains_key(shorts[#[trigger] order[j]])
                        && full_by_short@[shorts[order[j]]]@ == order[j],
                forall|s: Seq<char>| #[trigger]
                    full_by_short@.contains_key(s) ==> shorts.contains_key(full_by_short@[s]@)
                        && shorts[full_by_short@[s]@] == s,
        {
            let full = short_by_full.name_at(i);
            let short = short_by_full.value_at(i);
            proof {
                assert(shorts.contains_key(full@));
                assert(shorts[full@] == short@);
                assert forall|j: int| 0 <= j < i implies shorts[#[trigger] order[j]] != short@ by {
                    assert(order.to_set().contains(order[j]));
                    assert(short_by_full@.contains_key(order[j]));
                    assert(shorts.contains_key(order[j]));
                    if shorts[order[j]] == short@ {
                        law_short_names_are_distinct(order[j], full@, all);
                        crate::name_map::lemma_ascending_distinct(order, i as int, j);
                    }
                }
            }
            full_by_short.insert(short.clone(), full.to_owned());
        }
        let r = ServiceNames { short_by_full, full_by_short };
        proof {
            let v = r@;
            assert(v.full.to_set() =~= v.short_by_full.dom());
            assert(v.short.to_set() =~= v.full_by_short.dom());
            assert forall|f: Seq<char>| #[trigger]
                v.short_by_full.contains_key(f) implies v.full_by_short.contains_key(
                v.short_by_full[f],
            ) && v.full_by_short[v.short_by_full[f]] == f by {
                assert(order.to_set().contains(f));
                let j = order.index_of(f);
                assert(order[j] == f);
            }
            assert forall|f: Seq<char>, g: Seq<char>| #[trigger]
                v.short_by_full.contains_key(f) && #[trigger] v.short_by_full.contains_key(g)
                    && v.short_by_full[f] == g implies f == g by {
                law_short_name_is_no_other_name(f, g, all);
            }
        }
        r
    }

    /// The short name of the service; empty for a name that no service has.
    pub fn short_name<'a>(&'a self, full_name: &str) -> (r: &'a str)
        requires
            self.wf(),
        ensures
            r@ == self@.short_name(full_name@),
    {
        match self.short_by_full.get(full_name) {
            Some(short) => short.as_str(),
            None => {
                proof {
                    reveal_strlit("");
                }
                assert(""@ == Seq::<char>::empty());
                ""
            },
        }
    }

    /// The service that the token stands for.
    pub fn resolve(&self, token: &str) -> (r: Option<String>)
        requires
            self.wf(),
        ensures
            match r {
                Some(full_name) => self@.resolve(token@) == Some(full_name@),
                None => self@.resolve(token@) is None,
            },
    {
        if self.short_by_full.get(token).is_some() {
            Some(token.to_owned())
        } else {
            match self.full_by_short.get(token) {
                Some(full_name) => Some(full_name.clone()),
                None => None,
            }
        }
    }

    /// What a beginning can be completed to.
    pub fn candidates<'a>(&'a self, prefix: &str) -> (r: Vec<&'a str>)
        requires
            self.wf(),
        ensures
            views(r@) == self@.candidates(prefix@),
    {
        let short = matching(&self.full_by_short, prefix);
        if short.len() > 0 && plain(prefix) {
            return short;
        }
        let full = matching(&self.short_by_full, prefix);
        if full.len() == 0 {
            short
        } else {
            full
        }
    }
}

} // verus!
