//! Where the short name of a service stands in its full name.

use vstd::prelude::*;

use crate::attach::short_names::{
    lemma_shared_prefix, lemma_shortest_from, shared_prefix, short_name_of, signature,
    signatures_of, trim_separators,
};
use crate::text::{chars_of, is_separator, is_word, lemma_run, run};

verus! {

/// The last position of the character; -1 where it does not occur.
pub open spec fn rightmost(s: Seq<char>, c: char) -> int
    decreases s.len(),
{
    if s.len() == 0 {
        -1
    } else if s.last() == c {
        s.len() - 1
    } else {
        rightmost(s.drop_last(), c)
    }
}

/// `n` marks that are not set.
pub open spec fn unmarked(n: nat) -> Seq<bool> {
    Seq::new(n, |i: int| false)
}

/// Marks on the characters of the name that make up the short name, each of them as far to the
/// right as those after it leave room for; nothing where they cannot all be found.
pub open spec fn placed(name: Seq<char>, short: Seq<char>) -> Option<Seq<bool>>
    decreases short.len(),
{
    if short.len() == 0 {
        Some(unmarked(name.len()))
    } else {
        let i = rightmost(name, short.last());
        if i < 0 {
            None
        } else {
            match placed(name.take(i), short.drop_last()) {
                Some(marks) => Some(marks.push(true) + unmarked((name.len() - i - 1) as nat)),
                None => None,
            }
        }
    }
}

/// The marks on the name: those of the short name where it can be found, else none.
pub open spec fn highlighted(name: Seq<char>, short: Seq<char>) -> Seq<bool> {
    match placed(name, short) {
        Some(marks) => marks,
        None => unmarked(name.len()),
    }
}

/// The characters that carry a mark.
pub open spec fn marked(name: Seq<char>, marks: Seq<bool>) -> Seq<char>
    decreases name.len(),
{
    if name.len() == 0 {
        Seq::empty()
    } else if marks[name.len() - 1] {
        marked(name.drop_last(), marks).push(name.last())
    } else {
        marked(name.drop_last(), marks)
    }
}

proof fn lemma_rightmost(s: Seq<char>, c: char)
    ensures
        -1 <= rightmost(s, c) < s.len(),
        rightmost(s, c) >= 0 ==> s[rightmost(s, c)] == c,
        forall|i: int| rightmost(s, c) < i < s.len() ==> #[trigger] s[i] != c,
    decreases s.len(),
{
    if s.len() > 0 && s.last() != c {
        lemma_rightmost(s.drop_last(), c);
        assert forall|i: int| rightmost(s, c) < i < s.len() implies #[trigger] s[i] != c by {
            if i < s.len() - 1 {
                assert(s.drop_last()[i] == s[i]);
            }
        }
    }
}

proof fn lemma_placed_len(name: Seq<char>, short: Seq<char>)
    ensures
        placed(name, short) is Some ==> placed(name, short)->0.len() == name.len(),
    decreases short.len(),
{
    if short.len() > 0 {
        lemma_rightmost(name, short.last());
        let i = rightmost(name, short.last());
        if i >= 0 {
            lemma_placed_len(name.take(i), short.drop_last());
        }
    }
}

/// There is a mark for each character.
pub proof fn lemma_highlighted_len(name: Seq<char>, short: Seq<char>)
    ensures
        highlighted(name, short).len() == name.len(),
{
    lemma_placed_len(name, short);
}

/// Only the marks at the name's own positions count.
proof fn lemma_marked_take(name: Seq<char>, marks: Seq<bool>, others: Seq<bool>)
    requires
        forall|i: int| 0 <= i < name.len() ==> marks[i] == others[i],
    ensures
        marked(name, marks) == marked(name, others),
    decreases name.len(),
{
    if name.len() > 0 {
        lemma_marked_take(name.drop_last(), marks, others);
    }
}

/// Past the last mark nothing is added.
proof fn lemma_marked_tail(name: Seq<char>, marks: Seq<bool>, k: int)
    requires
        0 <= k <= name.len(),
        forall|i: int| k <= i < name.len() ==> !marks[i],
    ensures
        marked(name, marks) == marked(name.take(k), marks),
    decreases name.len(),
{
    if k == name.len() {
        assert(name.take(k) =~= name);
    } else {
        lemma_marked_tail(name.drop_last(), marks, k);
        assert(name.drop_last().take(k) =~= name.take(k));
    }
}

/// The marked characters read as the short name.
pub proof fn law_marks_spell_the_short_name(name: Seq<char>, short: Seq<char>)
    requires
        placed(name, short) is Some,
    ensures
        placed(name, short)->0.len() == name.len(),
        marked(name, placed(name, short)->0) == short,
    decreases short.len(),
{
    let marks = placed(name, short)->0;
    lemma_placed_len(name, short);
    if short.len() == 0 {
        lemma_marked_tail(name, marks, 0);
        assert(short =~= Seq::<char>::empty());
    } else {
        lemma_rightmost(name, short.last());
        let i = rightmost(name, short.last());
        let before = placed(name.take(i), short.drop_last())->0;
        law_marks_spell_the_short_name(name.take(i), short.drop_last());
        lemma_marked_tail(name, marks, i + 1);
        assert(name.take(i + 1).drop_last() =~= name.take(i));
        lemma_marked_take(name.take(i), marks, before);
        assert(short =~= short.drop_last().push(short.last()));
    }
}

/// The short name is found wherever some marks on the name spell it.
pub proof fn law_spelled_names_are_found(name: Seq<char>, short: Seq<char>, marks: Seq<bool>)
    requires
        marked(name, marks) == short,
    ensures
        placed(name, short) is Some,
    decreases name.len() + short.len(),
{
    if short.len() > 0 {
        lemma_rightmost(name, short.last());
        let i = rightmost(name, short.last());
        if marks[name.len() - 1] {
            assert(name.last() == short.last());
            assert(i == name.len() - 1);
            assert(name.take(i) =~= name.drop_last());
            assert(short.drop_last() =~= marked(name.drop_last(), marks));
            law_spelled_names_are_found(name.take(i), short.drop_last(), marks);
        } else {
            law_spelled_names_are_found(name.drop_last(), short, marks);
            lemma_wider(name, short);
        }
    }
}

/// The last character of the short name is marked where the name holds it last, and nothing is
/// marked behind it; the others are marked so in what stands before it.
pub proof fn law_marks_stand_far_to_the_right(name: Seq<char>, short: Seq<char>, i: int)
    requires
        short.len() > 0,
        placed(name, short) is Some,
        0 <= i < name.len(),
        name[i] == short.last(),
        forall|j: int| i < j < name.len() ==> #[trigger] name[j] != short.last(),
    ensures
        ({
            let marks = placed(name, short)->0;
            &&& marks[i]
            &&& forall|j: int| i < j < name.len() ==> !#[trigger] marks[j]
            &&& placed(name.take(i), short.drop_last()) == Some(marks.take(i))
        }),
{
    lemma_rightmost(name, short.last());
    let k = rightmost(name, short.last());
    assert(k == i);
    lemma_placed_len(name.take(i), short.drop_last());
    let before = placed(name.take(i), short.drop_last())->0;
    assert(placed(name, short)->0.take(i) =~= before);
}

/// Where no marks on the name spell the short name, nothing is highlighted; an empty short name
/// marks nothing either.
pub proof fn law_nothing_else_is_highlighted(name: Seq<char>, short: Seq<char>, i: int)
    requires
        0 <= i < name.len(),
        short.len() == 0 || forall|marks: Seq<bool>| #[trigger] marked(name, marks) != short,
    ensures
        !highlighted(name, short)[i],
{
    if short.len() > 0 && placed(name, short) is Some {
        law_marks_spell_the_short_name(name, short);
    }
}

/// What is found in a beginning of a name is found in the name.
proof fn lemma_wider(name: Seq<char>, short: Seq<char>)
    requires
        name.len() > 0,
        placed(name.drop_last(), short) is Some,
    ensures
        placed(name, short) is Some,
    decreases short.len(), 0int,
{
    if short.len() > 0 {
        let front = name.drop_last();
        lemma_rightmost(front, short.last());
        let j = rightmost(front, short.last());
        if name.last() == short.last() {
            assert(name.take(name.len() - 1) =~= front);
            lemma_found_in_longer(front, short.drop_last(), j);
        } else {
            assert(name.take(j) =~= front.take(j));
        }
    }
}

proof fn lemma_found_in_longer(name: Seq<char>, short: Seq<char>, j: int)
    requires
        0 <= j <= name.len(),
        placed(name.take(j), short) is Some,
    ensures
        placed(name, short) is Some,
    decreases short.len(), name.len() - j + 1,
{
    if j < name.len() {
        assert(name.take(j + 1).drop_last() =~= name.take(j));
        lemma_wider(name.take(j + 1), short);
        lemma_found_in_longer(name, short, j + 1);
    } else {
        assert(name.take(j) =~= name);
    }
}

proof fn lemma_found_beginning(name: Seq<char>, short: Seq<char>, k: int)
    requires
        0 <= k <= short.len(),
        placed(name, short) is Some,
    ensures
        placed(name, short.take(k)) is Some,
    decreases short.len(),
{
    if k < short.len() {
        lemma_rightmost(name, short.last());
        lemma_found_in_longer(name, short.drop_last(), rightmost(name, short.last()));
        lemma_found_beginning(name, short.drop_last(), k);
        assert(short.drop_last().take(k) =~= short.take(k));
    } else {
        assert(short.take(k) =~= short);
    }
}

proof fn lemma_found_in_suffix(name: Seq<char>, short: Seq<char>, j: int)
    requires
        0 <= j <= name.len(),
        placed(name.skip(j), short) is Some,
    ensures
        placed(name, short) is Some,
{
    let marks = placed(name.skip(j), short)->0;
    law_marks_spell_the_short_name(name.skip(j), short);
    lemma_marked_suffix(name, marks, j);
    law_spelled_names_are_found(name, short, unmarked(j as nat) + marks);
}

proof fn lemma_marked_suffix(name: Seq<char>, marks: Seq<bool>, j: int)
    requires
        0 <= j <= name.len(),
        marks.len() >= name.len() - j,
    ensures
        marked(name, unmarked(j as nat) + marks) == marked(name.skip(j), marks),
    decreases name.len() - j,
{
    let all = unmarked(j as nat) + marks;
    if j == name.len() {
        lemma_marked_tail(name, all, 0);
    } else {
        lemma_marked_suffix(name.drop_last(), marks, j);
        assert(name.drop_last().skip(j) =~= name.skip(j).drop_last());
        assert(all[name.len() - 1] == marks[name.len() - j - 1]);
    }
}

proof fn lemma_filtered_is_found(s: Seq<char>, p: spec_fn(char) -> bool)
    ensures
        placed(s, s.filter(p)) is Some,
{
    let marks = Seq::new(s.len(), |i: int| p(s[i]));
    lemma_marked_filter(s, p, marks);
    law_spelled_names_are_found(s, s.filter(p), marks);
}

proof fn lemma_marked_filter(s: Seq<char>, p: spec_fn(char) -> bool, marks: Seq<bool>)
    requires
        forall|i: int| 0 <= i < s.len() ==> marks[i] == p(s[i]),
    ensures
        marked(s, marks) == s.filter(p),
    decreases s.len(),
{
    reveal(Seq::filter);
    if s.len() > 0 {
        lemma_marked_filter(s.drop_last(), p, marks);
    }
}

/// The short name that a service gets can be found in its name.
pub proof fn law_short_names_are_found(name: Seq<char>, names: Seq<Seq<char>>)
    ensures
        placed(name, short_name_of(name, names)) is Some,
{
    let own = signature(name, names);
    let short = short_name_of(name, names);
    lemma_shortest_from(name, own, signatures_of(names), 1);
    if short == name {
        let all = Seq::new(name.len(), |i: int| true);
        lemma_all_marked(name, all);
        law_spelled_names_are_found(name, name, all);
    } else {
        let shared = shared_prefix(name, names) as int;
        lemma_shared_prefix(name, names);
        let rest = name.skip(shared);
        let start = run(rest, is_separator()) as int;
        lemma_run(rest, is_separator());
        let suffix = trim_separators(rest);
        if shared > 0 && suffix.len() > 0 {
            lemma_filtered_is_found(suffix, is_word());
            assert(suffix =~= name.skip(shared + start));
            lemma_found_in_suffix(name, own, shared + start);
        } else {
            lemma_filtered_is_found(name, is_word());
        }
        lemma_found_beginning(name, own, short.len() as int);
        assert(own.take(short.len() as int) =~= short);
    }
}

proof fn lemma_all_marked(name: Seq<char>, marks: Seq<bool>)
    requires
        forall|i: int| 0 <= i < name.len() ==> marks[i],
    ensures
        marked(name, marks) == name,
    decreases name.len(),
{
    if name.len() > 0 {
        lemma_all_marked(name.drop_last(), marks);
        assert(name =~= name.drop_last().push(name.last()));
    } else {
        assert(marked(name, marks) =~= name);
    }
}

/// The last position below `end` that holds the character.
fn rightmost_of(chars: &Vec<char>, end: usize, c: char) -> (r: Option<usize>)
    requires
        end <= chars@.len(),
    ensures
        match r {
            Some(i) => i == rightmost(chars@.take(end as int), c),
            None => rightmost(chars@.take(end as int), c) == -1,
        },
{
    let mut i = end;
    while i > 0
        invariant
            i <= end <= chars@.len(),
            rightmost(chars@.take(end as int), c) == rightmost(chars@.take(i as int), c),
        decreases i,
    {
        let ghost s = chars@.take(i as int);
        assert(s.drop_last() =~= chars@.take(i - 1));
        if chars[i - 1] == c {
            return Some(i - 1);
        }
        i = i - 1;
    }
    None
}

/// `n` marks that are not set.
fn unmarked_of(n: usize) -> (r: Vec<bool>)
    ensures
        r@ == unmarked(n as nat),
{
    let mut r: Vec<bool> = Vec::new();
    for i in 0..n
        invariant
            r@ == unmarked(i as nat),
    {
        r.push(false);
        assert(r@ =~= unmarked((i + 1) as nat));
    }
    r
}

/// Which characters of the name to highlight: those of the short name, each at its rightmost
/// place.
pub fn highlighted_service_name_characters(service_name: &str, short_name: &str) -> (r: Vec<bool>)
    ensures
        r@ == highlighted(service_name@, short_name@),
{
    let name = chars_of(service_name);
    let short = chars_of(short_name);
    let mut r = unmarked_of(name.len());
    let mut end = name.len();
    let mut k = short.len();
    assert(name@.take(end as int) =~= name@);
    assert(short@.take(k as int) =~= short@);
    proof {
        lemma_placed_len(name@, short@);
        if let Some(marks) = placed(name@, short@) {
            assert(marks + r@.skip(end as int) =~= marks);
        }
    }
    while k > 0
        invariant
            name@ == service_name@,
            short@ == short_name@,
            k <= short@.len(),
            end <= name@.len(),
            r@.len() == name@.len(),
            forall|i: int| 0 <= i < end ==> !r@[i],
            placed(name@, short@) == match placed(
                name@.take(end as int),
                short@.take(k as int),
            ) {
                Some(marks) => Some(marks + r@.skip(end as int)),
                None => None,
            },
        decreases k,
    {
        let c = short[k - 1];
        let ghost front = name@.take(end as int);
        let ghost wanted = short@.take(k as int);
        assert(wanted.drop_last() =~= short@.take(k - 1));
        proof {
            lemma_rightmost(front, c);
        }
        match rightmost_of(&name, end, c) {
            None => {
                return unmarked_of(name.len());
            },
            Some(i) => {
                let ghost before = r@;
                r[i] = true;
                proof {
                    assert(front.take(i as int) =~= name@.take(i as int));
                    lemma_placed_len(front.take(i as int), wanted.drop_last());
                    if let Some(marks) = placed(front.take(i as int), wanted.drop_last()) {
                        let gap = unmarked((end - i - 1) as nat);
                        assert((marks.push(true) + gap) + before.skip(end as int) =~= marks
                            + r@.skip(i as int));
                    }
                }
                end = i;
                k = k - 1;
            },
        }
    }
    assert(unmarked(end as nat) + r@.skip(end as int) =~= r@);
    assert(name@.take(end as int).len() == end);
    r
}

} // verus!
