//! The short names by which services can be called: the shortest beginnings of what is
//! distinctive in their names.

use vstd::prelude::*;

use crate::name_map::NameMap;
use crate::text::{
    alphanumeric, byte_len, byte_len_of, char_bytes, chars_of, common_prefix, common_prefix_of, cut,
    is_separator, is_word, is_word_char, lemma_byte_len_push, lemma_byte_len_take,
    lemma_common_prefix, lemma_run, lemma_run_is, run, same_text, starts_with, views,
};

verus! {

/// The number of characters up to the last separator among the first `n`.
pub open spec fn separator_end(name: Seq<char>, n: nat) -> nat
    decreases n,
{
    if n == 0 {
        0
    } else if !alphanumeric(name[n - 1]) {
        n
    } else {
        separator_end(name, (n - 1) as nat)
    }
}

/// How much of `left` it shares with `right`, cut after the last separator.
pub open spec fn separator_prefix(left: Seq<char>, right: Seq<char>) -> nat {
    separator_end(left, common_prefix(left, right))
}

/// The most that the name shares, up to a separator, with one of the other names.
pub open spec fn shared_prefix(name: Seq<char>, names: Seq<Seq<char>>) -> nat
    decreases names.len(),
{
    if names.len() == 0 {
        0
    } else {
        let rest = shared_prefix(name, names.drop_last());
        let other = names.last();
        if other != name && separator_prefix(name, other) > rest {
            separator_prefix(name, other)
        } else {
            rest
        }
    }
}

/// The text from its first letter or number on.
pub open spec fn trim_separators(s: Seq<char>) -> Seq<char> {
    s.skip(run(s, is_separator()) as int)
}

/// The letters and numbers of what is distinctive in the name: of what follows the part that it
/// shares with another name, or of the whole name where nothing follows.
pub open spec fn signature(name: Seq<char>, names: Seq<Seq<char>>) -> Seq<char> {
    let shared = shared_prefix(name, names);
    let suffix = trim_separators(name.skip(shared as int));
    if shared > 0 && suffix.len() > 0 {
        suffix.filter(is_word())
    } else {
        name.filter(is_word())
    }
}

/// The signature of each of the names.
pub open spec fn signatures_of(names: Seq<Seq<char>>) -> Map<Seq<char>, Seq<char>> {
    Map::new(|name: Seq<char>| names.contains(name), |name: Seq<char>| signature(name, names))
}

/// Whether the candidate cannot stand for the name: it is the name of another service, or the
/// beginning of another service's signature. A name can always stand for itself.
pub open spec fn taken(
    candidate: Seq<char>,
    name: Seq<char>,
    signatures: Map<Seq<char>, Seq<char>>,
) -> bool {
    candidate != name && (signatures.contains_key(candidate) || exists|other: Seq<char>|
        other != name && #[trigger] signatures.contains_key(other) && candidate.is_prefix_of(
            signatures[other],
        ))
}

/// The shortest beginning of the signature, of `k` characters or more, that is not taken; the
/// name itself where there is none.
pub open spec fn shortest_from(
    name: Seq<char>,
    own: Seq<char>,
    signatures: Map<Seq<char>, Seq<char>>,
    k: nat,
) -> Seq<char>
    decreases own.len() + 1 - k,
{
    if k > own.len() {
        name
    } else if !taken(own.take(k as int), name, signatures) {
        own.take(k as int)
    } else {
        shortest_from(name, own, signatures, k + 1)
    }
}

/// The short name of one of the names.
pub open spec fn short_name_of(name: Seq<char>, names: Seq<Seq<char>>) -> Seq<char> {
    shortest_from(name, signature(name, names), signatures_of(names), 1)
}

/// The short name of each of the names.
pub open spec fn short_names_of(names: Seq<Seq<char>>) -> Map<Seq<char>, Seq<char>> {
    Map::new(|name: Seq<char>| names.contains(name), |name: Seq<char>| short_name_of(name, names))
}

/// The values of a map, as texts.
pub open spec fn text_map(m: Map<Seq<char>, String>) -> Map<Seq<char>, Seq<char>> {
    m.map_values(|s: String| s@)
}

/// A text that stands before others in the filtered text.
proof fn lemma_filter_take(s: Seq<char>, p: spec_fn(char) -> bool, i: int)
    requires
        0 <= i < s.len(),
    ensures
        s.take(i + 1).filter(p) == if p(s[i]) {
            s.take(i).filter(p).push(s[i])
        } else {
            s.take(i).filter(p)
        },
{
    reveal(Seq::filter);
    assert(s.take(i + 1).drop_last() =~= s.take(i));
    assert(s.take(i + 1).last() == s[i]);
}

proof fn lemma_separator_end(name: Seq<char>, n: nat)
    ensures
        separator_end(name, n) <= n,
    decreases n,
{
    if n > 0 && alphanumeric(name[n - 1]) {
        lemma_separator_end(name, (n - 1) as nat);
    }
}

proof fn lemma_separator_prefix(left: Seq<char>, right: Seq<char>)
    ensures
        separator_prefix(left, right) <= left.len(),
{
    lemma_common_prefix(left, right);
    lemma_separator_end(left, common_prefix(left, right));
}

/// The shared part is the longest that the name shares with one of the others.
pub proof fn lemma_shared_prefix(name: Seq<char>, names: Seq<Seq<char>>)
    ensures
        shared_prefix(name, names) <= name.len(),
        forall|other: Seq<char>|
            other != name && #[trigger] names.contains(other) ==> separator_prefix(name, other)
                <= shared_prefix(name, names),
        shared_prefix(name, names) > 0 ==> exists|other: Seq<char>|
            other != name && #[trigger] names.contains(other) && separator_prefix(name, other)
                == shared_prefix(name, names),
    decreases names.len(),
{
    if names.len() > 0 {
        let front = names.drop_last();
        let last = names.last();
        lemma_shared_prefix(name, front);
        lemma_separator_prefix(name, last);
        assert(names.contains(last));
        assert forall|other: Seq<char>|
            other != name && #[trigger] names.contains(other) implies separator_prefix(name, other)
            <= shared_prefix(name, names) by {
            if other != last {
                let i = choose|i: int| 0 <= i < names.len() && names[i] == other;
                assert(front[i] == other);
                assert(front.contains(other));
            }
        }
        if shared_prefix(name, names) > 0 && shared_prefix(name, names) == shared_prefix(
            name,
            front,
        ) {
            let other = choose|other: Seq<char>|
                other != name && #[trigger] front.contains(other) && separator_prefix(name, other)
                    == shared_prefix(name, front);
            let i = choose|i: int| 0 <= i < front.len() && front[i] == other;
            assert(names[i] == other);
            assert(names.contains(other));
        }
    }
}

/// A short name is the name itself or a beginning of the signature that is not taken.
pub proof fn lemma_shortest_from(
    name: Seq<char>,
    own: Seq<char>,
    signatures: Map<Seq<char>, Seq<char>>,
    k: nat,
)
    requires
        k >= 1,
    ensures
        ({
            let short = shortest_from(name, own, signatures, k);
            ||| short == name
            ||| short.len() >= 1 && short.is_prefix_of(own) && !taken(short, name, signatures)
        }),
    decreases own.len() + 1 - k,
{
    if k <= own.len() && taken(own.take(k as int), name, signatures) {
        lemma_shortest_from(name, own, signatures, k + 1);
    }
}

/// No two services have the same short name.
pub proof fn law_short_names_are_distinct(a: Seq<char>, b: Seq<char>, names: Seq<Seq<char>>)
    requires
        names.contains(a),
        names.contains(b),
        short_name_of(a, names) == short_name_of(b, names),
    ensures
        a == b,
{
    let signatures = signatures_of(names);
    let short = short_name_of(a, names);
    lemma_shortest_from(a, signature(a, names), signatures, 1);
    lemma_shortest_from(b, signature(b, names), signatures, 1);
    assert(signatures.contains_key(a) && signatures.contains_key(b));
    if a != b && short != a && short != b {
        assert(short.is_prefix_of(signatures[b]));
        assert(taken(short, a, signatures));
    }
}

/// The short name of a service is not the name of another.
pub proof fn law_short_name_is_no_other_name(a: Seq<char>, b: Seq<char>, names: Seq<Seq<char>>)
    requires
        names.contains(a),
        names.contains(b),
        short_name_of(a, names) == b,
    ensures
        a == b,
{
    let signatures = signatures_of(names);
    lemma_shortest_from(a, signature(a, names), signatures, 1);
    assert(signatures.contains_key(b));
}

/// A short name is empty only where the name is.
pub proof fn law_short_name_is_not_empty(name: Seq<char>, names: Seq<Seq<char>>)
    requires
        name.len() > 0,
    ensures
        short_name_of(name, names).len() > 0,
{
    lemma_shortest_from(name, signature(name, names), signatures_of(names), 1);
}

/// A short name that is not the name itself is the shortest beginning of the signature that is
/// not taken.
pub proof fn law_short_name_is_shortest(name: Seq<char>, names: Seq<Seq<char>>, k: int)
    requires
        1 <= k <= signature(name, names).len(),
        !taken(signature(name, names).take(k), name, signatures_of(names)),
    ensures
        short_name_of(name, names).is_prefix_of(signature(name, names)),
        short_name_of(name, names).len() <= k,
{
    lemma_shortest_bounded(name, signature(name, names), signatures_of(names), 1, k);
}

proof fn lemma_shortest_bounded(
    name: Seq<char>,
    own: Seq<char>,
    signatures: Map<Seq<char>, Seq<char>>,
    from: nat,
    k: int,
)
    requires
        from <= k <= own.len(),
        !taken(own.take(k), name, signatures),
    ensures
        shortest_from(name, own, signatures, from).is_prefix_of(own),
        shortest_from(name, own, signatures, from).len() <= k,
    decreases own.len() + 1 - from,
{
    if taken(own.take(from as int), name, signatures) {
        lemma_shortest_bounded(name, own, signatures, from + 1, k);
    }
}

/// Neither the order of the names nor a repetition among them changes a short name.
pub proof fn law_short_names_ignore_order(
    name: Seq<char>,
    names: Seq<Seq<char>>,
    others: Seq<Seq<char>>,
)
    requires
        forall|t: Seq<char>| names.contains(t) <==> others.contains(t),
    ensures
        short_name_of(name, names) == short_name_of(name, others),
{
    assert forall|t: Seq<char>| #[trigger] signature(t, names) == signature(t, others) by {
        lemma_shared_prefix(t, names);
        lemma_shared_prefix(t, others);
    }
    assert(signatures_of(names) =~= signatures_of(others));
}

/// Whether two names begin with the same `n` characters, of which the last is a separator.
pub open spec fn share(a: Seq<char>, b: Seq<char>, n: int) -> bool {
    &&& 0 < n <= a.len()
    &&& n <= b.len()
    &&& a.take(n) == b.take(n)
    &&& !alphanumeric(a[n - 1])
}

proof fn lemma_separator_end_is_last(name: Seq<char>, n: nat)
    requires
        n <= name.len(),
    ensures
        ({
            let end = separator_end(name, n);
            &&& end <= n
            &&& end > 0 ==> !alphanumeric(name[end - 1])
            &&& forall|i: int| end <= i < n ==> alphanumeric(#[trigger] name[i])
        }),
    decreases n,
{
    if n > 0 && alphanumeric(name[n - 1]) {
        lemma_separator_end_is_last(name, (n - 1) as nat);
    }
}

/// What two names share up to a separator is the most that they share so.
proof fn lemma_separator_prefix_is_longest(left: Seq<char>, right: Seq<char>)
    ensures
        separator_prefix(left, right) > 0 ==> share(
            left,
            right,
            separator_prefix(left, right) as int,
        ),
        forall|n: int| #[trigger] share(left, right, n) ==> n <= separator_prefix(left, right),
{
    lemma_common_prefix(left, right);
    let common = common_prefix(left, right);
    lemma_separator_end_is_last(left, common);
    let end = separator_end(left, common) as int;
    if end > 0 {
        assert(left.take(end) =~= left.take(common as int).take(end));
        assert(right.take(end) =~= right.take(common as int).take(end));
    }
    assert forall|n: int| #[trigger] share(left, right, n) implies n <= end by {
        if n > common {
            assert(left.take(n)[common as int] == right.take(n)[common as int]);
        } else if n > end {
            assert(alphanumeric(left[n - 1]));
        }
    }
}

proof fn lemma_filter_skips(s: Seq<char>, p: spec_fn(char) -> bool, k: int)
    requires
        0 <= k <= s.len(),
        forall|i: int| 0 <= i < k ==> !p(#[trigger] s[i]),
    ensures
        s.skip(k).filter(p) == s.filter(p),
    decreases s.len(),
{
    reveal(Seq::filter);
    if k == s.len() {
        if k > 0 {
            assert(!p(s[k - 1]));
            lemma_filter_skips(s.drop_last(), p, k - 1);
            assert(s.drop_last().skip(k - 1) =~= s.skip(k));
        } else {
            assert(s.skip(k) =~= s);
        }
    } else {
        lemma_filter_skips(s.drop_last(), p, k);
        assert(s.skip(k).drop_last() =~= s.drop_last().skip(k));
        assert(s.skip(k).last() == s.last());
    }
}

/// What is distinctive in a name is what follows the longest part, up to a separator, with which
/// another name begins too, or the whole name where no letter or number follows. The signature is
/// made of its letters and numbers.
pub proof fn law_signatures_are_what_is_distinctive(
    name: Seq<char>,
    names: Seq<Seq<char>>,
    n: int,
)
    requires
        0 <= n <= name.len(),
        forall|other: Seq<char>, m: int|
            #![trigger names.contains(other), share(name, other, m)]
            names.contains(other) && other != name && share(name, other, m) ==> m <= n,
        n > 0 ==> exists|other: Seq<char>|
            #[trigger] names.contains(other) && other != name && share(name, other, n),
    ensures
        ({
            let word = |c: char| alphanumeric(c);
            signature(name, names) == if exists|i: int|
                n <= i < name.len() && alphanumeric(#[trigger] name[i]) {
                name.skip(n).filter(word)
            } else {
                name.filter(word)
            }
        }),
{
    let word = |c: char| alphanumeric(c);
    assert(word =~= is_word());
    lemma_shared_prefix(name, names);
    let shared = shared_prefix(name, names) as int;
    if shared > 0 {
        let other = choose|other: Seq<char>|
            other != name && #[trigger] names.contains(other) && separator_prefix(name, other)
                == shared_prefix(name, names);
        lemma_separator_prefix_is_longest(name, other);
        assert(share(name, other, shared));
    }
    if n > 0 {
        let other = choose|other: Seq<char>|
            #[trigger] names.contains(other) && other != name && share(name, other, n);
        lemma_separator_prefix_is_longest(name, other);
    }
    assert(shared == n);
    let rest = name.skip(n);
    let start = run(rest, is_separator()) as int;
    lemma_run(rest, is_separator());
    assert forall|i: int| 0 <= i < start implies !is_word()(#[trigger] rest[i]) by {
        assert(is_separator()(rest[i]));
    }
    lemma_filter_skips(rest, is_word(), start);
    if exists|i: int| n <= i < name.len() && alphanumeric(#[trigger] name[i]) {
        let i = choose|i: int| n <= i < name.len() && alphanumeric(#[trigger] name[i]);
        assert(rest[i - n] == name[i]);
        assert(start < rest.len()) by {
            if start == rest.len() {
                assert(is_separator()(rest[i - n]));
            }
        }
        if n == 0 {
            assert(name.skip(0) =~= name);
        }
    } else {
        if start < rest.len() {
            assert(!is_separator()(rest[start]));
            assert(rest[start] == name[n + start]);
        }
    }
}

/// Whether a text can stand for the name and for no other: it is the name, or it is neither the
/// name of another service nor the beginning of another service's signature.
pub open spec fn stands_for(candidate: Seq<char>, name: Seq<char>, names: Seq<Seq<char>>) -> bool {
    candidate == name || (!names.contains(candidate) && forall|other: Seq<char>|
        other != name && #[trigger] names.contains(other) ==> !candidate.is_prefix_of(
            signature(other, names),
        ))
}

/// A short name is the shortest beginning of the signature that can stand for the name and for no
/// other, and the name itself where no beginning can.
pub proof fn law_short_names_are_the_first_that_can_be(
    name: Seq<char>,
    names: Seq<Seq<char>>,
    k: int,
)
    requires
        1 <= k <= signature(name, names).len(),
    ensures
        ({
            let own = signature(name, names);
            let short = short_name_of(name, names);
            &&& stands_for(short, name, names)
            &&& stands_for(own.take(k), name, names) ==> 1 <= short.len() <= k && short == own.take(
                short.len() as int,
            )
            &&& short != name ==> short == own.take(short.len() as int)
        }),
{
    let own = signature(name, names);
    let signatures = signatures_of(names);
    let short = short_name_of(name, names);
    lemma_shortest_from(name, own, signatures, 1);
    lemma_taken(own.take(k), name, names);
    lemma_taken(short, name, names);
    if stands_for(own.take(k), name, names) {
        law_short_name_is_shortest(name, names, k);
        lemma_shortest_is_long(name, own, signatures, 1, k);
    }
}

proof fn lemma_taken(candidate: Seq<char>, name: Seq<char>, names: Seq<Seq<char>>)
    ensures
        taken(candidate, name, signatures_of(names)) == !stands_for(candidate, name, names),
{
    let signatures = signatures_of(names);
    assert forall|other: Seq<char>| #[trigger] names.contains(other) == signatures.contains_key(
        other,
    ) by {}
    if taken(candidate, name, signatures) && !signatures.contains_key(candidate) {
        let other = choose|other: Seq<char>|
            other != name && #[trigger] signatures.contains_key(other) && candidate.is_prefix_of(
                signatures[other],
            );
        assert(names.contains(other));
    }
    if !stands_for(candidate, name, names) && !names.contains(candidate) {
        let other = choose|other: Seq<char>|
            other != name && #[trigger] names.contains(other) && candidate.is_prefix_of(
                signature(other, names),
            );
        assert(signatures.contains_key(other));
    }
}

proof fn lemma_shortest_is_long(
    name: Seq<char>,
    own: Seq<char>,
    signatures: Map<Seq<char>, Seq<char>>,
    from: nat,
    k: int,
)
    requires
        1 <= from <= k <= own.len(),
        !taken(own.take(k), name, signatures),
    ensures
        shortest_from(name, own, signatures, from).len() >= 1,
    decreases own.len() + 1 - from,
{
    if taken(own.take(from as int), name, signatures) {
        lemma_shortest_is_long(name, own, signatures, from + 1, k);
    }
}

/// How many bytes the two texts share at their beginnings.
pub fn longest_common_prefix_len(left: &str, right: &str) -> (r: usize)
    ensures
        r == byte_len(left@.take(common_prefix(left@, right@) as int)),
{
    let a = chars_of(left);
    let n = common_prefix_of(&a, &chars_of(right));
    proof {
        lemma_common_prefix(left@, right@);
        assert(a@.subrange(0, n as int) == left@.take(n as int));
    }
    byte_len_of(cut(&a, 0, n).as_str())
}

/// How many bytes of `left` it shares with `right`, up to and with the last separator.
pub fn shared_separator_prefix_len(left: &str, right: &str) -> (r: usize)
    ensures
        r == byte_len(left@.take(separator_prefix(left@, right@) as int)),
{
    let a = chars_of(left);
    let mut n = common_prefix_of(&a, &chars_of(right));
    proof {
        lemma_common_prefix(left@, right@);
    }
    while n > 0 && is_word_char(a[n - 1])
        invariant
            a@ == left@,
            n <= a@.len(),
            separator_end(a@, n as nat) == separator_prefix(left@, right@),
        decreases n,
    {
        n = n - 1;
    }
    assert(a@.subrange(0, n as int) == left@.take(n as int));
    byte_len_of(cut(&a, 0, n).as_str())
}

/// The text from its first letter or number on; empty where it has none.
pub fn trim_leading_non_alphanumeric(value: &str) -> (r: String)
    ensures
        r@ == trim_separators(value@),
{
    let chars = chars_of(value);
    let mut k: usize = 0;
    while k < chars.len() && !is_word_char(chars[k])
        invariant
            k <= chars@.len(),
            forall|i: int| 0 <= i < k ==> is_separator()(#[trigger] chars@[i]),
        decreases chars@.len() - k,
    {
        k = k + 1;
    }
    proof {
        lemma_run_is(chars@, is_separator(), k as int);
        assert(chars@.subrange(k as int, chars@.len() as int) == chars@.skip(k as int));
    }
    cut(&chars, k, chars.len())
}

/// The letters and numbers of the text.
pub fn sanitize_short_name_fragment(value: &str) -> (r: String)
    ensures
        r@ == value@.filter(is_word()),
{
    let chars = chars_of(value);
    let mut r = String::new();
    assert(chars@.take(0).filter(is_word()) == Seq::<char>::empty()) by {
        reveal(Seq::filter);
    }
    for i in 0..chars.len()
        invariant
            r@ == chars@.take(i as int).filter(is_word()),
    {
        proof {
            lemma_filter_take(chars@, is_word(), i as int);
        }
        if is_word_char(chars[i]) {
            r.push(chars[i]);
        }
    }
    assert(chars@.take(chars@.len() as int) == value@);
    r
}

/// The position of the character that begins after the given number of bytes.
fn char_index(chars: &Vec<char>, bytes: usize, Ghost(k): Ghost<int>) -> (r: usize)
    requires
        0 <= k <= chars@.len(),
        bytes == byte_len(chars@.take(k)),
    ensures
        r == k,
{
    let count = chars.len();
    let mut i: usize = 0;
    let mut sum: usize = 0;
    assert(chars@.take(0) == Seq::<char>::empty());
    while sum < bytes
        invariant
            count == chars@.len(),
            0 <= k <= count,
            bytes == byte_len(chars@.take(k)),
            i <= k,
            sum == byte_len(chars@.take(i as int)),
        decreases k - i,
    {
        proof {
            if i == k {
                assert(false);
            }
            lemma_byte_len_push(chars@.take(i as int), chars@[i as int]);
            assert(chars@.take(i as int).push(chars@[i as int]) == chars@.take(i + 1));
            lemma_byte_len_take(chars@, i + 1, k);
        }
        sum = sum + char_bytes(chars[i]);
        i = i + 1;
    }
    proof {
        lemma_byte_len_take(chars@, i as int, k);
    }
    i
}

/// The letters and numbers of what is distinctive in the name of a service.
pub fn service_short_name_signature(service_name: &str, all_names: &[String]) -> (r: String)
    ensures
        r@ == signature(service_name@, views(all_names@)),
{
    let mut shared: usize = 0;
    let ghost names = views(all_names@);
    assert(service_name@.take(0) == Seq::<char>::empty());
    for i in 0..all_names.len()
        invariant
            names == views(all_names@),
            shared == byte_len(
                service_name@.take(shared_prefix(service_name@, names.take(i as int)) as int),
            ),
    {
        let other = all_names[i].as_str();
        proof {
            assert(names.take(i + 1).drop_last() == names.take(i as int));
            assert(names.take(i + 1).last() == other@);
            lemma_shared_prefix(service_name@, names.take(i as int));
            lemma_separator_prefix(service_name@, other@);
            let x = shared_prefix(service_name@, names.take(i as int)) as int;
            let y = separator_prefix(service_name@, other@) as int;
            if x <= y {
                lemma_byte_len_take(service_name@, x, y);
            } else {
                lemma_byte_len_take(service_name@, y, x);
            }
        }
        if !same_text(other, service_name) {
            let n = shared_separator_prefix_len(service_name, other);
            if n > shared {
                shared = n;
            }
        }
    }
    proof {
        assert(names.take(names.len() as int) == names);
        lemma_shared_prefix(service_name@, names);
        lemma_byte_len_take(service_name@, 0, shared_prefix(service_name@, names) as int);
    }
    if shared > 0 {
        let chars = chars_of(service_name);
        let k = char_index(&chars, shared, Ghost(shared_prefix(service_name@, names) as int));
        let rest = cut(&chars, k, chars.len());
        assert(rest@ == service_name@.skip(k as int));
        let suffix = trim_leading_non_alphanumeric(rest.as_str());
        if !suffix.as_str().is_empty() {
            return sanitize_short_name_fragment(suffix.as_str());
        }
    }
    sanitize_short_name_fragment(service_name)
}

/// Whether the candidate cannot stand for the name.
fn is_taken(candidate: &str, service_name: &str, signatures: &NameMap<String>) -> (r: bool)
    requires
        signatures.wf(),
    ensures
        r == taken(candidate@, service_name@, text_map(signatures@)),
{
    if same_text(candidate, service_name) {
        return false;
    }
    if signatures.get(candidate).is_some() {
        return true;
    }
    let ghost map = text_map(signatures@);
    let count = signatures.len();
    for i in 0..count
        invariant
            count == signatures.names().len(),
            signatures.wf(),
            map == text_map(signatures@),
            candidate@ != service_name@,
            !map.contains_key(candidate@),
            forall|j: int|
                0 <= j < i ==> #[trigger] signatures.names()[j] == service_name@
                    || !candidate@.is_prefix_of(map[signatures.names()[j]]),
    {
        let other = signatures.name_at(i);
        if !same_text(other, service_name) && starts_with(
            signatures.value_at(i).as_str(),
            candidate,
        ) {
            assert(map.contains_key(other@));
            return true;
        }
    }
    proof {
        assert forall|other: Seq<char>|
            other != service_name@ && #[trigger] map.contains_key(
                other,
            ) implies !candidate@.is_prefix_of(map[other]) by {
            assert(signatures.names().contains(other));
        }
    }
    false
}

/// The shortest beginning of the signature that can stand for the service; its name where there
/// is none.
pub fn shortest_unique_short_name(
    service_name: &str,
    signature: &str,
    signatures: &NameMap<String>,
) -> (r: String)
    requires
        signatures.wf(),
    ensures
        r@ == shortest_from(service_name@, signature@, text_map(signatures@), 1),
{
    let chars = chars_of(signature);
    let mut candidate = String::new();
    for i in 0..chars.len()
        invariant
            signatures.wf(),
            chars@ == signature@,
            candidate@ == chars@.take(i as int),
            shortest_from(service_name@, signature@, text_map(signatures@), 1) == shortest_from(
                service_name@,
                signature@,
                text_map(signatures@),
                (i + 1) as nat,
            ),
    {
        candidate.push(chars[i]);
        assert(candidate@ == signature@.take(i + 1));
        if !is_taken(candidate.as_str(), service_name, signatures) {
            return candidate;
        }
    }
    service_name.to_owned()
}

/// The short names of the services.
pub fn build_service_short_names(names: &[String]) -> (r: NameMap<String>)
    ensures
        r.wf(),
        text_map(r@) == short_names_of(views(names@)),
{
    let ghost all = views(names@);
    let mut signatures: NameMap<String> = NameMap::new();
    for i in 0..names.len()
        invariant
            all == views(names@),
            signatures.wf(),
            forall|t: Seq<char>| #[trigger]
                signatures@.contains_key(t) <==> all.take(i as int).contains(t),
            forall|t: Seq<char>| #[trigger]
                signatures@.contains_key(t) ==> signatures@[t]@ == signature(t, all),
    {
        let own = service_short_name_signature(names[i].as_str(), names);
        proof {
            lemma_contains_take(all, i as int);
        }
        signatures.insert(names[i].clone(), own);
    }
    assert(all.take(all.len() as int) == all);
    assert(text_map(signatures@) =~= signatures_of(all));
    let mut shorts: NameMap<String> = NameMap::new();
    for i in 0..names.len()
        invariant
            all == views(names@),
            signatures.wf(),
            text_map(signatures@) == signatures_of(all),
            shorts.wf(),
            forall|t: Seq<char>| #[trigger]
                shorts@.contains_key(t) <==> all.take(i as int).contains(t),
            forall|t: Seq<char>| #[trigger]
                shorts@.contains_key(t) ==> shorts@[t]@ == short_name_of(t, all),
    {
        proof {
            lemma_contains_take(all, i as int);
            assert(all.contains(all[i as int]));
            assert(text_map(signatures@).contains_key(all[i as int]));
        }
        let name = names[i].as_str();
        let own = match signatures.get(name) {
            Some(own) => {
                assert(text_map(signatures@)[name@] == own@);
                own.clone()
            },
            None => vstd::pervasive::unreached(),
        };
        assert(own@ == signatures_of(all)[name@]);
        let short = shortest_unique_short_name(name, own.as_str(), &signatures);
        shorts.insert(names[i].clone(), short);
    }
    assert(text_map(shorts@) =~= short_names_of(all));
    shorts
}

proof fn lemma_contains_take(s: Seq<Seq<char>>, i: int)
    requires
        0 <= i < s.len(),
    ensures
        forall|t: Seq<char>| #[trigger]
            s.take(i + 1).contains(t) <==> s.take(i).contains(t) || t == s[i],
{
    assert forall|t: Seq<char>| #[trigger]
        s.take(i + 1).contains(t) <==> s.take(i).contains(t) || t == s[i] by {
        if s.take(i + 1).contains(t) {
            let longer = s.take(i + 1);
            let j = choose|j: int| 0 <= j < longer.len() && longer[j] == t;
            if j < i {
                assert(s.take(i)[j] == t);
            }
        }
        if s.take(i).contains(t) {
            let j = choose|j: int| 0 <= j < i && s.take(i)[j] == t;
            assert(s.take(i + 1)[j] == t);
        }
        if t == s[i] {
            assert(s.take(i + 1)[i] == t);
        }
    }
}

} // verus!
