//! Text as a sequence of characters: the tests, searches and cuts that the rest of the
//! library is built from.

use vstd::prelude::*;
use vstd::utf8::encode_utf8;

verus! {

/// `String::push` adds the given character at the end of the string.
pub assume_specification[ String::push ](s: &mut String, c: char)
    ensures
        final(s)@ == old(s)@.push(c),
;

/// What `char::is_alphanumeric` answers: whether Unicode counts the character among the letters
/// or the numbers.
pub uninterp spec fn unicode_alphanumeric(c: char) -> bool;

/// `char::is_alphanumeric` looks the character up in the Unicode tables; what it finds there
/// depends on the character alone and is left unsaid.
pub assume_specification[ char::is_alphanumeric ](c: char) -> (r: bool)
    ensures
        r == unicode_alphanumeric(c),
;

/// The views of the elements, in order.
pub open spec fn views<T: View>(s: Seq<T>) -> Seq<T::V> {
    s.map_values(|x: T| x@)
}

/// Adding an element adds its view.
pub proof fn lemma_views_push<T: View>(s: Seq<T>, x: T)
    ensures
        views(s.push(x)) == views(s).push(x@),
{
    assert(views(s.push(x)) =~= views(s).push(x@));
}

/// The ASCII letters and digits.
pub open spec fn ascii_alphanumeric(c: char) -> bool {
    ||| '0' <= c <= '9'
    ||| 'A' <= c <= 'Z'
    ||| 'a' <= c <= 'z'
}

/// The letters and the numbers.
pub open spec fn alphanumeric(c: char) -> bool {
    if c <= '\u{7f}' {
        ascii_alphanumeric(c)
    } else {
        unicode_alphanumeric(c)
    }
}

/// The characters with the Unicode property `White_Space`.
pub open spec fn white_space(c: char) -> bool {
    ||| '\u{9}' <= c <= '\u{d}'
    ||| c == ' '
    ||| c == '\u{85}'
    ||| c == '\u{a0}'
    ||| c == '\u{1680}'
    ||| '\u{2000}' <= c <= '\u{200a}'
    ||| c == '\u{2028}'
    ||| c == '\u{2029}'
    ||| c == '\u{202f}'
    ||| c == '\u{205f}'
    ||| c == '\u{3000}'
}

/// White space, as a property of characters.
pub open spec fn is_white() -> spec_fn(char) -> bool {
    |c: char| white_space(c)
}

/// All but white space, as a property of characters.
pub open spec fn is_dark() -> spec_fn(char) -> bool {
    |c: char| !white_space(c)
}

/// Letters and numbers, as a property of characters.
pub open spec fn is_word() -> spec_fn(char) -> bool {
    |c: char| alphanumeric(c)
}

/// All but letters and numbers, as a property of characters.
pub open spec fn is_separator() -> spec_fn(char) -> bool {
    |c: char| !alphanumeric(c)
}

/// Whether the character is a letter or a number.
pub fn is_word_char(c: char) -> (r: bool)
    ensures
        r == alphanumeric(c),
{
    if c <= '\u{7f}' {
        ('0' <= c && c <= '9') || ('A' <= c && c <= 'Z') || ('a' <= c && c <= 'z')
    } else {
        c.is_alphanumeric()
    }
}

/// Whether the character is white space.
pub fn is_white_space(c: char) -> (r: bool)
    ensures
        r == white_space(c),
{
    ('\u{9}' <= c && c <= '\u{d}') || c == ' ' || c == '\u{85}' || c == '\u{a0}' || c == '\u{1680}'
        || ('\u{2000}' <= c && c <= '\u{200a}') || c == '\u{2028}' || c == '\u{2029}' || c
        == '\u{202f}' || c == '\u{205f}' || c == '\u{3000}'
}

/// The length of the longest beginning of `s` made of characters that satisfy `p`.
pub open spec fn run(s: Seq<char>, p: spec_fn(char) -> bool) -> nat
    decreases s.len(),
{
    if s.len() == 0 || !p(s[0]) {
        0
    } else {
        1 + run(s.drop_first(), p)
    }
}

/// What `run` counts, and where it stops.
pub proof fn lemma_run(s: Seq<char>, p: spec_fn(char) -> bool)
    ensures
        run(s, p) <= s.len(),
        forall|i: int| 0 <= i < run(s, p) ==> p(#[trigger] s[i]),
        run(s, p) < s.len() ==> !p(s[run(s, p) as int]),
    decreases s.len(),
{
    if s.len() == 0 || !p(s[0]) {
    } else {
        let t = s.drop_first();
        lemma_run(t, p);
        assert forall|i: int| 0 <= i < run(s, p) implies p(#[trigger] s[i]) by {
            if i > 0 {
                assert(s[i] == t[i - 1]);
            }
        }
    }
}

/// A run ends at the first character that does not satisfy `p`.
pub proof fn lemma_run_is(s: Seq<char>, p: spec_fn(char) -> bool, k: int)
    requires
        0 <= k <= s.len(),
        forall|i: int| 0 <= i < k ==> p(#[trigger] s[i]),
        k < s.len() ==> !p(s[k]),
    ensures
        run(s, p) == k,
{
    lemma_run(s, p);
    if run(s, p) < k {
        assert(p(s[run(s, p) as int]));
    }
}

/// The text without the white space at its beginning.
pub open spec fn trim_start(s: Seq<char>) -> Seq<char> {
    s.skip(run(s, is_white()) as int)
}

/// The text without the white space at its end.
pub open spec fn trim_end(s: Seq<char>) -> Seq<char>
    decreases s.len(),
{
    if s.len() > 0 && white_space(s.last()) {
        trim_end(s.drop_last())
    } else {
        s
    }
}

/// The text without the white space at its two ends.
pub open spec fn trim(s: Seq<char>) -> Seq<char> {
    trim_end(trim_start(s))
}

/// The words of the text: what white space keeps apart.
pub open spec fn words(s: Seq<char>) -> Seq<Seq<char>>
    decreases s.len(),
{
    if s.len() == 0 {
        Seq::empty()
    } else if white_space(s[0]) {
        words(s.drop_first())
    } else {
        let n = run(s, is_dark()) as int;
        proof {
            lemma_run(s, is_dark());
            assert(is_dark()(s[0]));
        }
        seq![s.take(n)] + words(s.skip(n))
    }
}

/// Whether `needle` stands somewhere in `s`.
pub open spec fn contains_text(s: Seq<char>, needle: Seq<char>) -> bool {
    exists|i: int| occurs_at(s, needle, i)
}

/// Whether `needle` stands in `s` at `i`.
pub open spec fn occurs_at(s: Seq<char>, needle: Seq<char>, i: int) -> bool {
    0 <= i && i + needle.len() <= s.len() && s.subrange(i, i + needle.len()) == needle
}

/// A text of `n` blanks.
pub open spec fn spaces(n: nat) -> Seq<char> {
    Seq::new(n, |i: int| ' ')
}

/// How many characters the two texts share at their beginnings.
pub open spec fn common_prefix(a: Seq<char>, b: Seq<char>) -> nat
    decreases a.len(),
{
    if a.len() > 0 && b.len() > 0 && a[0] == b[0] {
        1 + common_prefix(a.drop_first(), b.drop_first())
    } else {
        0
    }
}

/// What `common_prefix` counts, and where it stops.
pub proof fn lemma_common_prefix(a: Seq<char>, b: Seq<char>)
    ensures
        common_prefix(a, b) <= a.len(),
        common_prefix(a, b) <= b.len(),
        a.take(common_prefix(a, b) as int) == b.take(common_prefix(a, b) as int),
        common_prefix(a, b) < a.len() && common_prefix(a, b) < b.len() ==> a[common_prefix(
            a,
            b,
        ) as int] != b[common_prefix(a, b) as int],
    decreases a.len(),
{
    if a.len() > 0 && b.len() > 0 && a[0] == b[0] {
        let x = a.drop_first();
        let y = b.drop_first();
        lemma_common_prefix(x, y);
        let n = common_prefix(x, y) as int;
        assert forall|i: int| 0 <= i < n + 1 implies a[i] == b[i] by {
            if i > 0 {
                assert(x.take(n)[i - 1] == y.take(n)[i - 1]);
            }
        }
        assert(a.take(n + 1) =~= b.take(n + 1));
    } else {
        assert(a.take(0) =~= b.take(0));
    }
}

/// The shared beginning ends where the texts first differ.
pub proof fn lemma_common_prefix_is(a: Seq<char>, b: Seq<char>, k: int)
    requires
        0 <= k <= a.len(),
        k <= b.len(),
        a.take(k) == b.take(k),
        k < a.len() && k < b.len() ==> a[k] != b[k],
    ensures
        common_prefix(a, b) == k,
{
    lemma_common_prefix(a, b);
    let n = common_prefix(a, b) as int;
    if n < k {
        assert(a[n] == a.take(k)[n]);
        assert(b[n] == b.take(k)[n]);
    } else if k < n {
        assert(a[k] == a.take(n)[k]);
        assert(b[k] == b.take(n)[k]);
    }
}

/// How many bytes the text takes in UTF-8.
pub open spec fn byte_len(s: Seq<char>) -> nat {
    encode_utf8(s).len()
}

/// The encoding of a text is that of its parts, one after the other.
pub proof fn lemma_encode_concat(a: Seq<char>, b: Seq<char>)
    ensures
        encode_utf8(a + b) == encode_utf8(a) + encode_utf8(b),
    decreases a.len(),
{
    if a.len() == 0 {
        assert(a + b =~= b);
        assert(encode_utf8(a) + encode_utf8(b) =~= encode_utf8(b));
    } else {
        lemma_encode_concat(a.drop_first(), b);
        assert((a + b).drop_first() =~= a.drop_first() + b);
        assert(encode_utf8(a + b) =~= encode_utf8(a) + encode_utf8(b));
    }
}

/// A beginning of a text takes no more bytes than the text, and fewer if it is shorter.
pub proof fn lemma_byte_len_take(s: Seq<char>, i: int, j: int)
    requires
        0 <= i <= j <= s.len(),
    ensures
        byte_len(s.take(i)) <= byte_len(s.take(j)),
        i < j ==> byte_len(s.take(i)) < byte_len(s.take(j)),
        byte_len(s.take(j)) <= byte_len(s),
        j - i <= byte_len(s.take(j)) - byte_len(s.take(i)),
    decreases j - i,
{
    assert(s.take(j) + s.skip(j) =~= s);
    lemma_encode_concat(s.take(j), s.skip(j));
    if i < j {
        lemma_byte_len_take(s, i, j - 1);
        lemma_byte_len_push(s.take(j - 1), s[j - 1]);
        assert(s.take(j) =~= s.take(j - 1).push(s[j - 1]));
    }
}

/// One more character takes its own bytes more.
pub proof fn lemma_byte_len_push(s: Seq<char>, c: char)
    ensures
        byte_len(s.push(c)) == byte_len(s) + byte_len(seq![c]),
        1 <= byte_len(seq![c]) <= 4,
{
    assert(s.push(c) =~= s + seq![c]);
    lemma_encode_concat(s, seq![c]);
    assert(seq![c].drop_first() =~= Seq::<char>::empty());
    assert(encode_utf8(seq![c].drop_first()) =~= Seq::<u8>::empty());
    assert(encode_utf8(seq![c]) == vstd::utf8::encode_scalar(c as u32) + encode_utf8(
        seq![c].drop_first(),
    ));
}

/// A character takes at least one byte.
pub proof fn lemma_len_at_most_bytes(s: Seq<char>)
    ensures
        s.len() <= byte_len(s),
    decreases s.len(),
{
    if s.len() > 0 {
        lemma_len_at_most_bytes(s.drop_last());
        lemma_byte_len_push(s.drop_last(), s.last());
        assert(s =~= s.drop_last().push(s.last()));
    }
}

/// The characters of the text, in order.
pub fn chars_of(s: &str) -> (r: Vec<char>)
    ensures
        r@ == s@,
{
    let mut r: Vec<char> = Vec::new();
    for c in it: s.chars()
        invariant
            r@ == it.seq().take(it.index() as int),
            it.seq() == s@,
    {
        r.push(c);
    }
    r
}

/// The text with the given characters.
pub fn string_of(chars: &[char]) -> (r: String)
    ensures
        r@ == chars@,
{
    let mut r = String::new();
    for i in 0..chars.len()
        invariant
            r@ == chars@.take(i as int),
    {
        r.push(chars[i]);
        assert(chars@.take(i + 1) == chars@.take(i as int).push(chars@[i as int]));
    }
    r
}

/// The characters from `from` up to, and without, `to`.
pub fn cut(chars: &Vec<char>, from: usize, to: usize) -> (r: String)
    requires
        from <= to <= chars@.len(),
    ensures
        r@ == chars@.subrange(from as int, to as int),
{
    string_of(vstd::slice::slice_subrange(chars.as_slice(), from, to))
}

/// How many bytes the text takes in UTF-8.
pub fn byte_len_of(s: &str) -> (r: usize)
    ensures
        r == byte_len(s@),
{
    s.as_bytes().len()
}

/// How many bytes the character takes in UTF-8.
pub fn char_bytes(c: char) -> (r: usize)
    ensures
        r == byte_len(seq![c]),
{
    proof {
        assert(seq![c].drop_first() =~= Seq::<char>::empty());
        assert(encode_utf8(seq![c].drop_first()) =~= Seq::<u8>::empty());
        assert(encode_utf8(seq![c]) =~= vstd::utf8::encode_scalar(c as u32));
    }
    if c <= '\u{7f}' {
        1
    } else if c <= '\u{7ff}' {
        2
    } else if c <= '\u{ffff}' {
        3
    } else {
        4
    }
}

/// Whether the two texts are the same.
pub fn same_text(a: &str, b: &str) -> (r: bool)
    ensures
        r == (a@ == b@),
{
    let mut left = a.chars();
    let mut right = b.chars();
    let ghost mut k: int = 0;
    loop
        invariant
            0 <= k <= a@.len(),
            k <= b@.len(),
            vstd::std_specs::iter::IteratorSpec::remaining(&left) == a@.skip(k),
            vstd::std_specs::iter::IteratorSpec::remaining(&right) == b@.skip(k),
            a@.take(k) == b@.take(k),
        decreases a@.len() - k,
    {
        match (left.next(), right.next()) {
            (None, None) => {
                assert(a@.take(k) == a@ && b@.take(k) == b@);
                return true;
            },
            (Some(x), Some(y)) => {
                if x != y {
                    assert(a@[k] == x && b@[k] == y);
                    return false;
                }
                proof {
                    assert(a@.take(k + 1) == a@.take(k).push(x));
                    assert(b@.take(k + 1) == b@.take(k).push(y));
                    k = k + 1;
                }
            },
            _ => {
                return false;
            },
        }
    }
}

/// How many characters the two texts share at their beginnings.
pub fn common_prefix_of(a: &Vec<char>, b: &Vec<char>) -> (r: usize)
    ensures
        r == common_prefix(a@, b@),
{
    let mut k: usize = 0;
    while k < a.len() && k < b.len() && a[k] == b[k]
        invariant
            k <= a@.len(),
            k <= b@.len(),
            a@.take(k as int) == b@.take(k as int),
        decreases a@.len() - k,
    {
        proof {
            assert(a@.take(k + 1) == a@.take(k as int).push(a@[k as int]));
            assert(b@.take(k + 1) == b@.take(k as int).push(b@[k as int]));
        }
        k = k + 1;
    }
    proof {
        lemma_common_prefix_is(a@, b@, k as int);
    }
    k
}

/// Whether the text begins with `prefix`.
pub fn starts_with(s: &str, prefix: &str) -> (r: bool)
    ensures
        r == prefix@.is_prefix_of(s@),
{
    let text = chars_of(s);
    let start = chars_of(prefix);
    let n = common_prefix_of(&start, &text);
    proof {
        lemma_common_prefix(start@, text@);
        if n == start@.len() {
            assert(start@.take(n as int) == start@);
        } else if prefix@.is_prefix_of(s@) {
            assert(text@.take(start@.len() as int)[n as int] == start@[n as int]);
        }
    }
    n == start.len()
}

/// Whether `needle` stands somewhere in the text.
pub fn contains_of(s: &str, needle: &str) -> (r: bool)
    ensures
        r == contains_text(s@, needle@),
{
    let text = chars_of(s);
    let part = chars_of(needle);
    if part.len() > text.len() {
        return false;
    }
    let end = text.len();
    let last = end - part.len();
    let mut i: usize = 0;
    while i <= last
        invariant
            i <= last + 1,
            end == text@.len(),
            last == end - part@.len(),
            text@ == s@,
            part@ == needle@,
            forall|j: int| 0 <= j < i ==> !#[trigger] occurs_at(text@, part@, j),
        decreases last + 1 - i,
    {
        let mut k: usize = 0;
        while k < part.len() && text[i + k] == part[k]
            invariant
                k <= part@.len(),
                end == text@.len(),
                i + part@.len() <= end,
                forall|j: int| 0 <= j < k ==> text@[i + j] == part@[j],
            decreases part@.len() - k,
        {
            k = k + 1;
        }
        if k == part.len() {
            assert(text@.subrange(i as int, i + part@.len()) == part@);
            assert(occurs_at(s@, needle@, i as int));
            return true;
        }
        proof {
            if occurs_at(text@, part@, i as int) {
                assert(text@.subrange(i as int, i + part@.len())[k as int] == part@[k as int]);
            }
        }
        i = i + 1;
    }
    false
}

/// The text without the white space at its end.
pub fn trim_end_of(s: &str) -> (r: String)
    ensures
        r@ == trim_end(s@),
{
    let text = chars_of(s);
    let mut n = text.len();
    assert(text@.take(n as int) == s@);
    while n > 0 && is_white_space(text[n - 1])
        invariant
            n <= text@.len(),
            trim_end(text@.take(n as int)) == trim_end(s@),
        decreases n,
    {
        assert(text@.take(n as int).drop_last() == text@.take(n - 1));
        n = n - 1;
    }
    proof {
        if n > 0 {
            assert(text@.take(n as int).last() == text@[n - 1]);
        }
        assert(text@.subrange(0, n as int) == text@.take(n as int));
    }
    cut(&text, 0, n)
}

/// The text without the white space at its two ends.
pub fn trim_of(s: &str) -> (r: String)
    ensures
        r@ == trim(s@),
{
    let text = chars_of(s);
    let n = white_run_of(&text, 0);
    let rest = cut(&text, n, text.len());
    assert(text@.skip(0) == text@);
    assert(rest@ == text@.skip(n as int));
    trim_end_of(rest.as_str())
}

/// Whether the text is white space throughout.
pub fn is_blank(s: &str) -> (r: bool)
    ensures
        r == (trim(s@).len() == 0),
{
    trim_of(s).as_str().is_empty()
}

/// How many white characters follow one another from `from` on.
pub fn white_run_of(chars: &Vec<char>, from: usize) -> (r: usize)
    requires
        from <= chars@.len(),
    ensures
        from + r <= chars@.len(),
        r == run(chars@.skip(from as int), is_white()),
{
    let mut k: usize = 0;
    let end = chars.len();
    while k < end - from && is_white_space(chars[from + k])
        invariant
            end == chars@.len(),
            from <= end,
            k <= end - from,
            forall|i: int| 0 <= i < k ==> is_white()(#[trigger] chars@.skip(from as int)[i]),
        decreases end - k,
    {
        k = k + 1;
    }
    proof {
        lemma_run_is(chars@.skip(from as int), is_white(), k as int);
    }
    k
}

/// How many characters that are not white follow one another from `from` on.
pub fn dark_run_of(chars: &Vec<char>, from: usize) -> (r: usize)
    requires
        from <= chars@.len(),
    ensures
        from + r <= chars@.len(),
        r == run(chars@.skip(from as int), is_dark()),
{
    let mut k: usize = 0;
    let end = chars.len();
    while k < end - from && !is_white_space(chars[from + k])
        invariant
            end == chars@.len(),
            from <= end,
            k <= end - from,
            forall|i: int| 0 <= i < k ==> is_dark()(#[trigger] chars@.skip(from as int)[i]),
        decreases end - k,
    {
        k = k + 1;
    }
    proof {
        lemma_run_is(chars@.skip(from as int), is_dark(), k as int);
    }
    k
}

/// The words of the text, in order.
pub fn words_of(s: &str) -> (r: Vec<String>)
    ensures
        views(r@) == words(s@),
{
    let text = chars_of(s);
    let mut r: Vec<String> = Vec::new();
    let mut i: usize = 0;
    assert(text@.skip(0) == s@);
    assert(views(r@) + words(s@) == words(s@));
    while i < text.len()
        invariant
            i <= text@.len(),
            views(r@) + words(text@.skip(i as int)) == words(s@),
        decreases text@.len() - i,
    {
        let ghost rest = text@.skip(i as int);
        if is_white_space(text[i]) {
            assert(rest.drop_first() == text@.skip(i + 1));
            i = i + 1;
        } else {
            let n = dark_run_of(&text, i);
            let word = cut(&text, i, i + n);
            proof {
                assert(word@ == rest.take(n as int));
                assert(rest.skip(n as int) == text@.skip(i + n));
                lemma_views_push(r@, word);
                assert(views(r@.push(word)) + words(text@.skip(i + n)) == views(r@) + words(rest));
            }
            r.push(word);
            i = i + n;
        }
    }
    assert(words(text@.skip(i as int)) == Seq::<Seq<char>>::empty());
    assert(views(r@) + words(text@.skip(i as int)) == views(r@));
    r
}

/// A text of `n` blanks.
pub fn spaces_of(n: usize) -> (r: String)
    ensures
        r@ == spaces(n as nat),
{
    let mut r = String::new();
    for i in 0..n
        invariant
            r@ == spaces(i as nat),
    {
        r.push(' ');
        assert(spaces(i as nat).push(' ') == spaces((i + 1) as nat));
    }
    r
}

/// The parts, joined without anything between them.
pub open spec fn joined(parts: Seq<Seq<char>>) -> Seq<char>
    decreases parts.len(),
{
    if parts.len() == 0 {
        Seq::empty()
    } else {
        joined(parts.drop_last()) + parts.last()
    }
}

/// Whether the text is white space throughout.
pub open spec fn all_white(s: Seq<char>) -> bool {
    forall|i: int| 0 <= i < s.len() ==> white_space(#[trigger] s[i])
}

/// Whether the text holds no white space.
pub open spec fn all_dark(s: Seq<char>) -> bool {
    forall|i: int| 0 <= i < s.len() ==> !white_space(#[trigger] s[i])
}

/// Trimming the end of a text takes off the white space there, and nothing else.
pub proof fn law_trim_end_drops_white_space(s: Seq<char>, white: Seq<char>)
    requires
        s.len() > 0 ==> !white_space(s.last()),
        all_white(white),
    ensures
        trim_end(s + white) == s,
    decreases white.len(),
{
    let all = s + white;
    if white.len() > 0 {
        assert(all.last() == white[white.len() - 1]);
        assert(all.drop_last() =~= s + white.drop_last());
        assert forall|i: int| 0 <= i < white.drop_last().len() implies white_space(
            #[trigger] white.drop_last()[i],
        ) by {
            assert(white.drop_last()[i] == white[i]);
        }
        law_trim_end_drops_white_space(s, white.drop_last());
    } else {
        assert(all =~= s);
    }
}

/// Trimming a text takes off the white space around it, and nothing else.
pub proof fn law_trim_drops_outer_white_space(
    before: Seq<char>,
    s: Seq<char>,
    after: Seq<char>,
)
    requires
        all_white(before),
        all_white(after),
        s.len() > 0 ==> !white_space(s[0]) && !white_space(s.last()),
    ensures
        trim(before + s + after) == s,
{
    let all = before + s + after;
    if s.len() > 0 {
        assert forall|i: int| 0 <= i < before.len() implies is_white()(#[trigger] all[i]) by {
            assert(all[i] == before[i]);
        }
        assert(all[before.len() as int] == s[0]);
        lemma_run_is(all, is_white(), before.len() as int);
        assert(trim_start(all) =~= s + after);
        law_trim_end_drops_white_space(s, after);
    } else {
        assert forall|i: int| 0 <= i < all.len() implies is_white()(#[trigger] all[i]) by {
            if i < before.len() {
                assert(all[i] == before[i]);
            } else {
                assert(all[i] == after[i - before.len()]);
            }
        }
        lemma_run_is(all, is_white(), all.len() as int);
        assert(trim_start(all) =~= Seq::<char>::empty());
        assert(trim(all) =~= s);
    }
}

/// The end of a text is trimmed up to its last character that is not white space.
proof fn lemma_trim_end_keeps_the_first(s: Seq<char>)
    requires
        s.len() > 0,
        !white_space(s[0]),
    ensures
        trim_end(s).len() > 0,
    decreases s.len(),
{
    if white_space(s.last()) {
        lemma_trim_end_keeps_the_first(s.drop_last());
    }
}

/// A text is trimmed to nothing exactly where each of its characters is white space.
pub proof fn law_white_texts_are_trimmed_to_nothing(s: Seq<char>)
    ensures
        trim(s).len() == 0 <==> all_white(s),
{
    let empty = Seq::<char>::empty();
    if all_white(s) {
        assert(s + empty + empty =~= s);
        law_trim_drops_outer_white_space(s, empty, empty);
    } else {
        lemma_run(s, is_white());
        let n = run(s, is_white()) as int;
        if n == s.len() {
            assert forall|i: int| 0 <= i < s.len() implies white_space(#[trigger] s[i]) by {
                assert(is_white()(s[i]));
            }
        }
        assert(!is_white()(s[n]));
        assert(s.skip(n)[0] == s[n]);
        lemma_trim_end_keeps_the_first(s.skip(n));
    }
}

/// White space is what Unicode calls so: the line breaks and tabs of ASCII, its blank, and the
/// spaces and line breaks beyond it.
pub proof fn law_white_space_by_number(c: char)
    ensures
        white_space(c) <==> ({
            let n = c as int;
            ||| 9 <= n <= 13
            ||| n == 32
            ||| n == 133
            ||| n == 160
            ||| n == 5760
            ||| 8192 <= n <= 8202
            ||| n == 8232
            ||| n == 8233
            ||| n == 8239
            ||| n == 8287
            ||| n == 12288
        }),
{
}

/// Of the characters of ASCII the ten digits and the letters, small and capital, make up words.
pub proof fn law_ascii_words_by_number(c: char)
    requires
        c as int <= 127,
    ensures
        alphanumeric(c) <==> ({
            let n = c as int;
            ||| 48 <= n <= 57
            ||| 65 <= n <= 90
            ||| 97 <= n <= 122
        }),
{
}

/// A text without white space is one word.
pub proof fn law_a_dark_text_is_one_word(s: Seq<char>)
    requires
        s.len() > 0,
        all_dark(s),
    ensures
        words(s) == seq![s],
{
    assert(!white_space(s[0]));
    assert forall|i: int| 0 <= i < s.len() implies is_dark()(#[trigger] s[i]) by {}
    lemma_run_is(s, is_dark(), s.len() as int);
    assert(s.take(s.len() as int) =~= s);
    assert(s.skip(s.len() as int) =~= Seq::<char>::empty());
    assert(words(Seq::<char>::empty()) =~= Seq::<Seq<char>>::empty());
    assert(words(s) =~= seq![s]);
}

/// White space keeps words apart, and nothing else of them is lost.
pub proof fn law_white_space_parts_words(a: Seq<char>, c: char, b: Seq<char>)
    requires
        white_space(c),
    ensures
        words(a.push(c) + b) == words(a) + words(b),
    decreases a.len(),
{
    let all = a.push(c) + b;
    if a.len() == 0 {
        assert(all.drop_first() =~= b);
        assert(all[0] == c);
        assert(words(a) + words(b) =~= words(b));
    } else if white_space(a[0]) {
        law_white_space_parts_words(a.drop_first(), c, b);
        assert(all[0] == a[0]);
        assert(all.drop_first() =~= a.drop_first().push(c) + b);
    } else {
        let n = run(a, is_dark()) as int;
        lemma_run(a, is_dark());
        assert(is_dark()(a[0]));
        assert forall|i: int| 0 <= i < n implies is_dark()(#[trigger] all[i]) by {
            assert(all[i] == a[i]);
        }
        assert(!is_dark()(all[n])) by {
            if n < a.len() {
                assert(all[n] == a[n]);
            } else {
                assert(all[n] == c);
            }
        }
        lemma_run_is(all, is_dark(), n);
        law_white_space_parts_words(a.skip(n), c, b);
        assert(all[0] == a[0]);
        assert(all.take(n) =~= a.take(n));
        assert(all.skip(n) =~= a.skip(n).push(c) + b);
        assert(words(all) =~= words(a) + words(b));
    }
}

} // verus!
