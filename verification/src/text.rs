//! Tests on the characters of a string.

use vstd::prelude::*;
use vstd::std_specs::iter::IteratorSpec;
use vstd::string::StrSliceExecFns;

verus! {

/// Whether the characters of `s` from position `from` on begin with those of
/// `wanted`.
fn matches_at(s: &str, from: usize, wanted: &str) -> (r: bool)
    requires
        from <= s@.len(),
    ensures
        r == wanted@.is_prefix_of(s@.skip(from as int)),
{
    let mut rest = s.chars();
    let mut skipped: usize = 0;
    while skipped < from
        invariant
            skipped <= from <= s@.len(),
            rest.remaining() == s@.skip(skipped as int),
        decreases from - skipped,
    {
        let _ = rest.next();
        skipped += 1;
    }
    let ghost tail = s@.skip(from as int);
    let mut wanted_rest = wanted.chars();
    let ghost mut i: int = 0;
    loop
        invariant
            0 <= i <= wanted@.len(),
            i <= tail.len(),
            tail == s@.skip(from as int),
            rest.remaining() == tail.skip(i),
            wanted_rest.remaining() == wanted@.skip(i),
            tail.take(i) == wanted@.take(i),
        decreases wanted@.len() - i,
    {
        match wanted_rest.next() {
            None => {
                assert(wanted@.take(i) == wanted@);
                return true;
            },
            Some(w) => {
                match rest.next() {
                    None => {
                        return false;
                    },
                    Some(c) => {
                        if c != w {
                            assert(tail[i] != wanted@[i]);
                            return false;
                        }
                        proof {
                            assert(tail.take(i + 1) == tail.take(i).push(tail[i]));
                            assert(wanted@.take(i + 1) == wanted@.take(i).push(wanted@[i]));
                            i = i + 1;
                        }
                    },
                }
            },
        }
    }
}

/// Whether `s` begins with the characters of `prefix`.
pub fn starts_with(s: &str, prefix: &str) -> (r: bool)
    ensures
        r == prefix@.is_prefix_of(s@),
{
    matches_at(s, 0, prefix)
}

/// Whether `s` ends with the characters of `suffix`.
pub fn ends_with(s: &str, suffix: &str) -> (r: bool)
    ensures
        r == suffix@.is_suffix_of(s@),
{
    let n = s.unicode_len();
    let k = suffix.unicode_len();
    if k > n {
        return false;
    }
    let r = matches_at(s, n - k, suffix);
    proof {
        let tail = s@.skip(n - k);
        assert(tail == s@.subrange(n - k, n as int));
        if r {
            assert(tail.take(k as int) == tail);
        }
    }
    r
}

/// The order of strings: character by character, by code point, a string
/// before every longer string that it begins. This is the order that `<` has
/// on `str`.
pub open spec fn precedes(a: Seq<char>, b: Seq<char>) -> bool
    decreases a.len(),
{
    if b.len() == 0 {
        false
    } else if a.len() == 0 {
        true
    } else if a[0] == b[0] {
        precedes(a.drop_first(), b.drop_first())
    } else {
        (a[0] as u32) < (b[0] as u32)
    }
}

/// Two strings that begin alike are in the order of what follows.
pub proof fn lemma_precedes_skips_common(a: Seq<char>, b: Seq<char>, i: int)
    requires
        0 <= i <= a.len(),
        i <= b.len(),
        a.take(i) == b.take(i),
    ensures
        precedes(a, b) == precedes(a.skip(i), b.skip(i)),
    decreases i,
{
    if i == 0 {
        assert(a.skip(0) =~= a);
        assert(b.skip(0) =~= b);
    } else {
        assert(a[0] == a.take(i)[0]);
        assert(b[0] == b.take(i)[0]);
        assert(a.drop_first().take(i - 1) =~= a.take(i).drop_first());
        assert(b.drop_first().take(i - 1) =~= b.take(i).drop_first());
        lemma_precedes_skips_common(a.drop_first(), b.drop_first(), i - 1);
        assert(a.drop_first().skip(i - 1) =~= a.skip(i));
        assert(b.drop_first().skip(i - 1) =~= b.skip(i));
    }
}

/// No string precedes itself.
pub proof fn lemma_precedes_irreflexive(a: Seq<char>)
    ensures
        !precedes(a, a),
    decreases a.len(),
{
    if a.len() > 0 {
        lemma_precedes_irreflexive(a.drop_first());
    }
}

/// Of two different strings one precedes the other.
pub proof fn lemma_precedes_total(a: Seq<char>, b: Seq<char>)
    ensures
        a == b || precedes(a, b) || precedes(b, a),
        !(precedes(a, b) && precedes(b, a)),
    decreases a.len(),
{
    if a.len() == 0 || b.len() == 0 {
        if a.len() == 0 && b.len() == 0 {
            assert(a =~= b);
        }
    } else if a[0] == b[0] {
        lemma_precedes_total(a.drop_first(), b.drop_first());
        if a.drop_first() == b.drop_first() {
            assert(a =~= seq![a[0]] + a.drop_first());
            assert(b =~= seq![b[0]] + b.drop_first());
        }
    } else {
        if (a[0] as u32) == (b[0] as u32) {
            vstd::utf8::char_u32_cast(a[0], a[0] as u32);
            vstd::utf8::char_u32_cast(b[0], b[0] as u32);
        }
    }
}

/// What precedes a string precedes all that the string precedes.
pub proof fn lemma_precedes_transitive(a: Seq<char>, b: Seq<char>, c: Seq<char>)
    requires
        precedes(a, b),
        precedes(b, c),
    ensures
        precedes(a, c),
    decreases a.len(),
{
    if a.len() > 0 {
        if a[0] == b[0] && b[0] == c[0] {
            lemma_precedes_transitive(a.drop_first(), b.drop_first(), c.drop_first());
        }
    }
}

/// Whether `a` comes before `b` in the order of strings.
pub fn comes_before(a: &str, b: &str) -> (r: bool)
    ensures
        r == precedes(a@, b@),
{
    let mut left = a.chars();
    let mut right = b.chars();
    let ghost mut i: int = 0;
    loop
        invariant
            0 <= i <= a@.len(),
            i <= b@.len(),
            left.remaining() == a@.skip(i),
            right.remaining() == b@.skip(i),
            a@.take(i) == b@.take(i),
        decreases a@.len() - i,
    {
        proof {
            lemma_precedes_skips_common(a@, b@, i);
        }
        match right.next() {
            None => {
                return false;
            },
            Some(r) => {
                match left.next() {
                    None => {
                        return true;
                    },
                    Some(l) => {
                        if l != r {
                            return (l as u32) < (r as u32);
                        }
                        proof {
                            assert(a@.take(i + 1) == a@.take(i).push(a@[i]));
                            assert(b@.take(i + 1) == b@.take(i).push(b@[i]));
                            i = i + 1;
                        }
                    },
                }
            },
        }
    }
}

/// Whether `a` and `b` hold the same characters.
pub fn same_text(a: &str, b: &str) -> (r: bool)
    ensures
        r == (a@ == b@),
{
    let n = a.unicode_len();
    let m = b.unicode_len();
    if n != m {
        return false;
    }
    let r = matches_at(a, 0, b);
    proof {
        assert(a@.skip(0) =~= a@);
        if r {
            assert(a@.take(m as int) =~= a@);
        }
    }
    r
}

/// Whether a character is white space, by the property of that name in the
/// Unicode character database.
pub uninterp spec fn is_white_space(c: char) -> bool;

/// `char::is_whitespace`, which tells whether the character has the property
/// White_Space.
#[verifier::external_body]
pub(crate) fn is_whitespace(c: char) -> (r: bool)
    ensures
        r == is_white_space(c),
{
    c.is_whitespace()
}

/// The words of `rest`, behind a word that has begun with `begun`: the runs
/// of characters that are not white space, in order.
pub open spec fn words_behind(begun: Seq<char>, rest: Seq<char>) -> Seq<Seq<char>>
    decreases rest.len(),
{
    let ended: Seq<Seq<char>> = if begun.len() > 0 {
        seq![begun]
    } else {
        Seq::empty()
    };
    if rest.len() == 0 {
        ended
    } else if is_white_space(rest[0]) {
        ended + words_behind(Seq::empty(), rest.drop_first())
    } else {
        words_behind(begun.push(rest[0]), rest.drop_first())
    }
}

/// The words of a string: what is left of it when it is cut at every run of
/// white space, in order, none of them empty.
pub open spec fn words_of(s: Seq<char>) -> Seq<Seq<char>> {
    words_behind(Seq::empty(), s)
}

/// The characters of each of some strings.
pub open spec fn texts(strings: Seq<String>) -> Seq<Seq<char>> {
    Seq::new(strings.len(), |i: int| strings[i]@)
}

/// A word: one character at least, and none that is white space.
pub open spec fn is_word(w: Seq<char>) -> bool {
    w.len() > 0 && forall|k: int| 0 <= k < w.len() ==> !is_white_space(#[trigger] w[k])
}

/// The words of a string are words: none is empty, none holds white space.
pub proof fn lemma_words_are_words(begun: Seq<char>, rest: Seq<char>)
    requires
        begun.len() > 0 ==> is_word(begun),
    ensures
        forall|i: int|
            0 <= i < words_behind(begun, rest).len() ==> is_word(
                #[trigger] words_behind(begun, rest)[i],
            ),
    decreases rest.len(),
{
    let all = words_behind(begun, rest);
    let ended: Seq<Seq<char>> = if begun.len() > 0 {
        seq![begun]
    } else {
        Seq::empty()
    };
    if rest.len() == 0 {
        assert(all == ended);
        assert forall|i: int| 0 <= i < all.len() implies is_word(#[trigger] all[i]) by {
            assert(all[i] == begun);
        }
    } else if is_white_space(rest[0]) {
        let later = words_behind(Seq::empty(), rest.drop_first());
        lemma_words_are_words(Seq::empty(), rest.drop_first());
        assert(all == ended + later);
        assert forall|i: int| 0 <= i < all.len() implies is_word(#[trigger] all[i]) by {
            if i >= ended.len() {
                assert(all[i] == later[i - ended.len()]);
            } else {
                assert(all[i] == begun);
            }
        }
    } else {
        let longer = begun.push(rest[0]);
        assert forall|k: int| 0 <= k < longer.len() implies !is_white_space(
            #[trigger] longer[k],
        ) by {
            if k < begun.len() {
                assert(longer[k] == begun[k]);
            }
        }
        lemma_words_are_words(longer, rest.drop_first());
        assert(all == words_behind(longer, rest.drop_first()));
    }
}

/// Cuts a string at every run of white space.
pub fn words(s: &str) -> (found: Vec<String>)
    ensures
        texts(found@) == words_of(s@),
{
    let mut found: Vec<String> = Vec::new();
    let mut rest = s.chars();
    let mut at: usize = 0;
    let mut start: usize = 0;
    let n = s.unicode_len();
    assert(texts(found@) =~= Seq::<Seq<char>>::empty());
    assert(s@.skip(0) =~= s@);
    assert(s@.subrange(0, 0) =~= Seq::<char>::empty());
    loop
        invariant
            n == s@.len(),
            start <= at <= n,
            rest.remaining() == s@.skip(at as int),
            words_of(s@) == texts(found@) + words_behind(
                s@.subrange(start as int, at as int),
                s@.skip(at as int),
            ),
        decreases n - at,
    {
        let ghost begun = s@.subrange(start as int, at as int);
        let ghost before = texts(found@);
        match rest.next() {
            None => {
                if start < at {
                    found.push(s.substring_char(start, at).to_owned());
                    assert(texts(found@) =~= before + seq![begun]);
                } else {
                    assert(texts(found@) + Seq::<Seq<char>>::empty() =~= texts(found@));
                }
                return found;
            },
            Some(c) => {
                assert(s@.skip(at as int).drop_first() =~= s@.skip(at + 1));
                if is_whitespace(c) {
                    if start < at {
                        found.push(s.substring_char(start, at).to_owned());
                        assert(texts(found@) =~= before + seq![begun]);
                    }
                    at += 1;
                    start = at;
                    assert(s@.subrange(start as int, at as int) =~= Seq::<char>::empty());
                    assert(words_of(s@) =~= texts(found@) + words_behind(
                        s@.subrange(start as int, at as int),
                        s@.skip(at as int),
                    ));
                } else {
                    assert(begun.push(c) =~= s@.subrange(start as int, at + 1));
                    at += 1;
                }
            },
        }
    }
}

} // verus!
