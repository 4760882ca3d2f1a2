//! Bridges between `String`/`&str` and `Vec<char>`, the character form the
//! verified logic works on.

use vstd::prelude::*;
use vstd::std_specs::iter::IteratorSpec;

verus! {

/// The characters of a string, in order: a string's view is exactly this
/// character sequence.
pub fn chars_of(s: &str) -> (r: Vec<char>)
    ensures
        r@ == s@,
{
    let mut r: Vec<char> = Vec::new();
    let mut it = s.chars();
    proof {
        assert(IteratorSpec::remaining(&it) == s@);
        assert(r@ + IteratorSpec::remaining(&it) =~= s@);
    }
    loop
        invariant
            it.obeys_prophetic_iter_laws(),
            IteratorSpec::decrease(&it) is Some,
            r@ + IteratorSpec::remaining(&it) == s@,
        decreases IteratorSpec::decrease(&it)->0,
    {
        let ghost prev = IteratorSpec::remaining(&it);
        match it.next() {
            Option::Some(c) => {
                r.push(c);
                proof {
                    assert(r@ + IteratorSpec::remaining(&it) =~= s@);
                }
            },
            Option::None => {
                proof {
                    assert(prev.len() == 0);
                    assert(r@ =~= s@);
                }
                return r;
            },
        }
    }
}

/// Relies on `String::from_iter` over `char`: builds the string whose
/// characters are exactly the given ones, in order.
#[verifier::external_body]
pub fn string_from_chars(v: &Vec<char>) -> (r: String)
    ensures
        r@ == v@,
{
    v.iter().collect()
}

/// Relies on `<str as PartialEq>::eq`: two string slices are equal exactly
/// when they hold the same characters.
pub assume_specification[ <str as core::cmp::PartialEq>::eq ](a: &str, b: &str) -> (r: bool)
    ensures
        r == (a@ == b@),
;

/// The whitespace that separates words: the Unicode white-space characters.
pub open spec fn is_ws(c: char) -> bool {
    ||| c == ' ' || c == '\t' || c == '\n' || c == '\r' || c == '\u{0B}' || c == '\u{0C}'
    ||| c == '\u{85}' || c == '\u{A0}' || c == '\u{1680}'
    ||| '\u{2000}' <= c <= '\u{200A}'
    ||| c == '\u{2028}' || c == '\u{2029}' || c == '\u{202F}' || c == '\u{205F}' || c == '\u{3000}'
}

fn is_ws_exec(c: char) -> (r: bool)
    ensures
        r == is_ws(c),
{
    let u = c as u32;
    u == 0x20 || u == 0x09 || u == 0x0A || u == 0x0D || u == 0x0B || u == 0x0C || u == 0x85
        || u == 0xA0 || u == 0x1680 || (0x2000 <= u && u <= 0x200A) || u == 0x2028 || u == 0x2029
        || u == 0x202F || u == 0x205F || u == 0x3000
}

/// How many characters the word at the front of `s` has: the length of the
/// longest whitespace-free prefix.
pub open spec fn word_len(s: Seq<char>) -> int
    decreases s.len(),
{
    if s.len() == 0 || is_ws(s[0]) {
        0
    } else {
        1 + word_len(s.drop_first())
    }
}

/// The whitespace-delimited words of `s`, in order, each one nonempty.
pub open spec fn split_ws(s: Seq<char>) -> Seq<Seq<char>>
    decreases s.len(),
    via split_ws_decreases
{
    if s.len() == 0 {
        Seq::empty()
    } else if is_ws(s[0]) {
        split_ws(s.drop_first())
    } else {
        seq![s.take(word_len(s))] + split_ws(s.skip(word_len(s)))
    }
}

#[via_fn]
proof fn split_ws_decreases(s: Seq<char>) {
    if s.len() > 0 && !is_ws(s[0]) {
        lemma_word_len_bounds(s);
    }
}

proof fn lemma_word_len_bounds(s: Seq<char>)
    ensures
        0 <= word_len(s) <= s.len(),
        s.len() > 0 && !is_ws(s[0]) ==> word_len(s) >= 1,
    decreases s.len(),
{
    if s.len() > 0 && !is_ws(s[0]) {
        lemma_word_len_bounds(s.drop_first());
    }
}

proof fn lemma_word_len_is(s: Seq<char>, m: int)
    requires
        0 <= m <= s.len(),
        forall|k: int| 0 <= k < m ==> !is_ws(s[k]),
        m == s.len() || is_ws(s[m]),
    ensures
        word_len(s) == m,
    decreases m,
{
    if m > 0 {
        lemma_word_len_is(s.drop_first(), m - 1);
    }
}

/// Splits `s` into its whitespace-delimited words, any run of blanks, tabs
/// or line breaks acting as one separator.
pub fn split_whitespace_of(s: &str) -> (r: Vec<String>)
    ensures
        r@.map_values(|w: String| w@) == split_ws(s@),
{
    let v = chars_of(s);
    let mut r: Vec<String> = Vec::new();
    let mut i: usize = 0;
    proof {
        assert(s@.skip(0) =~= s@);
        assert(r@.map_values(|w: String| w@) + split_ws(s@) =~= split_ws(s@));
    }
    while i < v.len()
        invariant
            v@ == s@,
            0 <= i <= v@.len(),
            r@.map_values(|w: String| w@) + split_ws(s@.skip(i as int)) == split_ws(s@),
        decreases v@.len() - i,
    {
        if is_ws_exec(v[i]) {
            proof {
                assert(s@.skip(i as int).drop_first() =~= s@.skip(i as int + 1));
            }
            i += 1;
        } else {
            let start = i;
            let mut j = i + 1;
            while j < v.len() && !is_ws_exec(v[j])
                invariant
                    v@ == s@,
                    0 <= start < j <= v@.len(),
                    forall|k: int| start <= k < j ==> !is_ws(s@[k]),
                decreases v@.len() - j,
            {
                j += 1;
            }
            let mut word: Vec<char> = Vec::new();
            let mut k = start;
            while k < j
                invariant
                    v@ == s@,
                    start <= k <= j <= v@.len(),
                    word@ == s@.subrange(start as int, k as int),
                decreases j - k,
            {
                word.push(v[k]);
                proof {
                    assert(word@ =~= s@.subrange(start as int, k as int + 1));
                }
                k += 1;
            }
            let ghost tail = s@.skip(start as int);
            proof {
                lemma_word_len_is(tail, j - start);
                assert(tail.take(j - start) =~= s@.subrange(start as int, j as int));
                assert(tail.skip(j - start) =~= s@.skip(j as int));
                assert(split_ws(tail) == seq![word@] + split_ws(s@.skip(j as int)));
            }
            let ghost old_words = r@.map_values(|w: String| w@);
            r.push(string_from_chars(&word));
            proof {
                assert(r@.map_values(|w: String| w@) =~= old_words + seq![word@]);
                assert(old_words + (seq![word@] + split_ws(s@.skip(j as int))) =~= (old_words
                    + seq![word@]) + split_ws(s@.skip(j as int)));
            }
            i = j;
        }
    }
    proof {
        assert(s@.skip(i as int) =~= Seq::<char>::empty());
        assert(r@.map_values(|w: String| w@) + split_ws(s@.skip(i as int)) =~= r@.map_values(
            |w: String| w@,
        ));
    }
    r
}

} // verus!
