//! Phonetic keys for Russian words: spellings that sound alike reduce to
//! the same key.
use vstd::prelude::*;

pub mod normalize;
pub mod rules;
mod text;

use crate::normalize::{
    cleaned, is_plain_letter, lowercase_of, nfkd_of, normalize, normalize_lowercase,
};
use crate::rules::{
    collapse_runs, elide_prefix, first_rule, has_enough_syllables, lemma_first_rule_from,
    letter_class, reduce_vowels, remove_repeats, replace_letters, replace_sequences, rewrite,
    rule_pattern, rule_replacement, vowels_reduced, RULE_COUNT,
};

verus! {

/// A letter that can stand in a phonetic key: a plain letter that the
/// letter classes leave as it is.
pub open spec fn is_key_letter(c: char) -> bool {
    is_plain_letter(c) && letter_class(c) == c
}

/// The phonetic key of normalized text.
pub open spec fn phonetic_key(s: Seq<char>) -> Seq<char> {
    rewrite(vowels_reduced(collapse_runs(s)).map_values(|c: char| letter_class(c)))
}

/// Collapsing runs keeps a property that every character has.
pub proof fn lemma_collapse_keeps(s: Seq<char>, p: spec_fn(char) -> bool)
    requires
        forall|i: int| 0 <= i < s.len() ==> p(#[trigger] s[i]),
    ensures
        forall|i: int| 0 <= i < collapse_runs(s).len() ==> p(#[trigger] collapse_runs(s)[i]),
    decreases s.len(),
{
    if s.len() > 0 {
        let t = s.skip(1);
        assert forall|i: int| 0 <= i < t.len() implies p(#[trigger] t[i]) by {
            assert(t[i] == s[i + 1]);
        }
        lemma_collapse_keeps(t, p);
        assert(p(s[0]));
        if s.len() >= 2 && s[0] == s[1] {
            assert(collapse_runs(s) == collapse_runs(t));
        } else {
            let r = collapse_runs(s);
            assert forall|i: int| 0 <= i < r.len() implies p(#[trigger] r[i]) by {
                if i > 0 {
                    assert(r[i] == collapse_runs(t)[i - 1]);
                }
            }
        }
    }
}

/// Vowel elision keeps a property that every character has.
pub proof fn lemma_elide_keeps(s: Seq<char>, n: int, p: spec_fn(char) -> bool)
    requires
        0 <= n <= s.len(),
        forall|i: int| 0 <= i < s.len() ==> p(#[trigger] s[i]),
    ensures
        forall|i: int| 0 <= i < elide_prefix(s, n).len() ==> p(#[trigger] elide_prefix(s, n)[i]),
    decreases n,
{
    if n > 0 {
        lemma_elide_keeps(s, n - 1, p);
        let r = elide_prefix(s, n);
        let q = elide_prefix(s, n - 1);
        assert forall|i: int| 0 <= i < r.len() implies p(#[trigger] r[i]) by {
            if i < q.len() {
                assert(r[i] == q[i]);
            }
        }
    }
}

/// Rules whose pattern holds only key letters have a replacement made of
/// key letters.
pub proof fn lemma_rule_keeps_key_letters(k: int)
    requires
        0 <= k < RULE_COUNT,
        forall|j: int| 0 <= j < rule_pattern(k).len() ==> is_key_letter(#[trigger] rule_pattern(k)[j]),
    ensures
        forall|j: int|
            0 <= j < rule_replacement(k).len() ==> is_key_letter(#[trigger] rule_replacement(k)[j]),
{
    if k == 11 {
        assert(!is_key_letter(rule_pattern(k)[0]));
    }
}

/// Rewriting text made of key letters gives text made of key letters.
pub proof fn lemma_rewrite_keeps_key_letters(s: Seq<char>)
    requires
        forall|i: int| 0 <= i < s.len() ==> is_key_letter(#[trigger] s[i]),
    ensures
        forall|i: int| 0 <= i < rewrite(s).len() ==> is_key_letter(#[trigger] rewrite(s)[i]),
    decreases s.len(),
{
    if s.len() > 0 {
        let k = first_rule(s);
        lemma_first_rule_from(s, 0);
        let m: int = if k < RULE_COUNT && 0 < rule_pattern(k).len() <= s.len() {
            rule_pattern(k).len() as int
        } else {
            1
        };
        let head: Seq<char> = if m == 1 && !(k < RULE_COUNT && 0 < rule_pattern(k).len() <= s.len()) {
            seq![s[0]]
        } else {
            rule_replacement(k)
        };
        let t = s.skip(m);
        assert forall|i: int| 0 <= i < t.len() implies is_key_letter(#[trigger] t[i]) by {
            assert(t[i] == s[i + m]);
        }
        lemma_rewrite_keeps_key_letters(t);
        if k < RULE_COUNT && 0 < rule_pattern(k).len() <= s.len() {
            let p = rule_pattern(k);
            assert forall|j: int| 0 <= j < p.len() implies is_key_letter(#[trigger] p[j]) by {
                assert(p[j] == s.take(p.len() as int)[j]);
            }
            lemma_rule_keeps_key_letters(k);
        }
        let r = rewrite(s);
        assert(r == head + rewrite(t));
        assert forall|i: int| 0 <= i < r.len() implies is_key_letter(#[trigger] r[i]) by {
            if i >= head.len() {
                assert(r[i] == rewrite(t)[i - head.len()]);
            } else {
                assert(r[i] == head[i]);
            }
        }
    }
}

/// Every character of the key of normalized text is a key letter.
pub proof fn lemma_key_letters_only(s: Seq<char>)
    requires
        forall|i: int| 0 <= i < s.len() ==> is_plain_letter(#[trigger] s[i]),
    ensures
        forall|i: int|
            0 <= i < phonetic_key(s).len() ==> is_key_letter(#[trigger] phonetic_key(s)[i]),
{
    let p = |c: char| is_plain_letter(c);
    let a = collapse_runs(s);
    lemma_collapse_keeps(s, p);
    let b = vowels_reduced(a);
    if has_enough_syllables(a) {
        lemma_elide_keeps(a, a.len() as int, p);
    }
    let c = b.map_values(|c: char| letter_class(c));
    assert forall|i: int| 0 <= i < c.len() implies is_key_letter(#[trigger] c[i]) by {
        assert(p(b[i]));
    }
    lemma_rewrite_keeps_key_letters(c);
}

/// The phonetic key of text that is already decomposed and lowercased.
pub fn encode_lowercase(s: &str) -> (r: String)
    ensures
        r@ == phonetic_key(cleaned(s@)),
        forall|i: int| 0 <= i < r@.len() ==> is_key_letter(#[trigger] r@[i]),
{
    let s = normalize_lowercase(s);
    key_of_normalized(s.as_str())
}

fn key_of_normalized(s: &str) -> (r: String)
    requires
        forall|i: int| 0 <= i < s@.len() ==> is_plain_letter(#[trigger] s@[i]),
    ensures
        r@ == phonetic_key(s@),
        forall|i: int| 0 <= i < r@.len() ==> is_key_letter(#[trigger] r@[i]),
{
    let s1 = remove_repeats(s);
    let s2 = reduce_vowels(s1.as_str());
    let s3 = replace_letters(s2.as_str());
    let r = replace_sequences(s3.as_str());
    proof {
        lemma_key_letters_only(s@);
        assert forall|i: int| 0 <= i < r@.len() implies is_key_letter(#[trigger] r@[i]) by {
            assert(r@[i] == phonetic_key(s@)[i]);
        }
    }
    r
}

/// The phonetic key of `s`: normalization followed by the four rules.
/// The key holds only key letters.
pub fn encode(s: &str) -> (r: String)
    ensures
        r@ == phonetic_key(cleaned(lowercase_of(nfkd_of(s@)))),
        forall|i: int| 0 <= i < r@.len() ==> is_key_letter(#[trigger] r@[i]),
{
    let s = normalize(s);
    key_of_normalized(s.as_str())
}

} // verus!
