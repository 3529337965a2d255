//! Turning raw text into a clean stream of lowercase Cyrillic letters.
use vstd::prelude::*;

use crate::text::{chars_of, string_of};
use unicode_normalization::UnicodeNormalization;

verus! {

/// The Cyrillic letter that the Latin character `c` looks like; any other
/// character maps to itself.
pub open spec fn cyrillic_lookalike(c: char) -> char {
    if c == 'a' {
        'а'
    } else if c == 'e' {
        'е'
    } else if c == 'o' {
        'о'
    } else if c == 'c' {
        'с'
    } else if c == 'x' {
        'х'
    } else if c == 'B' {
        'В'
    } else if c == 'M' {
        'М'
    } else if c == 'H' {
        'Н'
    } else if c == 'b' {
        'в'
    } else if c == 'm' {
        'м'
    } else if c == 'h' {
        'н'
    } else {
        c
    }
}

/// `c` is a Latin character that looks like a Cyrillic letter.
pub open spec fn is_lookalike(c: char) -> bool {
    cyrillic_lookalike(c) != c
}

fn lookalike_of(c: char) -> (r: char)
    ensures
        r == cyrillic_lookalike(c),
{
    match c {
        'a' => 'а',
        'e' => 'е',
        'o' => 'о',
        'c' => 'с',
        'x' => 'х',
        'B' => 'В',
        'M' => 'М',
        'H' => 'Н',
        'b' => 'в',
        'm' => 'м',
        'h' => 'н',
        _ => c,
    }
}

/// Replaces each Latin look-alike by its Cyrillic letter.
pub fn replace_latin(s: &str) -> (r: String)
    ensures
        r@ == s@.map_values(|c: char| cyrillic_lookalike(c)),
{
    let chars = chars_of(s);
    let n = chars.len();
    let mut out: Vec<char> = Vec::new();
    let mut i: usize = 0;
    while i < n
        invariant
            chars@ == s@,
            n == chars.len(),
            i <= n,
            out@ == s@.take(i as int).map_values(|c: char| cyrillic_lookalike(c)),
        decreases n - i,
    {
        out.push(lookalike_of(chars[i]));
        i += 1;
        assert(out@ =~= s@.take(i as int).map_values(|c: char| cyrillic_lookalike(c)));
    }
    assert(s@.take(n as int) =~= s@);
    string_of(&out)
}

/// A letter that survives noise removal: `а` to `я` or `ё`, but not the
/// soft or the hard sign.
pub open spec fn is_plain_letter(c: char) -> bool {
    (('а' <= c && c <= 'я') || c == 'ё') && c != 'ь' && c != 'ъ'
}

/// The plain letters of `s`, in order.
pub open spec fn plain_letters(s: Seq<char>) -> Seq<char>
    decreases s.len(),
{
    if s.len() == 0 {
        Seq::empty()
    } else if is_plain_letter(s.last()) {
        plain_letters(s.drop_last()).push(s.last())
    } else {
        plain_letters(s.drop_last())
    }
}

/// Keeps the plain letters of `s` and drops everything else.
pub fn remove_noise_lowercase(s: &str) -> (r: String)
    ensures
        r@ == plain_letters(s@),
        forall|i: int| 0 <= i < r@.len() ==> is_plain_letter(#[trigger] r@[i]),
{
    let chars = chars_of(s);
    let n = chars.len();
    let mut out: Vec<char> = Vec::new();
    let mut i: usize = 0;
    while i < n
        invariant
            chars@ == s@,
            n == chars.len(),
            i <= n,
            out@ == plain_letters(s@.take(i as int)),
        decreases n - i,
    {
        let c = chars[i];
        assert(s@.take(i + 1).drop_last() =~= s@.take(i as int));
        if (('а' <= c && c <= 'я') || c == 'ё') && c != 'ь' && c != 'ъ' {
            out.push(c);
        }
        i += 1;
    }
    assert(s@.take(n as int) =~= s@);
    proof {
        lemma_plain_letters_are_plain(s@);
    }
    string_of(&out)
}

/// What noise removal keeps holds only plain letters.
pub proof fn lemma_plain_letters_are_plain(s: Seq<char>)
    ensures
        forall|i: int|
            0 <= i < plain_letters(s).len() ==> is_plain_letter(#[trigger] plain_letters(s)[i]),
    decreases s.len(),
{
    if s.len() > 0 {
        let q = plain_letters(s.drop_last());
        lemma_plain_letters_are_plain(s.drop_last());
        assert forall|i: int|
            0 <= i < plain_letters(s).len() implies is_plain_letter(
                #[trigger] plain_letters(s)[i],
            ) by {
            if i < q.len() {
                assert(plain_letters(s)[i] == q[i]);
            }
        }
    }
}

/// `s` with each `е` followed by a combining diaeresis made `ё`, and each
/// `и` followed by a combining breve made `й`, left to right.
pub open spec fn diacritics_repaired(s: Seq<char>) -> Seq<char>
    decreases s.len(),
{
    if s.len() == 0 {
        Seq::empty()
    } else if s.len() >= 2 && s[0] == 'е' && s[1] == '\u{308}' {
        seq!['ё'] + diacritics_repaired(s.skip(2))
    } else if s.len() >= 2 && s[0] == 'и' && s[1] == '\u{306}' {
        seq!['й'] + diacritics_repaired(s.skip(2))
    } else {
        seq![s[0]] + diacritics_repaired(s.skip(1))
    }
}

/// Joins `е` and `и` with the combining mark that follows them into `ё`
/// and `й`.
pub fn repair_cyrillic_diacritic_lowercase(s: &str) -> (r: String)
    ensures
        r@ == diacritics_repaired(s@),
{
    let chars = chars_of(s);
    let n = chars.len();
    let mut out: Vec<char> = Vec::new();
    let mut i: usize = 0;
    assert(s@.skip(0) =~= s@);
    assert(out@ + s@ =~= s@);
    while i < n
        invariant
            chars@ == s@,
            n == chars.len(),
            i <= n,
            diacritics_repaired(s@) == out@ + diacritics_repaired(s@.skip(i as int)),
        decreases n - i,
    {
        let ghost rest = s@.skip(i as int);
        let cur = chars[i];
        if i + 1 < n {
            let next = chars[i + 1];
            assert(rest[1] == next);
            if (cur == 'е' && next == '\u{308}') || (cur == 'и' && next == '\u{306}') {
                assert(rest.skip(2) =~= s@.skip(i + 2));
                out.push(if cur == 'е' { 'ё' } else { 'й' });
                i += 2;
                continue;
            }
        }
        assert(rest.skip(1) =~= s@.skip(i + 1));
        out.push(cur);
        i += 1;
    }
    assert(s@.skip(n as int) =~= Seq::<char>::empty());
    assert(out@ + Seq::<char>::empty() =~= out@);
    string_of(&out)
}

/// What remains of decomposed, lowercased text: look-alikes made Cyrillic,
/// diacritics joined, and all but plain letters dropped.
pub open spec fn cleaned(s: Seq<char>) -> Seq<char> {
    plain_letters(diacritics_repaired(s.map_values(|c: char| cyrillic_lookalike(c))))
}

/// Normalizes text that is already decomposed and lowercased.
pub fn normalize_lowercase(s: &str) -> (r: String)
    ensures
        forall|i: int| 0 <= i < r@.len() ==> is_plain_letter(#[trigger] r@[i]),
        r@ == cleaned(s@),
{
    let s = replace_latin(s);
    let s = repair_cyrillic_diacritic_lowercase(s.as_str());
    remove_noise_lowercase(s.as_str())
}

/// `c` lies in the Cyrillic block of Unicode.
pub open spec fn is_cyrillic(c: char) -> bool {
    '\u{400}' <= c && c <= '\u{4ff}'
}

/// Text without `е` and `и` has no diacritic to repair.
pub proof fn lemma_repair_without_bases(s: Seq<char>)
    requires
        forall|i: int| 0 <= i < s.len() ==> #[trigger] s[i] != 'е' && s[i] != 'и',
    ensures
        diacritics_repaired(s) == s,
    decreases s.len(),
{
    if s.len() > 0 {
        let t = s.skip(1);
        assert forall|i: int| 0 <= i < t.len() implies #[trigger] t[i] != 'е' && t[i] != 'и' by {
            assert(t[i] == s[i + 1]);
        }
        lemma_repair_without_bases(t);
        assert(s[0] != 'е' && s[0] != 'и');
        assert(seq![s[0]] + t =~= s);
    }
}

/// Text without plain letters is all noise.
pub proof fn lemma_no_plain_letters(s: Seq<char>)
    requires
        forall|i: int| 0 <= i < s.len() ==> !is_plain_letter(#[trigger] s[i]),
    ensures
        plain_letters(s) == Seq::<char>::empty(),
    decreases s.len(),
{
    if s.len() > 0 {
        lemma_no_plain_letters(s.drop_last());
    }
}

/// Text with no Cyrillic character and no Latin look-alike cleans to the
/// empty string.
pub proof fn lemma_non_cyrillic_cleans_to_empty(s: Seq<char>)
    requires
        forall|i: int| 0 <= i < s.len() ==> !is_cyrillic(#[trigger] s[i]) && !is_lookalike(s[i]),
    ensures
        cleaned(s) == Seq::<char>::empty(),
{
    let m = s.map_values(|c: char| cyrillic_lookalike(c));
    assert(m =~= s);
    lemma_repair_without_bases(s);
    lemma_no_plain_letters(s);
}

/// The Unicode compatibility decomposition (NFKD) of `s`.
pub uninterp spec fn nfkd_of(s: Seq<char>) -> Seq<char>;

/// The lowercase mapping of `s`, as Unicode defines it.
pub uninterp spec fn lowercase_of(s: Seq<char>) -> Seq<char>;

/// Relies on `unicode_normalization::UnicodeNormalization::nfkd` for `&str`:
/// the NFKD form of `s`, which depends on the characters of `s` alone.
#[verifier::external_body]
fn decompose(s: &str) -> (r: String)
    ensures
        r@ == nfkd_of(s@),
{
    s.nfkd().collect::<String>()
}

/// Relies on `str::to_lowercase`: the lowercase mapping of `s`, which
/// depends on the characters of `s` alone.
#[verifier::external_body]
fn lowercase(s: &str) -> (r: String)
    ensures
        r@ == lowercase_of(s@),
{
    s.to_lowercase()
}

/// Decomposes, lowercases and cleans `s` into plain lowercase Cyrillic
/// letters.
pub fn normalize(s: &str) -> (r: String)
    ensures
        forall|i: int| 0 <= i < r@.len() ==> is_plain_letter(#[trigger] r@[i]),
        r@ == cleaned(lowercase_of(nfkd_of(s@))),
{
    let s = decompose(s);
    let s = lowercase(s.as_str());
    normalize_lowercase(s.as_str())
}

} // verus!
