//! The four phonetic rules applied after normalization.
use vstd::prelude::*;

use crate::text::{chars_of, string_of};

verus! {

/// `s` with every run of equal neighbouring characters cut down to one.
pub open spec fn collapse_runs(s: Seq<char>) -> Seq<char>
    decreases s.len(),
{
    if s.len() == 0 {
        Seq::empty()
    } else if s.len() >= 2 && s[0] == s[1] {
        collapse_runs(s.skip(1))
    } else {
        seq![s[0]] + collapse_runs(s.skip(1))
    }
}

/// Removes consecutive duplicate characters.
pub fn remove_repeats(s: &str) -> (r: String)
    ensures
        r@ == collapse_runs(s@),
{
    let chars = chars_of(s);
    let n = chars.len();
    let mut out: Vec<char> = Vec::new();
    let mut i: usize = 0;
    assert(s@.skip(0) =~= s@);
    assert(out@ + s@ =~= s@);
    while i < n
        invariant
            chars@ == s@,
            n == chars.len(),
            i <= n,
            collapse_runs(s@) == out@ + collapse_runs(s@.skip(i as int)),
        decreases n - i,
    {
        let cur = chars[i];
        let ghost rest = s@.skip(i as int);
        assert(rest.skip(1) =~= s@.skip(i + 1));
        if i + 1 < n && cur == chars[i + 1] {
            assert(rest[1] == chars@[i + 1]);
        } else {
            out.push(cur);
        }
        i += 1;
    }
    assert(s@.skip(n as int) =~= Seq::<char>::empty());
    assert(out@ + Seq::<char>::empty() =~= out@);
    string_of(&out)
}

/// The vowel letters.
pub open spec fn is_vowel(c: char) -> bool {
    c == 'и' || c == 'а' || c == 'о' || c == 'у' || c == 'ы' || c == 'э' || c == 'я' || c == 'ё'
        || c == 'е' || c == 'ю'
}

/// How many vowels `s` holds.
pub open spec fn vowel_count(s: Seq<char>) -> nat
    decreases s.len(),
{
    if s.len() == 0 {
        0
    } else {
        vowel_count(s.drop_last()) + if is_vowel(s.last()) {
            1nat
        } else {
            0nat
        }
    }
}

/// A word is long enough for vowel elision when it has at least three
/// vowels, or at least one vowel and at least four other characters.
pub open spec fn has_enough_syllables(s: Seq<char>) -> bool {
    let v = vowel_count(s);
    v >= 3 || (v >= 1 && s.len() - v >= 4)
}

/// Some character of `s` is a vowel.
pub open spec fn has_vowel(s: Seq<char>) -> bool {
    exists|j: int| 0 <= j < s.len() && is_vowel(#[trigger] s[j])
}

/// The character at `i` survives elision: it is no vowel, or it is the first
/// or the last vowel of `s`.
pub open spec fn survives_elision(s: Seq<char>, i: int) -> bool {
    !is_vowel(s[i]) || !has_vowel(s.take(i)) || !has_vowel(s.skip(i + 1))
}

/// The surviving characters among the first `n` of `s`, in order.
pub open spec fn elide_prefix(s: Seq<char>, n: int) -> Seq<char>
    decreases n,
{
    if n <= 0 {
        Seq::empty()
    } else {
        elide_prefix(s, n - 1) + if survives_elision(s, n - 1) {
            seq![s[n - 1]]
        } else {
            Seq::empty()
        }
    }
}

/// `s` without its interior vowels, when it is long enough; else `s`.
pub open spec fn vowels_reduced(s: Seq<char>) -> Seq<char> {
    if has_enough_syllables(s) {
        elide_prefix(s, s.len() as int)
    } else {
        s
    }
}

fn is_vowel_char(c: char) -> (r: bool)
    ensures
        r == is_vowel(c),
{
    c == 'и' || c == 'а' || c == 'о' || c == 'у' || c == 'ы' || c == 'э' || c == 'я' || c == 'ё'
        || c == 'е' || c == 'ю'
}

/// Drops every vowel but the first and the last from a word that has
/// enough syllables; shorter words come back unchanged.
pub fn reduce_vowels(s: &str) -> (r: String)
    ensures
        r@ == vowels_reduced(s@),
{
    let chars = chars_of(s);
    let n = chars.len();
    let mut vowels: usize = 0;
    let mut i: usize = 0;
    while i < n
        invariant
            chars@ == s@,
            n == chars.len(),
            i <= n,
            vowels <= i,
            vowels == vowel_count(s@.take(i as int)),
        decreases n - i,
    {
        assert(s@.take(i + 1).drop_last() =~= s@.take(i as int));
        if is_vowel_char(chars[i]) {
            vowels += 1;
        }
        i += 1;
    }
    assert(s@.take(n as int) =~= s@);
    if !(vowels >= 3 || (vowels >= 1 && n - vowels >= 4)) {
        return string_of(&chars);
    }
    let mut first: usize = 0;
    while first < n && !is_vowel_char(chars[first])
        invariant
            chars@ == s@,
            n == chars.len(),
            first <= n,
            forall|j: int| 0 <= j < first ==> !is_vowel(#[trigger] s@[j]),
        decreases n - first,
    {
        first += 1;
    }
    let mut end: usize = n;
    while end > 0 && !is_vowel_char(chars[end - 1])
        invariant
            chars@ == s@,
            n == chars.len(),
            end <= n,
            forall|j: int| end <= j < n ==> !is_vowel(#[trigger] s@[j]),
        decreases end,
    {
        end -= 1;
    }
    let mut out: Vec<char> = Vec::new();
    let mut k: usize = 0;
    while k < n
        invariant
            chars@ == s@,
            n == chars.len(),
            k <= n,
            first <= n,
            first < n ==> is_vowel(s@[first as int]),
            forall|j: int| 0 <= j < first ==> !is_vowel(#[trigger] s@[j]),
            end <= n,
            end > 0 ==> is_vowel(s@[end - 1]),
            forall|j: int| end <= j < n ==> !is_vowel(#[trigger] s@[j]),
            out@ == elide_prefix(s@, k as int),
        decreases n - k,
    {
        let c = chars[k];
        let v = is_vowel_char(c);
        let keep = !v || k == first || k + 1 == end;
        proof {
            let before = s@.take(k as int);
            let after = s@.skip(k + 1);
            if v {
                if k == first {
                    assert(!has_vowel(before));
                } else {
                    assert(before[first as int] == s@[first as int]);
                    assert(has_vowel(before));
                }
                if k + 1 == end {
                    assert(!has_vowel(after)) by {
                        assert forall|j: int| 0 <= j < after.len() implies !is_vowel(
                            #[trigger] after[j],
                        ) by {
                            assert(after[j] == s@[k + 1 + j]);
                        }
                    }
                } else {
                    assert(after[end - 1 - (k + 1)] == s@[end - 1]);
                    assert(has_vowel(after));
                }
            }
            assert(keep == survives_elision(s@, k as int));
        }
        if keep {
            out.push(c);
        }
        k += 1;
    }
    string_of(&out)
}

/// The representative of the phonetic class of `c`: vowels other than
/// `у` become `а`, `ю` becomes `у`, voiced consonants their voiceless pair,
/// `щ` and `ж` become `ш`, `м` becomes `н`. Other characters stay.
pub open spec fn letter_class(c: char) -> char {
    if c == 'е' || c == 'ё' || c == 'и' || c == 'о' || c == 'ы' || c == 'э' || c == 'я' {
        'а'
    } else if c == 'б' {
        'п'
    } else if c == 'в' {
        'ф'
    } else if c == 'г' {
        'к'
    } else if c == 'д' {
        'т'
    } else if c == 'з' {
        'с'
    } else if c == 'щ' || c == 'ж' {
        'ш'
    } else if c == 'м' {
        'н'
    } else if c == 'ю' {
        'у'
    } else {
        c
    }
}

fn class_of(c: char) -> (r: char)
    ensures
        r == letter_class(c),
{
    match c {
        'е' | 'ё' | 'и' | 'о' | 'ы' | 'э' | 'я' => 'а',
        'б' => 'п',
        'в' => 'ф',
        'г' => 'к',
        'д' => 'т',
        'з' => 'с',
        'щ' | 'ж' => 'ш',
        'м' => 'н',
        'ю' => 'у',
        _ => c,
    }
}

/// Replaces each character by the representative of its phonetic class.
pub fn replace_letters(s: &str) -> (r: String)
    ensures
        r@ == s@.map_values(|c: char| letter_class(c)),
{
    let chars = chars_of(s);
    let n = chars.len();
    let mut out: Vec<char> = Vec::new();
    let mut i: usize = 0;
    while i < n
        invariant
            chars@ == s@,
            n == chars.len(),
            i <= n,
            out@ == s@.take(i as int).map_values(|c: char| letter_class(c)),
        decreases n - i,
    {
        out.push(class_of(chars[i]));
        i += 1;
        assert(out@ =~= s@.take(i as int).map_values(|c: char| letter_class(c)));
    }
    assert(s@.take(n as int) =~= s@);
    string_of(&out)
}

/// Number of rewriting rules.
pub const RULE_COUNT: usize = 32;

/// The pattern of rule `k`. Rules are listed by descending pattern length.
pub open spec fn rule_pattern(k: int) -> Seq<char> {
    if k == 0 {
        seq!['л', 'ф', 'с', 'т', 'ф']
    } else if k == 1 {
        seq!['н', 'т', 'с', 'к']
    } else if k == 2 {
        seq!['ф', 'с', 'т', 'ф']
    } else if k == 3 {
        seq!['а', 'к', 'а']
    } else if k == 4 {
        seq!['л', 'н', 'ц']
    } else if k == 5 {
        seq!['н', 'а', 'т']
    } else if k == 6 {
        seq!['н', 'т', 'ц']
    } else if k == 7 {
        seq!['н', 'т', 'а']
    } else if k == 8 {
        seq!['н', 'т', 'к']
    } else if k == 9 {
        seq!['н', 'т', 'с']
    } else if k == 10 {
        seq!['н', 'т', 'ш']
    } else if k == 11 {
        seq!['о', 'к', 'о']
    } else if k == 12 {
        seq!['п', 'а', 'л']
    } else if k == 13 {
        seq!['р', 'т', 'ч']
    } else if k == 14 {
        seq!['р', 'т', 'ц']
    } else if k == 15 {
        seq!['т', 'с', 'я']
    } else if k == 16 {
        seq!['с', 'т', 'л']
    } else if k == 17 {
        seq!['с', 'т', 'н']
    } else if k == 18 {
        seq!['т', 'а', 'т']
    } else if k == 19 {
        seq!['т', 'с', 'а']
    } else if k == 20 {
        seq!['т', 'а', 'ф']
    } else if k == 21 {
        seq!['ф', 'а', 'к']
    } else if k == 22 {
        seq!['а', 'н']
    } else if k == 23 {
        seq!['з', 'ч']
    } else if k == 24 {
        seq!['н', 'т']
    } else if k == 25 {
        seq!['с', 'п']
    } else if k == 26 {
        seq!['с', 'ч']
    } else if k == 27 {
        seq!['с', 'ш']
    } else if k == 28 {
        seq!['т', 'с']
    } else if k == 29 {
        seq!['т', 'ц']
    } else if k == 30 {
        seq!['т', 'ч']
    } else if k == 31 {
        seq!['ш', 'ч']
    } else {
        Seq::empty()
    }
}

/// What the pattern of rule `k` is rewritten to.
pub open spec fn rule_replacement(k: int) -> Seq<char> {
    if k == 0 {
        seq!['л', 'с', 'т', 'ф']
    } else if k == 1 {
        seq!['н', 'с', 'к']
    } else if k == 2 {
        seq!['с', 'т', 'ф']
    } else if k == 3 {
        seq!['а', 'ф', 'а']
    } else if k == 4 {
        seq!['н', 'ц']
    } else if k == 5 {
        seq!['н']
    } else if k == 6 {
        seq!['н', 'ц']
    } else if k == 7 {
        seq!['н', 'а']
    } else if k == 8 {
        seq!['н', 'к']
    } else if k == 9 {
        seq!['н', 'с']
    } else if k == 10 {
        seq!['н', 'ш']
    } else if k == 11 {
        seq!['о', 'ф', 'о']
    } else if k == 12 {
        seq!['п', 'л']
    } else if k == 13 {
        seq!['р', 'ч']
    } else if k == 14 {
        seq!['р', 'ц']
    } else if k == 15 {
        seq!['ц']
    } else if k == 16 {
        seq!['с', 'л']
    } else if k == 17 {
        seq!['с', 'н']
    } else if k == 18 {
        seq!['т']
    } else if k == 19 {
        seq!['ц']
    } else if k == 20 {
        seq!['т', 'ф']
    } else if k == 21 {
        seq!['ф', 'к']
    } else if k == 22 {
        seq!['н']
    } else if k == 23 {
        seq!['ш']
    } else if k == 24 {
        seq!['н']
    } else if k == 25 {
        seq!['с', 'ф']
    } else if k == 26 {
        seq!['ш']
    } else if k == 27 {
        seq!['ш']
    } else if k == 28 {
        seq!['т', 'ц']
    } else if k == 29 {
        seq!['ц']
    } else if k == 30 {
        seq!['ч']
    } else if k == 31 {
        seq!['ч']
    } else {
        Seq::empty()
    }
}

/// `p` is a prefix of `s`.
pub open spec fn starts_with(s: Seq<char>, p: Seq<char>) -> bool {
    p.len() <= s.len() && s.take(p.len() as int) == p
}

/// The first rule, from `k` on, whose pattern starts `s`; `RULE_COUNT` if none.
pub open spec fn first_rule_from(s: Seq<char>, k: int) -> int
    decreases RULE_COUNT - k,
{
    if k < 0 || k >= RULE_COUNT {
        RULE_COUNT as int
    } else if starts_with(s, rule_pattern(k)) {
        k
    } else {
        first_rule_from(s, k + 1)
    }
}

/// The rule that applies at the start of `s`: the first in table order,
/// hence one of the longest, whose pattern starts `s`.
pub open spec fn first_rule(s: Seq<char>) -> int {
    first_rule_from(s, 0)
}

/// Greedy longest-match rewriting of `s`, left to right.
pub open spec fn rewrite(s: Seq<char>) -> Seq<char>
    decreases s.len(),
{
    if s.len() == 0 {
        Seq::empty()
    } else {
        let k = first_rule(s);
        if k < RULE_COUNT && 0 < rule_pattern(k).len() <= s.len() {
            rule_replacement(k) + rewrite(s.skip(rule_pattern(k).len() as int))
        } else {
            seq![s[0]] + rewrite(s.skip(1))
        }
    }
}

/// Rule `k` as pattern and replacement.
fn rule(k: usize) -> (r: (&'static str, &'static str))
    requires
        k < RULE_COUNT,
    ensures
        r.0@ == rule_pattern(k as int),
        r.1@ == rule_replacement(k as int),
{
    let r = match k {
        0 => {
            proof {
                reveal_strlit("лфстф");
                reveal_strlit("лстф");
            }
            ("лфстф", "лстф")
        },
        1 => {
            proof {
                reveal_strlit("нтск");
                reveal_strlit("нск");
            }
            ("нтск", "нск")
        },
        2 => {
            proof {
                reveal_strlit("фстф");
                reveal_strlit("стф");
            }
            ("фстф", "стф")
        },
        3 => {
            proof {
                reveal_strlit("ака");
                reveal_strlit("афа");
            }
            ("ака", "афа")
        },
        4 => {
            proof {
                reveal_strlit("лнц");
                reveal_strlit("нц");
            }
            ("лнц", "нц")
        },
        5 => {
            proof {
                reveal_strlit("нат");
                reveal_strlit("н");
            }
            ("нат", "н")
        },
        6 => {
            proof {
                reveal_strlit("нтц");
                reveal_strlit("нц");
            }
            ("нтц", "нц")
        },
        7 => {
            proof {
                reveal_strlit("нта");
                reveal_strlit("на");
            }
            ("нта", "на")
        },
        8 => {
            proof {
                reveal_strlit("нтк");
                reveal_strlit("нк");
            }
            ("нтк", "нк")
        },
        9 => {
            proof {
                reveal_strlit("нтс");
                reveal_strlit("нс");
            }
            ("нтс", "нс")
        },
        10 => {
            proof {
                reveal_strlit("нтш");
                reveal_strlit("нш");
            }
            ("нтш", "нш")
        },
        11 => {
            proof {
                reveal_strlit("око");
                reveal_strlit("офо");
            }
            ("око", "офо")
        },
        12 => {
            proof {
                reveal_strlit("пал");
                reveal_strlit("пл");
            }
            ("пал", "пл")
        },
        13 => {
            proof {
                reveal_strlit("ртч");
                reveal_strlit("рч");
            }
            ("ртч", "рч")
        },
        14 => {
            proof {
                reveal_strlit("ртц");
                reveal_strlit("рц");
            }
            ("ртц", "рц")
        },
        15 => {
            proof {
                reveal_strlit("тся");
                reveal_strlit("ц");
            }
            ("тся", "ц")
        },
        16 => {
            proof {
                reveal_strlit("стл");
                reveal_strlit("сл");
            }
            ("стл", "сл")
        },
        17 => {
            proof {
                reveal_strlit("стн");
                reveal_strlit("сн");
            }
            ("стн", "сн")
        },
        18 => {
            proof {
                reveal_strlit("тат");
                reveal_strlit("т");
            }
            ("тат", "т")
        },
        19 => {
            proof {
                reveal_strlit("тса");
                reveal_strlit("ц");
            }
            ("тса", "ц")
        },
        20 => {
            proof {
                reveal_strlit("таф");
                reveal_strlit("тф");
            }
            ("таф", "тф")
        },
        21 => {
            proof {
                reveal_strlit("фак");
                reveal_strlit("фк");
            }
            ("фак", "фк")
        },
        22 => {
            proof {
                reveal_strlit("ан");
                reveal_strlit("н");
            }
            ("ан", "н")
        },
        23 => {
            proof {
                reveal_strlit("зч");
                reveal_strlit("ш");
            }
            ("зч", "ш")
        },
        24 => {
            proof {
                reveal_strlit("нт");
                reveal_strlit("н");
            }
            ("нт", "н")
        },
        25 => {
            proof {
                reveal_strlit("сп");
                reveal_strlit("сф");
            }
            ("сп", "сф")
        },
        26 => {
            proof {
                reveal_strlit("сч");
                reveal_strlit("ш");
            }
            ("сч", "ш")
        },
        27 => {
            proof {
                reveal_strlit("сш");
                reveal_strlit("ш");
            }
            ("сш", "ш")
        },
        28 => {
            proof {
                reveal_strlit("тс");
                reveal_strlit("тц");
            }
            ("тс", "тц")
        },
        29 => {
            proof {
                reveal_strlit("тц");
                reveal_strlit("ц");
            }
            ("тц", "ц")
        },
        30 => {
            proof {
                reveal_strlit("тч");
                reveal_strlit("ч");
            }
            ("тч", "ч")
        },
        31 => {
            proof {
                reveal_strlit("шч");
                reveal_strlit("ч");
            }
            ("шч", "ч")
        },
        _ => ("", ""),
    };
    assert(r.0@ =~= rule_pattern(k as int));
    assert(r.1@ =~= rule_replacement(k as int));
    r
}

/// The rule found from `k` on matches, and none between `k` and it does.
pub proof fn lemma_first_rule_from(s: Seq<char>, k: int)
    requires
        0 <= k <= RULE_COUNT,
    ensures
        k <= first_rule_from(s, k) <= RULE_COUNT,
        first_rule_from(s, k) < RULE_COUNT ==> starts_with(s, rule_pattern(first_rule_from(s, k))),
        forall|j: int|
            k <= j < first_rule_from(s, k) ==> !starts_with(s, #[trigger] rule_pattern(j)),
    decreases RULE_COUNT - k,
{
    if k < RULE_COUNT && !starts_with(s, rule_pattern(k)) {
        lemma_first_rule_from(s, k + 1);
    }
}

/// Every rule has a non-empty pattern.
pub proof fn lemma_patterns_nonempty(k: int)
    requires
        0 <= k < RULE_COUNT,
    ensures
        rule_pattern(k).len() > 0,
{
}

/// Pattern lengths along the table: one of five, two of four, nineteen of
/// three, ten of two.
pub proof fn lemma_pattern_len(k: int)
    requires
        0 <= k < RULE_COUNT,
    ensures
        rule_pattern(k).len() == if k == 0 {
            5int
        } else if k < 3 {
            4int
        } else if k < 22 {
            3int
        } else {
            2int
        },
{
}

/// No two rules share a pattern.
pub proof fn lemma_patterns_distinct(a: int, b: int)
    requires
        0 <= a < b < RULE_COUNT,
    ensures
        rule_pattern(a) != rule_pattern(b),
{
    lemma_pattern_len(a);
    lemma_pattern_len(b);
    if rule_pattern(a).len() == rule_pattern(b).len() {
        assert(rule_pattern(a)[0] != rule_pattern(b)[0] || rule_pattern(a)[1] != rule_pattern(b)[1]
            || rule_pattern(a)[2] != rule_pattern(b)[2]);
    }
}

/// Longest match wins: where the pattern of rule `k` starts `s` and no
/// longer pattern does, rule `k` is the rule applied at the start of `s`.
pub proof fn lemma_longest_match_applies(s: Seq<char>, k: int)
    requires
        0 <= k < RULE_COUNT,
        starts_with(s, rule_pattern(k)),
        forall|j: int|
            0 <= j < RULE_COUNT && rule_pattern(j).len() > rule_pattern(k).len() ==> !starts_with(
                s,
                #[trigger] rule_pattern(j),
            ),
    ensures
        rewrite(s) == rule_replacement(k) + rewrite(s.skip(rule_pattern(k).len() as int)),
{
    let f = first_rule(s);
    lemma_first_rule_from(s, 0);
    lemma_pattern_len(k);
    assert(f <= k);
    lemma_pattern_len(f);
    assert(rule_pattern(f) == s.take(rule_pattern(f).len() as int));
    if f < k {
        lemma_patterns_distinct(f, k);
    }
}

/// Where a pattern of length four and one of length two both start `s`,
/// the rule of length four is applied.
pub proof fn lemma_four_before_two(s: Seq<char>, long: int, short: int)
    requires
        0 <= long < RULE_COUNT,
        0 <= short < RULE_COUNT,
        rule_pattern(long).len() == 4,
        rule_pattern(short).len() == 2,
        starts_with(s, rule_pattern(long)),
        starts_with(s, rule_pattern(short)),
    ensures
        rewrite(s) == rule_replacement(long) + rewrite(s.skip(4)),
{
    lemma_pattern_len(long);
    assert forall|j: int|
        0 <= j < RULE_COUNT && rule_pattern(j).len() > rule_pattern(long).len() implies !starts_with(
            s,
            #[trigger] rule_pattern(j),
        ) by {
        lemma_pattern_len(j);
        if starts_with(s, rule_pattern(j)) {
            assert(s.take(5)[0] == s.take(4)[0]);
        }
    }
    lemma_longest_match_applies(s, long);
}

/// Whether `pat` occurs in `input` at position `i`.
fn occurs_at(input: &Vec<char>, i: usize, pat: &str) -> (r: bool)
    requires
        i <= input.len(),
    ensures
        r == starts_with(input@.skip(i as int), pat@),
{
    let m = pat.unicode_len();
    if m > input.len() - i {
        return false;
    }
    let ghost rest = input@.skip(i as int);
    let mut j: usize = 0;
    while j < m
        invariant
            i + m <= input.len(),
            m == pat@.len(),
            j <= m,
            rest == input@.skip(i as int),
            forall|t: int| 0 <= t < j ==> rest[t] == pat@[t],
        decreases m - j,
    {
        if input[i + j] != pat.get_char(j) {
            assert(rest.take(m as int)[j as int] != pat@[j as int]);
            return false;
        }
        j += 1;
    }
    assert(rest.take(m as int) =~= pat@);
    true
}

/// The index of the rule that applies at position `i` of `input`.
fn rule_at(input: &Vec<char>, i: usize) -> (r: usize)
    requires
        i <= input.len(),
    ensures
        r as int == first_rule(input@.skip(i as int)),
{
    let ghost rest = input@.skip(i as int);
    let mut k: usize = 0;
    while k < RULE_COUNT
        invariant
            i <= input.len(),
            k <= RULE_COUNT,
            rest == input@.skip(i as int),
            first_rule(rest) == first_rule_from(rest, k as int),
        decreases RULE_COUNT - k,
    {
        let (pat, _) = rule(k);
        if occurs_at(input, i, pat) {
            return k;
        }
        k += 1;
    }
    RULE_COUNT
}

/// Appends the characters of `s` to `out`.
fn push_chars(out: &mut Vec<char>, s: &str)
    ensures
        final(out)@ == old(out)@ + s@,
{
    let m = s.unicode_len();
    let mut j: usize = 0;
    while j < m
        invariant
            m == s@.len(),
            j <= m,
            out@ == old(out)@ + s@.take(j as int),
        decreases m - j,
    {
        out.push(s.get_char(j));
        j += 1;
        assert(out@ =~= old(out)@ + s@.take(j as int));
    }
    assert(s@.take(m as int) =~= s@);
}

/// Rewrites `s` left to right: at each position the longest rule pattern
/// that occurs there is replaced, and scanning goes on after it; where no
/// pattern occurs, the character is kept.
pub fn replace_sequences(s: &str) -> (r: String)
    ensures
        r@ == rewrite(s@),
{
    let chars = chars_of(s);
    let n = chars.len();
    let mut out: Vec<char> = Vec::new();
    let mut i: usize = 0;
    assert(s@.skip(0) =~= s@);
    assert(out@ + s@ =~= s@);
    while i < n
        invariant
            chars@ == s@,
            n == chars.len(),
            i <= n,
            rewrite(s@) == out@ + rewrite(s@.skip(i as int)),
        decreases n - i,
    {
        let ghost rest = s@.skip(i as int);
        let k = rule_at(&chars, i);
        proof {
            lemma_first_rule_from(rest, 0);
        }
        if k < RULE_COUNT {
            let (pat, rep) = rule(k);
            proof {
                lemma_patterns_nonempty(k as int);
            }
            let m = pat.unicode_len();
            assert(rest.skip(m as int) =~= s@.skip(i + m));
            push_chars(&mut out, rep);
            i += m;
        } else {
            assert(rest.skip(1) =~= s@.skip(i + 1));
            out.push(chars[i]);
            i += 1;
        }
    }
    assert(s@.skip(n as int) =~= Seq::<char>::empty());
    assert(out@ + Seq::<char>::empty() =~= out@);
    string_of(&out)
}

} // verus!
