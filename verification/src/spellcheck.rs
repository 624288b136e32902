//! Choosing spell-checking dictionaries for a locale.

use crate::text::{
    chars_of, comes_before, ends_with, find_char, first_chars, lemma_lex_total,
    lemma_lex_transitive, lex_less, same_chars, starts_with, string_of,
};
use vstd::prelude::*;

verus! {

/// The character sequences of a list of strings.
pub open spec fn names(list: Seq<String>) -> Seq<Seq<char>> {
    list.map_values(|d: String| d@)
}

/// The part of `s` before its first `c`; all of `s` where it holds no `c`.
pub open spec fn before_first(s: Seq<char>, c: char) -> Seq<char> {
    match s.index_of_first(c) {
        Some(i) => s.take(i),
        None => s,
    }
}

/// A locale without its encoding: `en_GB.UTF-8` gives `en_GB`.
pub open spec fn normalized_locale(locale: Seq<char>) -> Seq<char> {
    before_first(locale, '.')
}

/// Whether `i` is the index of the first dictionary that is `wanted`.
pub open spec fn is_first_exact(dicts: Seq<Seq<char>>, wanted: Seq<char>, i: int) -> bool {
    &&& 0 <= i < dicts.len()
    &&& dicts[i] == wanted
    &&& forall|j: int| 0 <= j < i ==> #[trigger] dicts[j] != wanted
}

/// Whether `i` is the index of the first dictionary whose name begins with `base`.
pub open spec fn is_first_variant(dicts: Seq<Seq<char>>, base: Seq<char>, i: int) -> bool {
    &&& 0 <= i < dicts.len()
    &&& base.is_prefix_of(dicts[i])
    &&& forall|j: int| 0 <= j < i ==> !base.is_prefix_of(#[trigger] dicts[j])
}

/// Whether some dictionary name begins with `base`.
pub open spec fn has_variant(dicts: Seq<Seq<char>>, base: Seq<char>) -> bool {
    exists|i: int| 0 <= i < dicts.len() && base.is_prefix_of(#[trigger] dicts[i])
}

/// The dictionary for a locale: the locale without its encoding where a dictionary
/// has that name; else, where the locale names a territory (`en_US`), the first
/// dictionary whose name begins with its language (`en`); else none.
pub open spec fn matched_dictionary(locale: Seq<char>, dicts: Seq<Seq<char>>) -> Option<Seq<char>> {
    let wanted = normalized_locale(locale);
    if dicts.contains(wanted) {
        Some(wanted)
    } else {
        match wanted.index_of_first('_') {
            Some(cut) => {
                let base = wanted.take(cut);
                if has_variant(dicts, base) {
                    Some(dicts[choose|i: int| is_first_variant(dicts, base, i)])
                } else {
                    None
                }
            },
            None => None,
        }
    }
}

/// Matches a system locale such as `en_GB.UTF-8` to one of the available
/// dictionaries.
#[verifier::loop_isolation(false)]
pub fn match_locale_to_dictionary(locale: &str, available_dicts: &[String]) -> (r: Option<String>)
    ensures
        match r {
            Some(d) => matched_dictionary(locale@, names(available_dicts@)) == Some(d@),
            None => matched_dictionary(locale@, names(available_dicts@)) is None,
        },
{
    let ghost dicts = names(available_dicts@);
    let full = chars_of(locale);
    let wanted: Vec<char> = match find_char(&full, '.') {
        Some(dot) => first_chars(&full, dot),
        None => full,
    };
    assert(wanted@ == normalized_locale(locale@));
    let mut i: usize = 0;
    while i < available_dicts.len()
        invariant
            i <= available_dicts.len(),
            forall|j: int| 0 <= j < i ==> #[trigger] dicts[j] != wanted@,
        decreases available_dicts.len() - i,
    {
        let name = chars_of(available_dicts[i].as_str());
        assert(dicts[i as int] == name@);
        if same_chars(&name, &wanted) {
            assert(dicts.contains(wanted@));
            return Some(string_of(&wanted));
        }
        i += 1;
    }
    assert(!dicts.contains(wanted@));
    match find_char(&wanted, '_') {
        None => None,
        Some(cut) => {
            let stem = first_chars(&wanted, cut);
            let ghost base = stem@;
            let mut i: usize = 0;
            while i < available_dicts.len()
                invariant
                    i <= available_dicts.len(),
                    forall|j: int| 0 <= j < i ==> !base.is_prefix_of(#[trigger] dicts[j]),
                decreases available_dicts.len() - i,
            {
                let name = chars_of(available_dicts[i].as_str());
                assert(dicts[i as int] == name@);
                if starts_with(&name, &stem) {
                    assert(is_first_variant(dicts, base, i as int));
                    assert(has_variant(dicts, base));
                    let ghost chosen = choose|k: int| is_first_variant(dicts, base, k);
                    assert(chosen == i);
                    return Some(available_dicts[i].clone());
                }
                i += 1;
            }
            assert(!has_variant(dicts, base));
            None
        },
    }
}

/// What ends the name of a dictionary file.
pub const DICTIONARY_SUFFIX: &'static str = ".dic";

/// The dictionary that a file is, by its name: the name without its ending; none
/// where the name does not end as a dictionary file does.
pub open spec fn dictionary_in(file_name: Seq<char>) -> Option<Seq<char>> {
    if DICTIONARY_SUFFIX@.is_suffix_of(file_name) {
        Some(file_name.take(file_name.len() - DICTIONARY_SUFFIX@.len()))
    } else {
        None
    }
}

/// Whether one of the files is the dictionary `d`.
pub open spec fn is_offered(files: Seq<Seq<char>>, d: Seq<char>) -> bool {
    exists|i: int| 0 <= i < files.len() && dictionary_in(#[trigger] files[i]) == Some(d)
}

/// Whether each text of the list comes before all that follow it, in the order of
/// the dictionary. Such a list holds nothing twice.
pub open spec fn ascending(list: Seq<Seq<char>>) -> bool {
    forall|i: int, j: int| 0 <= i < j < list.len() ==> lex_less(#[trigger] list[i], #[trigger] list[j])
}

/// The dictionaries among the files named `file_names`: each once, in the order of
/// the dictionary.
pub fn dictionary_names(file_names: &[String]) -> (r: Vec<String>)
    ensures
        ascending(names(r@)),
        forall|d: Seq<char>| names(r@).contains(d) <==> is_offered(names(file_names@), d),
{
    let ghost files = names(file_names@);
    let suffix = chars_of(DICTIONARY_SUFFIX);
    let mut found: Vec<Vec<char>> = Vec::new();
    let mut i: usize = 0;
    while i < file_names.len()
        invariant
            i <= file_names.len(),
            files == names(file_names@),
            suffix@ == DICTIONARY_SUFFIX@,
            ascending(found@.map_values(|v: Vec<char>| v@)),
            forall|d: Seq<char>|
                found@.map_values(|v: Vec<char>| v@).contains(d) <==> is_offered(files.take(i as int), d),
        decreases file_names.len() - i,
    {
        let ghost before = found@.map_values(|v: Vec<char>| v@);
        let ghost seen = files.take(i as int);
        let ghost next = files.take(i + 1);
        let name = chars_of(file_names[i].as_str());
        assert(files[i as int] == name@);
        assert(next[i as int] == name@);
        assert forall|k: int| 0 <= k < i implies next[k] == seen[k] by {}
        if ends_with(&name, &suffix) {
            let stem = first_chars(&name, name.len() - suffix.len());
            assert(dictionary_in(name@) == Some(stem@));
            let mut at: usize = 0;
            while at < found.len() && comes_before(&found[at], &stem)
                invariant
                    at <= found@.len(),
                    before == found@.map_values(|v: Vec<char>| v@),
                    forall|k: int| 0 <= k < at ==> lex_less(#[trigger] before[k], stem@),
                decreases found@.len() - at,
            {
                assert(before[at as int] == found@[at as int]@);
                at += 1;
            }
            let known = at < found.len() && same_chars(&found[at], &stem);
            proof {
                if at < found@.len() {
                    assert(before[at as int] == found@[at as int]@);
                }
            }
            if !known {
                found.insert(at, stem);
                let ghost after = found@.map_values(|v: Vec<char>| v@);
                assert(after =~= before.insert(at as int, stem@));
                assert forall|x: int, y: int| 0 <= x < y < after.len() implies lex_less(
                    #[trigger] after[x],
                    #[trigger] after[y],
                ) by {
                    if y < at {
                        assert(after[x] == before[x] && after[y] == before[y]);
                    } else if y == at {
                        assert(after[x] == before[x]);
                    } else if x < at {
                        assert(after[x] == before[x] && after[y] == before[y - 1]);
                    } else if x == at {
                        assert(after[y] == before[y - 1]);
                        assert(!lex_less(before[at as int], stem@));
                        lemma_lex_total(before[at as int], stem@);
                        if y - 1 > at {
                            assert(lex_less(before[at as int], before[y - 1]));
                            lemma_lex_transitive(stem@, before[at as int], before[y - 1]);
                        }
                    } else {
                        assert(after[x] == before[x - 1] && after[y] == before[y - 1]);
                    }
                }
                assert forall|d: Seq<char>| after.contains(d) <==> is_offered(next, d) by {
                    if after.contains(d) {
                        let w = choose|w: int| 0 <= w < after.len() && after[w] == d;
                        if w == at {
                            assert(dictionary_in(next[i as int]) == Some(d));
                        } else {
                            let v = if w < at {
                                w
                            } else {
                                w - 1
                            };
                            assert(before[v] == d);
                            assert(before.contains(d));
                            assert(is_offered(seen, d));
                            let k = choose|k: int| 0 <= k < seen.len() && dictionary_in(#[trigger] seen[k]) == Some(d);
                            assert(dictionary_in(next[k]) == Some(d));
                        }
                    }
                    if is_offered(next, d) {
                        let k = choose|k: int| 0 <= k < next.len() && dictionary_in(#[trigger] next[k]) == Some(d);
                        if k == i {
                            assert(after[at as int] == d);
                        } else {
                            assert(dictionary_in(seen[k]) == Some(d));
                            assert(is_offered(seen, d));
                            assert(before.contains(d));
                            let w = choose|w: int| 0 <= w < before.len() && before[w] == d;
                            if w < at {
                                assert(after[w] == d);
                            } else {
                                assert(after[w + 1] == d);
                            }
                        }
                    }
                }
            } else {
                assert forall|d: Seq<char>| before.contains(d) <==> is_offered(next, d) by {
                    if before.contains(d) {
                        assert(is_offered(seen, d));
                        let k = choose|k: int| 0 <= k < seen.len() && dictionary_in(#[trigger] seen[k]) == Some(d);
                        assert(dictionary_in(next[k]) == Some(d));
                        assert(is_offered(next, d));
                    }
                    if is_offered(next, d) {
                        let k = choose|k: int| 0 <= k < next.len() && dictionary_in(#[trigger] next[k]) == Some(d);
                        if k == i {
                            assert(before[at as int] == d);
                            assert(before.contains(d));
                        } else {
                            assert(dictionary_in(seen[k]) == Some(d));
                            assert(is_offered(seen, d));
                        }
                    }
                }
            }
        } else {
            assert forall|d: Seq<char>| before.contains(d) <==> is_offered(next, d) by {
                if before.contains(d) {
                    assert(is_offered(seen, d));
                    let k = choose|k: int| 0 <= k < seen.len() && dictionary_in(#[trigger] seen[k]) == Some(d);
                    assert(dictionary_in(next[k]) == Some(d));
                    assert(is_offered(next, d));
                }
                if is_offered(next, d) {
                    let k = choose|k: int| 0 <= k < next.len() && dictionary_in(#[trigger] next[k]) == Some(d);
                    assert(k != i);
                    assert(dictionary_in(seen[k]) == Some(d));
                    assert(is_offered(seen, d));
                }
            }
        }
        i += 1;
    }
    assert(files.take(i as int) =~= files);
    let ghost sorted = found@.map_values(|v: Vec<char>| v@);
    let mut out: Vec<String> = Vec::new();
    let mut k: usize = 0;
    while k < found.len()
        invariant
            k <= found@.len(),
            out@.len() == k,
            sorted == found@.map_values(|v: Vec<char>| v@),
            forall|j: int| 0 <= j < k ==> (#[trigger] out@[j])@ == sorted[j],
        decreases found@.len() - k,
    {
        assert(sorted[k as int] == found@[k as int]@);
        out.push(string_of(&found[k]));
        k += 1;
    }
    assert(names(out@) =~= sorted);
    out
}

/// The languages chosen by the user for which a dictionary is available, in the
/// order in which they were chosen.
pub fn valid_languages(languages: &[String], available: &[String]) -> (r: Vec<String>)
    ensures
        names(r@) == names(languages@).filter(|l: Seq<char>| names(available@).contains(l)),
{
    let ghost chosen = names(languages@);
    let ghost offered = names(available@);
    let ghost keep = |l: Seq<char>| names(available@).contains(l);
    let mut out: Vec<String> = Vec::new();
    let mut i: usize = 0;
    while i < languages.len()
        invariant
            i <= languages.len(),
            chosen == names(languages@),
            offered == names(available@),
            keep == (|l: Seq<char>| names(available@).contains(l)),
            names(out@) == chosen.take(i as int).filter(keep),
        decreases languages.len() - i,
    {
        let ghost head = chosen.take(i + 1);
        assert(head.drop_last() =~= chosen.take(i as int));
        assert(head.last() == languages@[i as int]@);
        assert(head.filter(keep) == if keep(head.last()) {
            head.drop_last().filter(keep).push(head.last())
        } else {
            head.drop_last().filter(keep)
        }) by {
            reveal(Seq::filter);
        }
        let mut k: usize = 0;
        let mut hit = false;
        while k < available.len() && !hit
            invariant
                k <= available.len(),
                i < languages.len(),
                offered == names(available@),
                hit ==> offered.contains(languages@[i as int]@),
                !hit ==> forall|j: int| 0 <= j < k ==> #[trigger] offered[j] != languages@[i as int]@,
            decreases available.len() - k + (if hit { 0int } else { 1int }),
        {
            assert(offered[k as int] == available@[k as int]@);
            if available[k] == languages[i] {
                hit = true;
            } else {
                k += 1;
            }
        }
        if hit {
            let ghost prior = names(out@);
            out.push(languages[i].clone());
            assert(names(out@) =~= prior.push(languages@[i as int]@));
        }
        i += 1;
    }
    assert(chosen.take(i as int) =~= chosen);
    out
}

/// The language that stands for spell checking where none can be told.
pub const FALLBACK_LANGUAGE: &'static str = "en_US";

/// A locale without its encoding: `en_GB.UTF-8` gives `en_GB`.
pub fn normalized_locale_of(locale: &str) -> (r: String)
    ensures
        r@ == normalized_locale(locale@),
{
    let full = chars_of(locale);
    match find_char(&full, '.') {
        Some(dot) => {
            let head = first_chars(&full, dot);
            string_of(&head)
        },
        None => locale.to_owned(),
    }
}

/// The row of the language chooser that shows the languages chosen: the row of the
/// first of them where a dictionary of that name is available, else the first row.
pub open spec fn chosen_row(languages: Seq<Seq<char>>, available: Seq<Seq<char>>) -> int {
    if languages.len() > 0 && available.contains(languages[0]) {
        choose|i: int| is_first_exact(available, languages[0], i)
    } else {
        0
    }
}

/// The row of the language chooser that shows the languages chosen. A row that the
/// number type does not reach counts as the first.
pub fn chosen_index(languages: &[String], available: &[String]) -> (r: u32)
    ensures
        r == (if chosen_row(names(languages@), names(available@)) <= u32::MAX {
            chosen_row(names(languages@), names(available@))
        } else {
            0
        }),
{
    if languages.len() == 0 {
        return 0;
    }
    let ghost offered = names(available@);
    let ghost wanted = languages@[0]@;
    assert(names(languages@)[0] == wanted);
    let mut i: usize = 0;
    while i < available.len()
        invariant
            i <= available.len(),
            offered == names(available@),
            wanted == languages@[0]@,
            languages@.len() > 0,
            forall|j: int| 0 <= j < i ==> #[trigger] offered[j] != wanted,
        decreases available.len() - i,
    {
        assert(offered[i as int] == available@[i as int]@);
        if available[i] == languages[0] {
            assert(is_first_exact(offered, wanted, i as int));
            assert(offered.contains(wanted));
            let ghost chosen = choose|k: int| is_first_exact(offered, wanted, k);
            assert(chosen == i);
            if i <= u32::MAX as usize {
                return i as u32;
            } else {
                return 0;
            }
        }
        i += 1;
    }
    assert(!offered.contains(wanted));
    0
}

/// The language that the row `index` of the language chooser stands for; the
/// fallback language where there is no such row.
pub fn language_at(index: u32, available: &[String]) -> (r: String)
    ensures
        r@ == (if index < available@.len() {
            available@[index as int]@
        } else {
            FALLBACK_LANGUAGE@
        }),
{
    if (index as usize) < available.len() {
        available[index as usize].clone()
    } else {
        FALLBACK_LANGUAGE.to_owned()
    }
}

} // verus!
