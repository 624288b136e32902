//! Finding the notes of a release in the text of an application description.

use crate::text::{chars_of, find_from, first_occurrence, occurs_at, occurs_from, string_of};
use vstd::prelude::*;

verus! {

/// What opens the description of a release.
pub const DESCRIPTION_OPEN: &'static str = "<description>";

/// What closes the description of a release.
pub const DESCRIPTION_CLOSE: &'static str = "</description>";

/// Whether `char::is_whitespace` holds of `c`: whether the character has the
/// Unicode property White_Space.
pub uninterp spec fn white_space(c: char) -> bool;

/// `char::is_whitespace`: tells whether the character is white space.
#[verifier::external_body]
fn is_white_space(c: char) -> (r: bool)
    ensures
        r == white_space(c),
{
    c.is_whitespace()
}

/// For each character of `s`, whether it is white space.
pub open spec fn blanks(s: Seq<char>) -> Seq<bool> {
    s.map_values(|c: char| white_space(c))
}

/// How many marks at the start of `blank` are set.
pub open spec fn blank_prefix(blank: Seq<bool>) -> int
    decreases blank.len(),
{
    if blank.len() == 0 || !blank[0] {
        0
    } else {
        1 + blank_prefix(blank.drop_first())
    }
}

/// How many marks of `blank` are left without the set ones at its end.
pub open spec fn unblank_length(blank: Seq<bool>) -> int
    decreases blank.len(),
{
    if blank.len() == 0 || !blank.last() {
        blank.len() as int
    } else {
        unblank_length(blank.drop_last())
    }
}

/// `s` without the characters at its start and at its end that `blank` marks.
/// Empty where `blank` does not mark each character of `s`.
pub open spec fn trimmed_by(s: Seq<char>, blank: Seq<bool>) -> Seq<char> {
    let from = blank_prefix(blank);
    let to = unblank_length(blank);
    if blank.len() == s.len() && from < to {
        s.subrange(from, to)
    } else {
        Seq::empty()
    }
}

/// `s` without the white space at its start and at its end.
pub open spec fn trimmed(s: Seq<char>) -> Seq<char> {
    trimmed_by(s, blanks(s))
}

/// The attribute that names the release `version`.
pub open spec fn version_tag(version: Seq<char>) -> Seq<char> {
    "version=\""@ + version + "\""@
}

/// The first index not below `from` at which `needle` occurs in `hay`.
pub open spec fn first_at(hay: Seq<char>, needle: Seq<char>, from: int) -> int {
    choose|at: int| first_occurrence(hay, needle, from, at)
}

/// The notes of the release `version` in `content`: what stands between the first
/// opening and the following closing of a description behind the first mention of
/// that version, without the characters around it that `blank` marks. `None` where
/// the version, or the opening or the closing behind it, is missing.
pub open spec fn notes_by(content: Seq<char>, version: Seq<char>, blank: Seq<bool>) -> Option<Seq<char>> {
    let tag = version_tag(version);
    if !occurs_from(content, tag, 0) {
        None
    } else {
        let mention = first_at(content, tag, 0);
        if !occurs_from(content, DESCRIPTION_OPEN@, mention) {
            None
        } else {
            let open = first_at(content, DESCRIPTION_OPEN@, mention);
            if !occurs_from(content, DESCRIPTION_CLOSE@, open) {
                None
            } else {
                let close = first_at(content, DESCRIPTION_CLOSE@, open);
                let from = open + DESCRIPTION_OPEN@.len();
                Some(trimmed_by(content.subrange(from, close), blank.subrange(from, close)))
            }
        }
    }
}

/// The notes of the release `version` in `content`, without the white space around
/// them.
pub open spec fn notes_in(content: Seq<char>, version: Seq<char>) -> Option<Seq<char>> {
    notes_by(content, version, blanks(content))
}

/// The notes of the first of `contents` that holds notes of the release `version`;
/// empty where none does.
pub open spec fn first_notes(contents: Seq<Seq<char>>, version: Seq<char>) -> Seq<char>
    decreases contents.len(),
{
    if contents.len() == 0 {
        Seq::empty()
    } else {
        match notes_in(contents[0], version) {
            Some(notes) => notes,
            None => first_notes(contents.drop_first(), version),
        }
    }
}

/// A closing of a description cannot begin inside an opening.
pub proof fn lemma_close_follows_open(hay: Seq<char>, open: int, close: int)
    requires
        occurs_at(hay, DESCRIPTION_OPEN@, open),
        occurs_at(hay, DESCRIPTION_CLOSE@, close),
        open <= close,
    ensures
        DESCRIPTION_OPEN@.len() == 13,
        open + 13 <= close,
{
    reveal_strlit("<description>");
    reveal_strlit("</description>");
    let o = DESCRIPTION_OPEN@;
    let c = DESCRIPTION_CLOSE@;
    let a = hay.subrange(open, open + 13);
    let b = hay.subrange(close, close + 14);
    assert(a == o);
    assert(b == c);
    if close < open + 13 {
        let k = close - open;
        assert(hay[close] == b[0]);
        assert(hay[close] == a[k]);
        assert(b[0] == '<');
        if k == 0 {
            assert(hay[close + 1] == b[1]);
            assert(hay[open + 1] == a[1]);
        } else {
            assert(a[k] != '<');
        }
    }
}

/// For each character of `s`, whether it is white space.
pub fn classify(s: &Vec<char>) -> (r: Vec<bool>)
    ensures
        r@ == blanks(s@),
{
    let mut out: Vec<bool> = Vec::new();
    let mut i: usize = 0;
    while i < s.len()
        invariant
            i <= s.len(),
            out@.len() == i,
            forall|j: int| 0 <= j < i ==> out@[j] == white_space(s@[j]),
        decreases s.len() - i,
    {
        out.push(is_white_space(s[i]));
        i += 1;
    }
    assert(out@ =~= blanks(s@));
    out
}

/// The characters `s[from..to]` without those at the start and at the end that
/// `blank` marks.
fn trim_range(s: &Vec<char>, blank: &Vec<bool>, from: usize, to: usize) -> (r: Vec<char>)
    requires
        from <= to <= s.len(),
        blank.len() == s.len(),
    ensures
        r@ == trimmed_by(s@.subrange(from as int, to as int), blank@.subrange(from as int, to as int)),
{
    let ghost part = s@.subrange(from as int, to as int);
    let ghost marks = blank@.subrange(from as int, to as int);
    let mut last: usize = to;
    assert(marks.take(last - from) =~= marks);
    while last > from && blank[last - 1]
        invariant
            from <= last <= to <= s.len(),
            blank.len() == s.len(),
            marks == blank@.subrange(from as int, to as int),
            unblank_length(marks) == unblank_length(marks.take(last - from)),
        decreases last,
    {
        assert(marks.take(last - from).drop_last() =~= marks.take(last - from - 1));
        assert(marks.take(last - from).last() == blank@[last - 1]);
        last -= 1;
    }
    proof {
        if last > from {
            assert(marks.take(last - from).last() == blank@[last - 1]);
        }
        assert(unblank_length(marks) == last - from);
    }
    let mut first: usize = from;
    assert(marks.skip(0) =~= marks);
    while first < to && blank[first]
        invariant
            from <= first <= to <= s.len(),
            blank.len() == s.len(),
            marks == blank@.subrange(from as int, to as int),
            blank_prefix(marks) == first - from + blank_prefix(marks.skip(first - from)),
        decreases to - first,
    {
        assert(marks.skip(first - from).drop_first() =~= marks.skip(first - from + 1));
        assert(marks.skip(first - from)[0] == blank@[first as int]);
        first += 1;
    }
    proof {
        if first < to {
            assert(marks.skip(first - from)[0] == blank@[first as int]);
        }
        assert(blank_prefix(marks) == first - from);
    }
    let mut out: Vec<char> = Vec::new();
    if first < last {
        let mut i: usize = first;
        while i < last
            invariant
                first <= i <= last <= s.len(),
                out@ == s@.subrange(first as int, i as int),
            decreases last - i,
        {
            out.push(s[i]);
            assert(s@.subrange(first as int, i + 1) =~= s@.subrange(first as int, i as int).push(s@[i as int]));
            i += 1;
        }
        assert(s@.subrange(first as int, last as int) =~= part.subrange(first - from, last - from));
    }
    out
}

/// `s` without the characters at its start and at its end that `blank` marks; empty
/// where `blank` does not mark each character of `s`.
pub fn trim_by(s: &Vec<char>, blank: &Vec<bool>) -> (r: Vec<char>)
    ensures
        r@ == trimmed_by(s@, blank@),
{
    if blank.len() != s.len() {
        return Vec::new();
    }
    assert(s@.subrange(0, s@.len() as int) =~= s@);
    assert(blank@.subrange(0, blank@.len() as int) =~= blank@);
    trim_range(s, blank, 0, s.len())
}

/// `s` without the white space at its start and at its end.
pub fn trim(s: &Vec<char>) -> (r: Vec<char>)
    ensures
        r@ == trimmed(s@),
{
    let blank = classify(s);
    trim_by(s, &blank)
}

/// The notes of the release `version` in the text `content`, without the
/// characters around them that `blank` marks. `blank` has a mark for each character
/// of `content`; where it has not, nothing is found.
pub fn release_notes_by(content: &Vec<char>, version: &str, blank: &Vec<bool>) -> (r: Option<String>)
    ensures
        blank@.len() == content@.len() ==> match r {
            Some(notes) => notes_by(content@, version@, blank@) == Some(notes@),
            None => notes_by(content@, version@, blank@) is None,
        },
        blank@.len() != content@.len() ==> r is None,
{
    if blank.len() != content.len() {
        return None;
    }
    let mut tag = "version=\"".to_owned();
    tag.append(version);
    tag.append("\"");
    let tag = chars_of(tag.as_str());
    let open_mark = chars_of(DESCRIPTION_OPEN);
    let close_mark = chars_of(DESCRIPTION_CLOSE);
    assert(tag@ == version_tag(version@));
    let mention = match find_from(content, &tag, 0) {
        Some(at) => at,
        None => {
            return None;
        },
    };
    assert(occurs_from(content@, tag@, 0));
    assert(first_at(content@, tag@, 0) == mention);
    let open = match find_from(content, &open_mark, mention) {
        Some(at) => at,
        None => {
            return None;
        },
    };
    assert(occurs_from(content@, open_mark@, mention as int));
    assert(first_at(content@, open_mark@, mention as int) == open);
    let close = match find_from(content, &close_mark, open) {
        Some(at) => at,
        None => {
            return None;
        },
    };
    assert(occurs_from(content@, close_mark@, open as int));
    assert(first_at(content@, close_mark@, open as int) == close);
    proof {
        lemma_close_follows_open(content@, open as int, close as int);
    }
    let notes = trim_range(content, blank, open + 13, close);
    Some(string_of(&notes))
}

/// The notes of the release `version` in the text `content`.
pub fn release_notes_in(content: &str, version: &str) -> (r: Option<String>)
    ensures
        match r {
            Some(notes) => notes_in(content@, version@) == Some(notes@),
            None => notes_in(content@, version@) is None,
        },
{
    let hay = chars_of(content);
    let blank = classify(&hay);
    release_notes_by(&hay, version, &blank)
}

/// The notes of the release `version`: those of the first of `contents` that holds
/// any, and an empty text where none does.
pub fn get_release_notes(contents: &Vec<String>, version: &str) -> (r: String)
    ensures
        r@ == first_notes(contents@.map_values(|c: String| c@), version@),
{
    let ghost all = contents@.map_values(|c: String| c@);
    let mut i: usize = 0;
    assert(all.skip(0) =~= all);
    while i < contents.len()
        invariant
            i <= contents.len(),
            all == contents@.map_values(|c: String| c@),
            first_notes(all, version@) == first_notes(all.skip(i as int), version@),
        decreases contents.len() - i,
    {
        assert(all.skip(i as int)[0] == contents@[i as int]@);
        assert(all.skip(i as int).drop_first() =~= all.skip(i as int + 1));
        match release_notes_in(contents[i].as_str(), version) {
            Some(notes) => {
                return notes;
            },
            None => {},
        }
        i += 1;
    }
    assert(all.skip(0) =~= all);
    String::new()
}

} // verus!
