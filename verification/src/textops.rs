use vstd::prelude::*;

verus! {

/// Whether `c` has the Unicode White_Space property.
pub open spec fn is_white_space(c: char) -> bool {
    ('\u{9}' <= c <= '\u{d}') || c == ' ' || c == '\u{85}' || c == '\u{a0}' || c == '\u{1680}'
        || ('\u{2000}' <= c <= '\u{200a}') || c == '\u{2028}' || c == '\u{2029}' || c == '\u{202f}'
        || c == '\u{205f}' || c == '\u{3000}'
}

/// Whether `c` has the Unicode White_Space property.
pub fn is_white_space_char(c: char) -> (ws: bool)
    ensures
        ws == is_white_space(c),
{
    ('\u{9}' <= c && c <= '\u{d}') || c == ' ' || c == '\u{85}' || c == '\u{a0}' || c == '\u{1680}'
        || ('\u{2000}' <= c && c <= '\u{200a}') || c == '\u{2028}' || c == '\u{2029}' || c == '\u{202f}'
        || c == '\u{205f}' || c == '\u{3000}'
}

/// ASCII upper-case letters become lower case; other characters stay.
pub open spec fn ascii_lower(c: char) -> char {
    if 'A' <= c <= 'Z' {
        ((c as u32) + 32) as char
    } else {
        c
    }
}

pub open spec fn ascii_lower_seq(s: Seq<char>) -> Seq<char> {
    s.map_values(|c: char| ascii_lower(c))
}

pub fn ascii_lower_char(c: char) -> (l: char)
    ensures
        l == ascii_lower(c),
{
    if 'A' <= c && c <= 'Z' {
        ((c as u8) + 32) as char
    } else {
        c
    }
}

pub fn ascii_lowercase(s: &Vec<char>) -> (l: Vec<char>)
    ensures
        l@ == ascii_lower_seq(s@),
{
    let mut l: Vec<char> = Vec::new();
    let mut i: usize = 0;
    while i < s.len()
        invariant
            i <= s@.len(),
            l@ == ascii_lower_seq(s@.subrange(0, i as int)),
        decreases s@.len() - i,
    {
        l.push(ascii_lower_char(s[i]));
        i = i + 1;
        assert(l@ =~= ascii_lower_seq(s@.subrange(0, i as int)));
    }
    assert(s@.subrange(0, s@.len() as int) =~= s@);
    l
}

/// The words of `s` that follow a word `cur` still being read: the maximal
/// runs of characters without white space.
pub open spec fn words_from(s: Seq<char>, cur: Seq<char>) -> Seq<Seq<char>>
    decreases s.len(),
{
    if s.len() == 0 {
        if cur.len() > 0 {
            seq![cur]
        } else {
            Seq::empty()
        }
    } else if is_white_space(s[0]) {
        (if cur.len() > 0 {
            seq![cur]
        } else {
            Seq::empty()
        }) + words_from(s.drop_first(), Seq::empty())
    } else {
        words_from(s.drop_first(), cur.push(s[0]))
    }
}

/// The white-space separated words of `s`.
pub open spec fn words(s: Seq<char>) -> Seq<Seq<char>> {
    words_from(s, Seq::empty())
}

/// Splits text at white space, dropping empty words.
pub fn split_words(s: &Vec<char>) -> (ws: Vec<Vec<char>>)
    ensures
        ws@.map_values(|w: Vec<char>| w@) == words(s@),
{
    let mut result: Vec<Vec<char>> = Vec::new();
    let mut cur: Vec<char> = Vec::new();
    let mut i: usize = 0;
    assert(s@.subrange(0, s@.len() as int) =~= s@);
    while i < s.len()
        invariant
            i <= s@.len(),
            result@.map_values(|w: Vec<char>| w@) + words_from(s@.subrange(i as int, s@.len() as int), cur@)
                == words(s@),
        decreases s@.len() - i,
    {
        let ghost rest = s@.subrange(i as int, s@.len() as int);
        let ghost r0 = result@.map_values(|w: Vec<char>| w@);
        assert(rest.drop_first() =~= s@.subrange(i + 1, s@.len() as int));
        assert(rest[0] == s@[i as int]);
        let c = s[i];
        if is_white_space_char(c) {
            if cur.len() > 0 {
                let ghost cw = cur@;
                let mut word: Vec<char> = Vec::new();
                std::mem::swap(&mut word, &mut cur);
                result.push(word);
                assert(result@.map_values(|w: Vec<char>| w@) =~= r0 + seq![cw]);
                assert(r0 + seq![cw] + words_from(rest.drop_first(), Seq::empty()) =~= r0 + (seq![cw]
                    + words_from(rest.drop_first(), Seq::empty())));
            } else {
                assert(Seq::<Seq<char>>::empty() + words_from(rest.drop_first(), Seq::empty()) =~= words_from(
                    rest.drop_first(),
                    Seq::empty(),
                ));
                assert(cur@ =~= Seq::<char>::empty());
            }
        } else {
            cur.push(c);
        }
        i = i + 1;
    }
    let ghost r0 = result@.map_values(|w: Vec<char>| w@);
    if cur.len() > 0 {
        let ghost cw = cur@;
        result.push(cur);
        assert(result@.map_values(|w: Vec<char>| w@) =~= r0 + seq![cw]);
    } else {
        assert(r0 + Seq::<Seq<char>>::empty() =~= r0);
    }
    result
}

/// `s` without leading white space.
pub open spec fn trim_start(s: Seq<char>) -> Seq<char>
    decreases s.len(),
{
    if s.len() > 0 && is_white_space(s[0]) {
        trim_start(s.drop_first())
    } else {
        s
    }
}

/// `s` without trailing white space.
pub open spec fn trim_end(s: Seq<char>) -> Seq<char>
    decreases s.len(),
{
    if s.len() > 0 && is_white_space(s.last()) {
        trim_end(s.drop_last())
    } else {
        s
    }
}

/// `s` without leading and trailing white space.
pub open spec fn trim(s: Seq<char>) -> Seq<char> {
    trim_end(trim_start(s))
}

/// Removes leading and trailing white space.
pub fn trimmed(s: &Vec<char>) -> (t: Vec<char>)
    ensures
        t@ == trim(s@),
{
    let mut start: usize = 0;
    assert(s@.subrange(0, s@.len() as int) =~= s@);
    while start < s.len() && is_white_space_char(s[start])
        invariant
            start <= s@.len(),
            trim_start(s@.subrange(start as int, s@.len() as int)) == trim_start(s@),
        decreases s@.len() - start,
    {
        assert(s@.subrange(start as int, s@.len() as int).drop_first() =~= s@.subrange(start + 1, s@.len() as int));
        start = start + 1;
    }
    proof {
        if start == 0 {
            assert(s@.subrange(0, s@.len() as int) =~= s@);
        }
    }
    let mut end: usize = s.len();
    while end > start && is_white_space_char(s[end - 1])
        invariant
            start <= end <= s@.len(),
            trim_start(s@) == s@.subrange(start as int, s@.len() as int),
            trim_end(s@.subrange(start as int, end as int)) == trim(s@),
        decreases end,
    {
        assert(s@.subrange(start as int, end as int).drop_last() =~= s@.subrange(start as int, end - 1));
        end = end - 1;
    }
    let mut t: Vec<char> = Vec::new();
    let mut k = start;
    while k < end
        invariant
            start <= k <= end <= s@.len(),
            t@ == s@.subrange(start as int, k as int),
        decreases end - k,
    {
        t.push(s[k]);
        k = k + 1;
        assert(t@ =~= s@.subrange(start as int, k as int));
    }
    t
}

/// The first position at or after `from` that holds `c`.
pub open spec fn find_from(h: Seq<char>, c: char, from: nat) -> Option<nat>
    decreases h.len() - from,
{
    if from >= h.len() {
        None
    } else if h[from as int] == c {
        Some(from)
    } else {
        find_from(h, c, from + 1)
    }
}

/// How loosely `needle` occurs in `haystack` as a subsequence, matching
/// each character at its first occurrence after the previous match: the sum
/// of the gaps skipped, or `None` when it does not occur.
pub open spec fn subsequence_score_from(haystack: Seq<char>, needle: Seq<char>, from: nat) -> Option<nat>
    decreases needle.len(),
{
    if needle.len() == 0 {
        Some(0)
    } else {
        match find_from(haystack, needle[0], from) {
            None => None,
            Some(p) => match subsequence_score_from(haystack, needle.drop_first(), p + 1) {
                None => None,
                Some(rest) => Some(((p - from) + rest) as nat),
            },
        }
    }
}

pub open spec fn subsequence_score(haystack: Seq<char>, needle: Seq<char>) -> Option<nat> {
    subsequence_score_from(haystack, needle, 0)
}

pub proof fn lemma_find_from_bounds(h: Seq<char>, c: char, from: nat)
    ensures
        find_from(h, c, from) matches Some(p) ==> from <= p < h.len() && h[p as int] == c,
    decreases h.len() - from,
{
    if from < h.len() && h[from as int] != c {
        lemma_find_from_bounds(h, c, from + 1);
    }
}

/// A subsequence score never exceeds the room left in the haystack.
pub proof fn lemma_score_bounded(haystack: Seq<char>, needle: Seq<char>, from: nat)
    requires
        from <= haystack.len(),
    ensures
        subsequence_score_from(haystack, needle, from) matches Some(r) ==> r <= haystack.len() - from,
    decreases needle.len(),
{
    if needle.len() > 0 {
        lemma_find_from_bounds(haystack, needle[0], from);
        if let Some(p) = find_from(haystack, needle[0], from) {
            lemma_score_bounded(haystack, needle.drop_first(), p + 1);
        }
    }
}

pub fn find_char_from(h: &Vec<char>, c: char, from: usize) -> (found: Option<usize>)
    ensures
        match found {
            Some(p) => find_from(h@, c, from as nat) == Some(p as nat),
            None => find_from(h@, c, from as nat) is None,
        },
{
    let mut i: usize = from;
    while i < h.len()
        invariant
            from <= i,
            find_from(h@, c, from as nat) == find_from(h@, c, i as nat),
        decreases h@.len() - i,
    {
        if h[i] == c {
            return Some(i);
        }
        i = i + 1;
    }
    None
}

/// The subsequence score of `needle` in `haystack` (see `subsequence_score`).
pub fn subsequence_score_of(haystack: &Vec<char>, needle: &Vec<char>) -> (score: Option<u128>)
    ensures
        match score {
            Some(s) => subsequence_score(haystack@, needle@) == Some(s as nat),
            None => subsequence_score(haystack@, needle@) is None,
        },
{
    let mut from: usize = 0;
    let mut total: u128 = 0;
    let mut i: usize = 0;
    assert(needle@.subrange(0, needle@.len() as int) =~= needle@);
    while i < needle.len()
        invariant
            i <= needle@.len(),
            from <= haystack@.len(),
            total <= from,
            match subsequence_score(haystack@, needle@) {
                Some(s) => subsequence_score_from(haystack@, needle@.subrange(i as int, needle@.len() as int), from as nat)
                    matches Some(r) && s == total + r,
                None => subsequence_score_from(haystack@, needle@.subrange(i as int, needle@.len() as int), from as nat) is None,
            },
        decreases needle@.len() - i,
    {
        let ghost rest = needle@.subrange(i as int, needle@.len() as int);
        assert(rest.drop_first() =~= needle@.subrange(i + 1, needle@.len() as int));
        match find_char_from(haystack, needle[i], from) {
            None => {
                return None;
            },
            Some(p) => {
                proof {
                    lemma_find_from_bounds(haystack@, needle@[i as int], from as nat);
                }
                assert(p < haystack.len());
                total = total + (p - from) as u128;
                from = p + 1;
            },
        }
        i = i + 1;
    }
    assert(needle@.subrange(0, needle@.len() as int) =~= needle@);
    Some(total)
}

} // verus!
