use vstd::prelude::*;
use crate::chars::{chars_equal_str, chars_of, contains_seq, matches_at, string_of};
use crate::pathname::{extension_of, plain_path};
use crate::textops::{
    ascii_lower_seq, ascii_lowercase, find_char_from, find_from, is_white_space, is_white_space_char,
    lemma_find_from_bounds, split_words, trim, trim_start, trimmed, words,
};

verus! {

/// How many copies of `c` the text starts with.
pub open spec fn leading_run(s: Seq<char>, c: char) -> nat
    decreases s.len(),
{
    if s.len() > 0 && s[0] == c {
        1 + leading_run(s.drop_first(), c)
    } else {
        0
    }
}

/// How many copies of `c` the text ends with.
pub open spec fn trailing_run(s: Seq<char>, c: char) -> nat
    decreases s.len(),
{
    if s.len() > 0 && s.last() == c {
        1 + trailing_run(s.drop_last(), c)
    } else {
        0
    }
}

/// The longest run of backticks in the text: the longest run that ends at
/// some position.
pub open spec fn longest_backtick_run(s: Seq<char>) -> nat
    decreases s.len(),
{
    if s.len() == 0 {
        0
    } else {
        let earlier = longest_backtick_run(s.drop_last());
        let here = trailing_run(s, '`');
        if here > earlier { here } else { earlier }
    }
}

pub proof fn lemma_leading_run_bounds(s: Seq<char>, c: char)
    ensures
        leading_run(s, c) <= s.len(),
        forall|k: int| 0 <= k < leading_run(s, c) ==> s[k] == c,
        leading_run(s, c) < s.len() ==> s[leading_run(s, c) as int] != c,
        s.len() > 0 && s[0] == c ==> leading_run(s, c) >= 1,
    decreases s.len(),
{
    if s.len() > 0 && s[0] == c {
        let rest = s.drop_first();
        lemma_leading_run_bounds(rest, c);
        assert forall|k: int| 0 <= k < leading_run(s, c) implies s[k] == c by {
            if k > 0 {
                assert(s[k] == rest[k - 1]);
            }
        }
        if leading_run(s, c) < s.len() {
            assert(s[leading_run(s, c) as int] == rest[leading_run(rest, c) as int]);
        }
    }
}

/// The backtick or tilde fence that a Markdown line opens or closes: its
/// character and length, at least three, after leading white space.
pub open spec fn fence_marker_spec(line: Seq<char>) -> Option<(char, nat)> {
    let rest = trim_start(line);
    if rest.len() == 0 {
        None
    } else if rest[0] != '`' && rest[0] != '~' {
        None
    } else if leading_run(rest, rest[0]) >= 3 {
        Some((rest[0], leading_run(rest, rest[0])))
    } else {
        None
    }
}

/// `count` copies of `c`.
pub open spec fn repeated(c: char, count: nat) -> Seq<char> {
    Seq::new(count, |i: int| c)
}

/// The length of the fence around a fenced block of `source`: one backtick
/// more than its longest run, and at least three.
pub open spec fn fence_length(source: Seq<char>) -> nat {
    if longest_backtick_run(source) + 1 > 3 { longest_backtick_run(source) + 1 } else { 3 }
}

/// `source` as a Markdown fenced code block of `language`.
pub open spec fn fenced_source(language: Seq<char>, source: Seq<char>) -> Seq<char> {
    let fence = repeated('`', fence_length(source));
    fence + language + seq!['\n'] + source + seq!['\n'] + fence
}

/// The words of the text joined by single spaces.
pub open spec fn joined_words(ws: Seq<Seq<char>>) -> Seq<char>
    decreases ws.len(),
{
    if ws.len() == 0 {
        Seq::empty()
    } else if ws.len() == 1 {
        ws[0]
    } else {
        joined_words(ws.drop_last()) + seq![' '] + ws.last()
    }
}

pub open spec fn is_bracket(c: char) -> bool {
    c == '[' || c == ']'
}

/// The text without square brackets.
pub open spec fn without_brackets(s: Seq<char>) -> Seq<char> {
    s.filter(|c: char| !is_bracket(c))
}

/// The alternative text shown for an image: its words joined by single
/// spaces, without square brackets.
pub open spec fn alt_text(alt: Seq<char>) -> Seq<char> {
    without_brackets(joined_words(words(alt)))
}

/// What stands in place of an image that is not loaded.
pub open spec fn image_placeholder_spec(alt: Option<Seq<char>>) -> Seq<char> {
    let text = alt_text(
        match alt {
            Some(a) => a,
            None => Seq::empty(),
        },
    );
    if text.len() == 0 {
        "[image not loaded]"@
    } else {
        "[image not loaded: "@ + text + "]"@
    }
}

/// The first position at or after `from` where `needle` occurs in `hay`.
pub open spec fn find_seq_from(hay: Seq<char>, needle: Seq<char>, from: nat) -> Option<nat>
    decreases hay.len() + 1 - from,
{
    if from + needle.len() > hay.len() {
        None
    } else if hay.subrange(from as int, (from + needle.len()) as int) == needle {
        Some(from)
    } else {
        find_seq_from(hay, needle, from + 1)
    }
}

/// The first position of a white-space character or `>` at or after `from`.
pub open spec fn find_value_end(s: Seq<char>, from: nat) -> Option<nat>
    decreases s.len() - from,
{
    if from >= s.len() {
        None
    } else if is_white_space(s[from as int]) || s[from as int] == '>' {
        Some(from)
    } else {
        find_value_end(s, from + 1)
    }
}

/// The value of attribute `name` in an HTML tag: the attribute is found by
/// the first occurrence of `name` in the lower-cased tag, only white space may
/// stand between it and `=`, and the value is quoted with `'` or `"` or runs
/// up to white space or `>`.
pub open spec fn html_attribute_spec(tag: Seq<char>, name: Seq<char>) -> Option<Seq<char>> {
    match find_seq_from(ascii_lower_seq(tag), name, 0) {
        None => None,
        Some(start) => {
            let after = tag.subrange((start + name.len()) as int, tag.len() as int);
            match find_from(after, '=', 0) {
                None => None,
                Some(eq) => if trim(after.subrange(0, eq as int)).len() > 0 {
                    None
                } else {
                    let value = trim_start(after.subrange((eq + 1) as int, after.len() as int));
                    if value.len() == 0 {
                        None
                    } else if value[0] == '\'' || value[0] == '"' {
                        let body = value.drop_first();
                        match find_from(body, value[0], 0) {
                            Some(end) => Some(body.subrange(0, end as int)),
                            None => None,
                        }
                    } else {
                        match find_value_end(value, 0) {
                            Some(end) => Some(value.subrange(0, end as int)),
                            None => Some(value),
                        }
                    }
                },
            }
        },
    }
}

/// The run of copies of `c` starting at `from`.
fn run_length(s: &Vec<char>, from: usize, c: char) -> (n: usize)
    requires
        from <= s@.len(),
    ensures
        n == leading_run(s@.subrange(from as int, s@.len() as int), c),
        from + n <= s@.len(),
{
    let mut k: usize = from;
    while k < s.len() && s[k] == c
        invariant
            from <= k <= s@.len(),
            forall|j: int| from <= j < k ==> s@[j] == c,
        decreases s@.len() - k,
    {
        k = k + 1;
    }
    proof {
        lemma_leading_run_from(s@, from as int, k as int, c);
    }
    k - from
}

proof fn lemma_leading_run_from(s: Seq<char>, from: int, k: int, c: char)
    requires
        0 <= from <= k <= s.len(),
        forall|j: int| from <= j < k ==> s[j] == c,
        k == s.len() || s[k] != c,
    ensures
        leading_run(s.subrange(from, s.len() as int), c) == k - from,
    decreases k - from,
{
    let rest = s.subrange(from, s.len() as int);
    if from < k {
        assert(rest.drop_first() =~= s.subrange(from + 1, s.len() as int));
        lemma_leading_run_from(s, from + 1, k, c);
    }
}

/// The fence a Markdown line opens or closes (see `fence_marker_spec`).
fn fence_marker_of(line: &Vec<char>) -> (marker: Option<(char, usize)>)
    ensures
        match marker {
            Some((c, n)) => fence_marker_spec(line@) == Some((c, n as nat)),
            None => fence_marker_spec(line@) is None,
        },
{
    let mut start: usize = 0;
    assert(line@.subrange(0, line@.len() as int) =~= line@);
    while start < line.len() && is_white_space_char(line[start])
        invariant
            start <= line@.len(),
            trim_start(line@.subrange(start as int, line@.len() as int)) == trim_start(line@),
        decreases line@.len() - start,
    {
        assert(line@.subrange(start as int, line@.len() as int).drop_first() =~= line@.subrange(
            start + 1,
            line@.len() as int,
        ));
        start = start + 1;
    }
    let ghost rest = line@.subrange(start as int, line@.len() as int);
    assert(trim_start(rest) == rest);
    if start == line.len() {
        return None;
    }
    let c = line[start];
    if c != '`' && c != '~' {
        return None;
    }
    let n = run_length(line, start, c);
    if n >= 3 {
        Some((c, n))
    } else {
        None
    }
}

/// The backtick or tilde fence that a Markdown line opens or closes, with its
/// length; `None` for any other line.
pub fn fence_marker(line: &str) -> (marker: Option<(char, usize)>)
    ensures
        match marker {
            Some((c, n)) => fence_marker_spec(line@) == Some((c, n as nat)),
            None => fence_marker_spec(line@) is None,
        },
{
    fence_marker_of(&chars_of(line))
}

/// Wraps `source` in a Markdown code fence for `language`, the fence one
/// backtick longer than any run of backticks in the source (and at least
/// three long), so the source cannot close it.
pub fn markdown_fenced_source(language: &str, source: &str) -> (fenced: String)
    requires
        source@.len() < usize::MAX,
    ensures
        fenced@ == fenced_source(language@, source@),
{
    let src = chars_of(source);
    let mut longest: usize = 0;
    let mut current: usize = 0;
    let mut i: usize = 0;
    while i < src.len()
        invariant
            i <= src@.len(),
            current == trailing_run(src@.subrange(0, i as int), '`'),
            longest == longest_backtick_run(src@.subrange(0, i as int)),
            current <= i,
            longest <= i,
        decreases src@.len() - i,
    {
        assert(src@.subrange(0, i + 1).drop_last() =~= src@.subrange(0, i as int));
        if src[i] == '`' {
            current = current + 1;
            if current > longest {
                longest = current;
            }
        } else {
            current = 0;
        }
        i = i + 1;
    }
    assert(src@.subrange(0, src@.len() as int) =~= src@);
    let fence_len: usize = if longest + 1 > 3 { longest + 1 } else { 3 };
    let mut out: Vec<char> = Vec::new();
    let mut k: usize = 0;
    while k < fence_len
        invariant
            k <= fence_len,
            out@ == repeated('`', k as nat),
        decreases fence_len - k,
    {
        out.push('`');
        k = k + 1;
        assert(out@ =~= repeated('`', k as nat));
    }
    let fence = out.clone();
    let lang = chars_of(language);
    append(&mut out, &lang);
    out.push('\n');
    append(&mut out, &src);
    out.push('\n');
    append(&mut out, &fence);
    assert(out@ =~= fenced_source(language@, source@));
    string_of(&out)
}

/// Appends the characters of `tail`.
pub fn append(out: &mut Vec<char>, tail: &Vec<char>)
    ensures
        final(out)@ == old(out)@ + tail@,
{
    let mut i: usize = 0;
    while i < tail.len()
        invariant
            i <= tail@.len(),
            out@ == old(out)@ + tail@.subrange(0, i as int),
        decreases tail@.len() - i,
    {
        out.push(tail[i]);
        i = i + 1;
        assert(out@ =~= old(out)@ + tail@.subrange(0, i as int));
    }
    assert(tail@.subrange(0, tail@.len() as int) =~= tail@);
}

/// The characters of `s` from `from` up to (not including) `to`.
pub fn slice_of(s: &Vec<char>, from: usize, to: usize) -> (part: Vec<char>)
    requires
        from <= to <= s@.len(),
    ensures
        part@ == s@.subrange(from as int, to as int),
{
    let mut part: Vec<char> = Vec::new();
    let mut i: usize = from;
    while i < to
        invariant
            from <= i <= to <= s@.len(),
            part@ == s@.subrange(from as int, i as int),
        decreases to - i,
    {
        part.push(s[i]);
        i = i + 1;
        assert(part@ =~= s@.subrange(from as int, i as int));
    }
    part
}

fn placeholder_of(alt: Option<&Vec<char>>) -> (text: Vec<char>)
    ensures
        text@ == image_placeholder_spec(
            match alt {
                Some(a) => Some(a@),
                None => None,
            },
        ),
{
    let empty: Vec<char> = Vec::new();
    let source = match alt {
        Some(a) => a,
        None => &empty,
    };
    let ws = split_words(source);
    let ghost wv = ws@.map_values(|w: Vec<char>| w@);
    let mut joined: Vec<char> = Vec::new();
    let mut i: usize = 0;
    assert(wv.subrange(0, 0) =~= Seq::<Seq<char>>::empty());
    while i < ws.len()
        invariant
            wv == ws@.map_values(|w: Vec<char>| w@),
            i <= ws@.len(),
            joined@ == joined_words(wv.subrange(0, i as int)),
        decreases ws@.len() - i,
    {
        let ghost before = joined@;
        if i > 0 {
            joined.push(' ');
        }
        append(&mut joined, &ws[i]);
        proof {
            let next = wv.subrange(0, i + 1);
            assert(next.drop_last() =~= wv.subrange(0, i as int));
            assert(next.last() == ws@[i as int]@);
            if i == 0 {
                assert(joined@ =~= ws@[0]@);
            }
        }
        i = i + 1;
    }
    assert(wv.subrange(0, wv.len() as int) =~= wv);
    let mut text: Vec<char> = Vec::new();
    let mut k: usize = 0;
    while k < joined.len()
        invariant
            k <= joined@.len(),
            text@ == without_brackets(joined@.subrange(0, k as int)),
        decreases joined@.len() - k,
    {
        let c = joined[k];
        proof {
            let next = joined@.subrange(0, k + 1);
            assert(next.drop_last() =~= joined@.subrange(0, k as int));
            assert(next.last() == c);
            reveal(Seq::filter);
            assert(without_brackets(next) == if is_bracket(c) {
                without_brackets(joined@.subrange(0, k as int))
            } else {
                without_brackets(joined@.subrange(0, k as int)).push(c)
            });
        }
        if c != '[' && c != ']' {
            text.push(c);
        }
        k = k + 1;
    }
    assert(joined@.subrange(0, joined@.len() as int) =~= joined@);
    if text.len() == 0 {
        chars_of("[image not loaded]")
    } else {
        let mut out = chars_of("[image not loaded: ");
        append(&mut out, &text);
        let close = chars_of("]");
        append(&mut out, &close);
        out
    }
}

/// The text that stands in place of an image that is not loaded: its
/// alternative text, if any, with white space collapsed and square brackets
/// removed.
pub fn image_placeholder(alt: Option<&str>) -> (text: String)
    ensures
        text@ == image_placeholder_spec(
            match alt {
                Some(a) => Some(a@),
                None => None,
            },
        ),
{
    match alt {
        Some(a) => {
            let chars = chars_of(a);
            string_of(&placeholder_of(Some(&chars)))
        },
        None => string_of(&placeholder_of(None)),
    }
}

pub proof fn lemma_find_from_shift(h: Seq<char>, c: char, pos: nat, k: nat)
    requires
        pos <= h.len(),
    ensures
        find_from(h.subrange(pos as int, h.len() as int), c, k) == match find_from(h, c, pos + k) {
            Some(p) => Some((p - pos) as nat),
            None => None,
        },
    decreases h.len() - (pos + k),
{
    let rest = h.subrange(pos as int, h.len() as int);
    if pos + k < h.len() && h[(pos + k) as int] != c {
        lemma_find_from_shift(h, c, pos, k + 1);
    }
    lemma_find_from_bounds(h, c, pos + k);
}

/// The first occurrence of `needle` in `hay`.
pub fn find_seq(hay: &Vec<char>, needle: &Vec<char>) -> (found: Option<usize>)
    ensures
        match found {
            Some(p) => find_seq_from(hay@, needle@, 0) == Some(p as nat),
            None => find_seq_from(hay@, needle@, 0) is None,
        },
{
    if needle.len() > hay.len() {
        return None;
    }
    if needle.len() == 0 {
        assert(hay@.subrange(0, 0) =~= needle@);
        return Some(0);
    }
    let last = hay.len() - needle.len();
    let mut i: usize = 0;
    while i <= last
        invariant
            1 <= needle@.len() <= hay@.len(),
            hay@.len() <= usize::MAX,
            last == hay@.len() - needle@.len(),
            i <= last + 1,
            find_seq_from(hay@, needle@, 0) == find_seq_from(hay@, needle@, i as nat),
        decreases last + 1 - i,
    {
        if matches_at(hay, needle, i) {
            return Some(i);
        }
        i = i + 1;
    }
    None
}

/// The position of the first character at or after `from` that is not
/// white space.
fn skip_white_space(s: &Vec<char>, from: usize) -> (start: usize)
    requires
        from <= s@.len(),
    ensures
        from <= start <= s@.len(),
        s@.subrange(start as int, s@.len() as int) == trim_start(s@.subrange(from as int, s@.len() as int)),
{
    let mut start: usize = from;
    while start < s.len() && is_white_space_char(s[start])
        invariant
            from <= start <= s@.len(),
            trim_start(s@.subrange(start as int, s@.len() as int)) == trim_start(
                s@.subrange(from as int, s@.len() as int),
            ),
        decreases s@.len() - start,
    {
        assert(s@.subrange(start as int, s@.len() as int).drop_first() =~= s@.subrange(
            start + 1,
            s@.len() as int,
        ));
        start = start + 1;
    }
    start
}

fn value_end(s: &Vec<char>) -> (end: Option<usize>)
    ensures
        match end {
            Some(e) => find_value_end(s@, 0) == Some(e as nat),
            None => find_value_end(s@, 0) is None,
        },
{
    let mut i: usize = 0;
    while i < s.len()
        invariant
            find_value_end(s@, 0) == find_value_end(s@, i as nat),
        decreases s@.len() - i,
    {
        if is_white_space_char(s[i]) || s[i] == '>' {
            return Some(i);
        }
        i = i + 1;
    }
    None
}

fn html_attribute_of(tag: &Vec<char>, name: &Vec<char>) -> (value: Option<Vec<char>>)
    ensures
        match value {
            Some(v) => html_attribute_spec(tag@, name@) == Some(v@),
            None => html_attribute_spec(tag@, name@) is None,
        },
{
    let tag_len = tag.len();
    let lower = ascii_lowercase(tag);
    let start = match find_seq(&lower, name) {
        Some(p) => p,
        None => return None,
    };
    proof {
        lemma_find_seq_bounds(lower@, name@, 0);
        assert(find_seq_from(lower@, name@, 0) == Some(start as nat));
        assert(start + name@.len() <= lower@.len());
        assert(lower@.len() == tag@.len());
    }
    let after = slice_of(tag, start + name.len(), tag_len);
    let eq = match find_char_from(&after, '=', 0) {
        Some(p) => p,
        None => return None,
    };
    proof {
        lemma_find_from_bounds(after@, '=', 0);
    }
    let gap = slice_of(&after, 0, eq);
    if trimmed(&gap).len() > 0 {
        return None;
    }
    let value_start = skip_white_space(&after, eq + 1);
    let value = slice_of(&after, value_start, after.len());
    if value.len() == 0 {
        return None;
    }
    let quote = value[0];
    if quote == '\'' || quote == '"' {
        let body = slice_of(&value, 1, value.len());
        assert(body@ =~= value@.drop_first());
        match find_char_from(&body, quote, 0) {
            Some(end) => {
                proof {
                    lemma_find_from_bounds(body@, quote, 0);
                }
                Some(slice_of(&body, 0, end))
            },
            None => None,
        }
    } else {
        match value_end(&value) {
            Some(end) => {
                proof {
                    lemma_value_end_bounds(value@, 0);
                }
                Some(slice_of(&value, 0, end))
            },
            None => {
                assert(value@.subrange(0, value@.len() as int) =~= value@);
                Some(value)
            },
        }
    }
}

pub proof fn lemma_find_seq_bounds(hay: Seq<char>, needle: Seq<char>, from: nat)
    ensures
        find_seq_from(hay, needle, from) matches Some(p) ==> from <= p && p + needle.len() <= hay.len(),
    decreases hay.len() + 1 - from,
{
    if from + needle.len() <= hay.len() && hay.subrange(from as int, (from + needle.len()) as int) != needle {
        lemma_find_seq_bounds(hay, needle, from + 1);
    }
}

proof fn lemma_value_end_bounds(s: Seq<char>, from: nat)
    ensures
        find_value_end(s, from) matches Some(p) ==> from <= p < s.len(),
    decreases s.len() - from,
{
    if from < s.len() && !(is_white_space(s[from as int]) || s[from as int] == '>') {
        lemma_value_end_bounds(s, from + 1);
    }
}

/// The value of attribute `name` in an HTML tag (see `html_attribute_spec`).
pub fn html_attribute(tag: &str, name: &str) -> (value: Option<String>)
    ensures
        match value {
            Some(v) => html_attribute_spec(tag@, name@) == Some(v@),
            None => html_attribute_spec(tag@, name@) is None,
        },
{
    let t = chars_of(tag);
    let n = chars_of(name);
    match html_attribute_of(&t, &n) {
        Some(v) => Some(string_of(&v)),
        None => None,
    }
}

/// The text starts an HTML image tag (`<img`, in any case).
pub open spec fn starts_html_image(rest: Seq<char>) -> bool {
    rest.len() >= 4 && ascii_lower_seq(rest.subrange(0, 4)) == seq!['<', 'i', 'm', 'g']
}

/// The positions of `]` and `)` of a Markdown image `![label](target)` that
/// the text starts with.
pub open spec fn markdown_image_at(rest: Seq<char>) -> Option<(nat, nat)> {
    if rest.len() >= 2 && rest[0] == '!' && rest[1] == '[' {
        match find_from(rest, ']', 2) {
            None => None,
            Some(close) => if close + 1 < rest.len() && rest[(close + 1) as int] == '(' {
                match find_from(rest, ')', close + 2) {
                    Some(end) => Some((close, end)),
                    None => None,
                }
            } else {
                None
            },
        }
    } else {
        None
    }
}

pub proof fn lemma_markdown_image_bounds(rest: Seq<char>)
    ensures
        markdown_image_at(rest) matches Some((close, end)) ==> 2 <= close < end < rest.len(),
{
    if rest.len() >= 2 && rest[0] == '!' && rest[1] == '[' {
        lemma_find_from_bounds(rest, ']', 2);
        if let Some(close) = find_from(rest, ']', 2) {
            lemma_find_from_bounds(rest, ')', close + 2);
        }
    }
}

/// The text with its images replaced by placeholders, outside inline code:
/// `ticks` is the length of the backtick run that opened the inline code the
/// text starts in, or 0. A run of backticks of the same length closes it;
/// another run opens inline code of its own length. An HTML `<img ...>` tag,
/// up to the first `>`, becomes the placeholder of its `alt` attribute; a
/// Markdown image `![label](target)` becomes the placeholder of its label.
pub open spec fn omit_images_from(rest: Seq<char>, ticks: nat) -> Seq<char>
    decreases rest.len(),
{
    if rest.len() == 0 {
        Seq::empty()
    } else if rest[0] == '`' {
        let t = leading_run(rest, '`');
        proof {
            lemma_leading_run_bounds(rest, '`');
        }
        rest.subrange(0, t as int) + omit_images_from(
            rest.subrange(t as int, rest.len() as int),
            if ticks == t { 0 } else { t },
        )
    } else if ticks == 0 && starts_html_image(rest) && find_from(rest, '>', 0) is Some {
        let end = find_from(rest, '>', 0)->0;
        proof {
            lemma_find_from_bounds(rest, '>', 0);
        }
        image_placeholder_spec(html_attribute_spec(rest.subrange(0, (end + 1) as int), "alt"@)) + omit_images_from(
            rest.subrange((end + 1) as int, rest.len() as int),
            ticks,
        )
    } else if ticks == 0 && markdown_image_at(rest) is Some {
        let close = (markdown_image_at(rest)->0).0;
        let end = (markdown_image_at(rest)->0).1;
        proof {
            lemma_markdown_image_bounds(rest);
        }
        image_placeholder_spec(Some(rest.subrange(2, close as int))) + omit_images_from(
            rest.subrange((end + 1) as int, rest.len() as int),
            ticks,
        )
    } else {
        seq![rest[0]] + omit_images_from(rest.drop_first(), ticks)
    }
}

fn html_image_at(src: &Vec<char>, pos: usize, alt: &Vec<char>) -> (found: Option<(Vec<char>, usize)>)
    requires
        pos < src@.len(),
        alt@ == "alt"@,
    ensures
        ({
            let rest = src@.subrange(pos as int, src@.len() as int);
            match found {
                Some((text, next)) => starts_html_image(rest) && find_from(rest, '>', 0) == Some(
                    (next - pos - 1) as nat,
                ) && pos < next <= src@.len() && text@ == image_placeholder_spec(
                    html_attribute_spec(rest.subrange(0, next - pos), "alt"@),
                ),
                None => !(starts_html_image(rest) && find_from(rest, '>', 0) is Some),
            }
        }),
{
    let ghost rest = src@.subrange(pos as int, src@.len() as int);
    if src.len() - pos < 4 {
        return None;
    }
    let head = ascii_lowercase(&slice_of(src, pos, pos + 4));
    assert(rest.subrange(0, 4) =~= src@.subrange(pos as int, pos + 4));
    if !(head[0] == '<' && head[1] == 'i' && head[2] == 'm' && head[3] == 'g') {
        assert(ascii_lower_seq(rest.subrange(0, 4))[0] == head@[0]);
        assert(ascii_lower_seq(rest.subrange(0, 4)) != seq!['<', 'i', 'm', 'g']) by {
            let l = ascii_lower_seq(rest.subrange(0, 4));
            if l == seq!['<', 'i', 'm', 'g'] {
                assert(l[0] == '<' && l[1] == 'i' && l[2] == 'm' && l[3] == 'g');
            }
        }
        return None;
    }
    assert(ascii_lower_seq(rest.subrange(0, 4)) =~= seq!['<', 'i', 'm', 'g']);
    proof {
        lemma_find_from_shift(src@, '>', pos as nat, 0);
        lemma_find_from_bounds(src@, '>', pos as nat);
    }
    match find_char_from(src, '>', pos) {
        Some(end) => {
            let tag = slice_of(src, pos, end + 1);
            assert(tag@ =~= rest.subrange(0, end + 1 - pos));
            let text = placeholder_of_attribute(&tag, alt);
            Some((text, end + 1))
        },
        None => None,
    }
}

fn placeholder_of_attribute(tag: &Vec<char>, alt: &Vec<char>) -> (text: Vec<char>)
    requires
        alt@ == "alt"@,
    ensures
        text@ == image_placeholder_spec(html_attribute_spec(tag@, "alt"@)),
{
    match html_attribute_of(tag, alt) {
        Some(v) => placeholder_of(Some(&v)),
        None => placeholder_of(None),
    }
}

fn markdown_image_from(src: &Vec<char>, pos: usize) -> (found: Option<(Vec<char>, usize)>)
    requires
        pos < src@.len(),
    ensures
        ({
            let rest = src@.subrange(pos as int, src@.len() as int);
            match found {
                Some((text, next)) => markdown_image_at(rest) matches Some((close, end)) && next == pos + end + 1
                    && text@ == image_placeholder_spec(Some(rest.subrange(2, close as int))),
                None => markdown_image_at(rest) is None,
            }
        }),
{
    let ghost rest = src@.subrange(pos as int, src@.len() as int);
    let n = src.len();
    if !(n - pos >= 2 && src[pos] == '!' && src[pos + 1] == '[') {
        return None;
    }
    proof {
        lemma_find_from_shift(src@, ']', pos as nat, 2);
        lemma_find_from_bounds(src@, ']', (pos + 2) as nat);
    }
    let close = match find_char_from(src, ']', pos + 2) {
        Some(c) => c,
        None => return None,
    };
    if !(close + 1 < n && src[close + 1] == '(') {
        return None;
    }
    proof {
        lemma_find_from_shift(src@, ')', pos as nat, (close - pos + 2) as nat);
        lemma_find_from_bounds(src@, ')', (close + 2) as nat);
    }
    let end = match find_char_from(src, ')', close + 2) {
        Some(e) => e,
        None => return None,
    };
    let label = slice_of(src, pos + 2, close);
    assert(label@ =~= rest.subrange(2, close - pos));
    let text = placeholder_of(Some(&label));
    Some((text, end + 1))
}

fn fragment_without_images(src: &Vec<char>) -> (out: Vec<char>)
    ensures
        out@ == omit_images_from(src@, 0),
{
    let alt = chars_of("alt");
    let mut out: Vec<char> = Vec::new();
    let mut pos: usize = 0;
    let mut ticks: usize = 0;
    assert(src@.subrange(0, src@.len() as int) =~= src@);
    while pos < src.len()
        invariant
            pos <= src@.len(),
            alt@ == "alt"@,
            out@ + omit_images_from(src@.subrange(pos as int, src@.len() as int), ticks as nat)
                == omit_images_from(src@, 0),
        decreases src@.len() - pos,
    {
        let ghost rest = src@.subrange(pos as int, src@.len() as int);
        let ghost before = out@;
        let ghost old_ticks = ticks as nat;
        assert(rest[0] == src@[pos as int]);
        if src[pos] == '`' {
            let t = run_length(src, pos, '`');
            proof {
                lemma_leading_run_bounds(rest, '`');
            }
            let piece = slice_of(src, pos, pos + t);
            assert(piece@ =~= rest.subrange(0, t as int));
            append(&mut out, &piece);
            ticks = if ticks == t { 0 } else { t };
            pos = pos + t;
            proof {
                let next = src@.subrange(pos as int, src@.len() as int);
                assert(rest.subrange(t as int, rest.len() as int) =~= next);
                assert(omit_images_from(rest, old_ticks) == piece@ + omit_images_from(next, ticks as nat));
                assert(before + piece@ + omit_images_from(next, ticks as nat) =~= before + (piece@
                    + omit_images_from(next, ticks as nat)));
            }
        } else {
            let html = if ticks == 0 { html_image_at(src, pos, &alt) } else { None };
            match html {
                Some((text, next)) => {
                    append(&mut out, &text);
                    pos = next;
                    proof {
                        let after = src@.subrange(pos as int, src@.len() as int);
                        let end = find_from(rest, '>', 0)->0;
                        assert(rest.subrange((end + 1) as int, rest.len() as int) =~= after);
                        assert(omit_images_from(rest, old_ticks) == text@ + omit_images_from(after, ticks as nat));
                        assert(before + text@ + omit_images_from(after, ticks as nat) =~= before + (text@
                            + omit_images_from(after, ticks as nat)));
                    }
                },
                None => {
                    let image = if ticks == 0 { markdown_image_from(src, pos) } else { None };
                    match image {
                        Some((text, next)) => {
                            proof {
                                lemma_markdown_image_bounds(rest);
                            }
                            append(&mut out, &text);
                            pos = next;
                            proof {
                                let after = src@.subrange(pos as int, src@.len() as int);
                                let end = (markdown_image_at(rest)->0).1;
                                assert(rest.subrange((end + 1) as int, rest.len() as int) =~= after);
                                assert(omit_images_from(rest, old_ticks) == text@ + omit_images_from(after, ticks as nat));
                                assert(before + text@ + omit_images_from(after, ticks as nat) =~= before + (text@
                                    + omit_images_from(after, ticks as nat)));
                            }
                        },
                        None => {
                            let c = src[pos];
                            out.push(c);
                            pos = pos + 1;
                            proof {
                                let after = src@.subrange(pos as int, src@.len() as int);
                                assert(rest.drop_first() =~= after);
                                assert(omit_images_from(rest, old_ticks) == seq![c] + omit_images_from(after, ticks as nat));
                                assert(before.push(c) + omit_images_from(after, ticks as nat) =~= before + (seq![c]
                                    + omit_images_from(after, ticks as nat)));
                            }
                        },
                    }
                },
            }
        }
    }
    out
}

/// The images of a Markdown fragment replaced by placeholders (see
/// `omit_images_from`).
pub fn omit_images_in_fragment(source: &str) -> (omitted: String)
    ensures
        omitted@ == omit_images_from(source@, 0),
{
    string_of(&fragment_without_images(&chars_of(source)))
}

/// The lines that follow a line `cur` still being read, each with its line
/// feed; the last line may lack one.
pub open spec fn lines_from(s: Seq<char>, cur: Seq<char>) -> Seq<Seq<char>>
    decreases s.len(),
{
    if s.len() == 0 {
        if cur.len() > 0 {
            seq![cur]
        } else {
            Seq::empty()
        }
    } else if s[0] == '\n' {
        seq![cur.push('\n')] + lines_from(s.drop_first(), Seq::empty())
    } else {
        lines_from(s.drop_first(), cur.push(s[0]))
    }
}

/// The lines of the text, each with its line feed.
pub open spec fn split_lines(s: Seq<char>) -> Seq<Seq<char>> {
    lines_from(s, Seq::empty())
}

/// A line without its line feed.
pub open spec fn line_content(line: Seq<char>) -> Seq<char> {
    if line.len() > 0 && line.last() == '\n' {
        line.drop_last()
    } else {
        line
    }
}

/// The lines with their images replaced by placeholders, outside fenced code
/// blocks; `fence` is the fence of the block the lines start in. A fence
/// line opens a block; inside one, a fence line of the same character and at
/// least the same length closes it. Lines inside a block, and fence lines,
/// stay as they are.
pub open spec fn omit_lines(lines: Seq<Seq<char>>, fence: Option<(char, nat)>) -> Seq<char>
    decreases lines.len(),
{
    if lines.len() == 0 {
        Seq::empty()
    } else {
        let line = lines[0];
        let marker = fence_marker_spec(line_content(line));
        match fence {
            Some((fence_char, fence_len)) => line + omit_lines(
                lines.drop_first(),
                if marker matches Some((c, n)) && c == fence_char && n >= fence_len {
                    None
                } else {
                    fence
                },
            ),
            None => match marker {
                Some(m) => line + omit_lines(lines.drop_first(), Some(m)),
                None => omit_images_from(line, 0) + omit_lines(lines.drop_first(), None),
            },
        }
    }
}

/// Markdown with its images replaced by placeholders, except in code.
pub open spec fn omit_markdown_images_spec(source: Seq<char>) -> Seq<char> {
    omit_lines(split_lines(source), None)
}

pub fn lines_of(src: &Vec<char>) -> (lines: Vec<Vec<char>>)
    ensures
        lines@.map_values(|l: Vec<char>| l@) == split_lines(src@),
{
    let mut lines: Vec<Vec<char>> = Vec::new();
    let mut cur: Vec<char> = Vec::new();
    let mut i: usize = 0;
    assert(src@.subrange(0, src@.len() as int) =~= src@);
    while i < src.len()
        invariant
            i <= src@.len(),
            lines@.map_values(|l: Vec<char>| l@) + lines_from(src@.subrange(i as int, src@.len() as int), cur@)
                == split_lines(src@),
        decreases src@.len() - i,
    {
        let ghost rest = src@.subrange(i as int, src@.len() as int);
        let ghost l0 = lines@.map_values(|l: Vec<char>| l@);
        assert(rest.drop_first() =~= src@.subrange(i + 1, src@.len() as int));
        assert(rest[0] == src@[i as int]);
        let c = src[i];
        cur.push(c);
        if c == '\n' {
            let ghost line = cur@;
            let mut line_chars: Vec<char> = Vec::new();
            std::mem::swap(&mut line_chars, &mut cur);
            lines.push(line_chars);
            assert(lines@.map_values(|l: Vec<char>| l@) =~= l0 + seq![line]);
            assert(l0 + seq![line] + lines_from(rest.drop_first(), Seq::empty()) =~= l0 + (seq![line]
                + lines_from(rest.drop_first(), Seq::empty())));
            assert(cur@ =~= Seq::<char>::empty());
        }
        i = i + 1;
    }
    let ghost l0 = lines@.map_values(|l: Vec<char>| l@);
    if cur.len() > 0 {
        let ghost line = cur@;
        lines.push(cur);
        assert(lines@.map_values(|l: Vec<char>| l@) =~= l0 + seq![line]);
    } else {
        assert(l0 + Seq::<Seq<char>>::empty() =~= l0);
    }
    lines
}

pub open spec fn fence_view(fence: Option<(char, usize)>) -> Option<(char, nat)> {
    match fence {
        Some((c, n)) => Some((c, n as nat)),
        None => None,
    }
}

/// Replaces the images of Markdown text with placeholders, so that nothing
/// is fetched to show it; images inside inline code and fenced code blocks
/// stay as they are (see `omit_markdown_images_spec`).
pub fn omit_markdown_images(source: &str) -> (omitted: String)
    ensures
        omitted@ == omit_markdown_images_spec(source@),
{
    let src = chars_of(source);
    let lines = lines_of(&src);
    let ghost lv = lines@.map_values(|l: Vec<char>| l@);
    let mut out: Vec<char> = Vec::new();
    let mut fence: Option<(char, usize)> = None;
    let mut i: usize = 0;
    assert(lv.subrange(0, lv.len() as int) =~= lv);
    while i < lines.len()
        invariant
            lv == lines@.map_values(|l: Vec<char>| l@),
            lv == split_lines(source@),
            i <= lines@.len(),
            out@ + omit_lines(lv.subrange(i as int, lv.len() as int), fence_view(fence)) == omit_lines(lv, None),
        decreases lines@.len() - i,
    {
        let ghost rest = lv.subrange(i as int, lv.len() as int);
        let ghost before = out@;
        let ghost old_fence = fence_view(fence);
        let line = &lines[i];
        assert(rest[0] == line@);
        assert(rest.drop_first() =~= lv.subrange(i + 1, lv.len() as int));
        let content = if line.len() > 0 && line[line.len() - 1] == '\n' {
            slice_of(line, 0, line.len() - 1)
        } else {
            slice_of(line, 0, line.len())
        };
        assert(content@ =~= line_content(line@));
        let marker = fence_marker_of(&content);
        let piece: Vec<char> = match fence {
            Some((fence_char, fence_len)) => {
                let closes = match marker {
                    Some((c, n)) => c == fence_char && n >= fence_len,
                    None => false,
                };
                if closes {
                    fence = None;
                }
                slice_of(line, 0, line.len())
            },
            None => match marker {
                Some(m) => {
                    fence = Some(m);
                    slice_of(line, 0, line.len())
                },
                None => fragment_without_images(line),
            },
        };
        append(&mut out, &piece);
        i = i + 1;
        proof {
            let after = lv.subrange(i as int, lv.len() as int);
            assert(line@.subrange(0, line@.len() as int) =~= line@);
            assert(omit_lines(rest, old_fence) == piece@ + omit_lines(after, fence_view(fence)));
            assert(before + piece@ + omit_lines(after, fence_view(fence)) =~= before + (piece@
                + omit_lines(after, fence_view(fence))));
        }
    }
    string_of(&out)
}

/// The language a file extension names, compared in ASCII lower case; "Text"
/// for any other.
pub open spec fn language_for_extension_spec(extension: Seq<char>) -> Seq<char> {
    let e = ascii_lower_seq(extension);
    if e == "rs"@ {
        "Rust"@
    } else if e == "js"@ || e == "jsx"@ {
        "JavaScript"@
    } else if e == "ts"@ || e == "tsx"@ {
        "TypeScript"@
    } else if e == "py"@ {
        "Python"@
    } else if e == "go"@ {
        "Go"@
    } else if e == "json"@ {
        "JSON"@
    } else if e == "toml"@ {
        "TOML"@
    } else if e == "yaml"@ || e == "yml"@ {
        "YAML"@
    } else if e == "md"@ || e == "markdown"@ {
        "Markdown"@
    } else if e == "html"@ || e == "htm"@ {
        "HTML"@
    } else if e == "css"@ || e == "scss"@ {
        "CSS"@
    } else {
        "Text"@
    }
}

/// The language of a file extension (see `language_for_extension_spec`).
pub fn language_for_extension(extension: &str) -> (language: &'static str)
    ensures
        language@ == language_for_extension_spec(extension@),
{
    let e = ascii_lowercase(&chars_of(extension));
    if chars_equal_str(&e, "rs") {
        "Rust"
    } else if chars_equal_str(&e, "js") || chars_equal_str(&e, "jsx") {
        "JavaScript"
    } else if chars_equal_str(&e, "ts") || chars_equal_str(&e, "tsx") {
        "TypeScript"
    } else if chars_equal_str(&e, "py") {
        "Python"
    } else if chars_equal_str(&e, "go") {
        "Go"
    } else if chars_equal_str(&e, "json") {
        "JSON"
    } else if chars_equal_str(&e, "toml") {
        "TOML"
    } else if chars_equal_str(&e, "yaml") || chars_equal_str(&e, "yml") {
        "YAML"
    } else if chars_equal_str(&e, "md") || chars_equal_str(&e, "markdown") {
        "Markdown"
    } else if chars_equal_str(&e, "html") || chars_equal_str(&e, "htm") {
        "HTML"
    } else if chars_equal_str(&e, "css") || chars_equal_str(&e, "scss") {
        "CSS"
    } else {
        "Text"
    }
}

/// `std::path::Path::extension` of the path, as a string: the part of the
/// file name after its last `.`. It holds no `.` and is a piece of the
/// path; for a path that reads the same on every platform
/// (`plain_path`) it is the extension `extension_of` gives, as the
/// documentation of `Path::extension` describes it. For other paths the
/// file name depends on the platform's separators and prefixes, which is
/// left unsaid.
#[verifier::external_body]
fn path_extension(path: &str) -> (extension: Option<String>)
    ensures
        extension matches Some(e) ==> !e@.contains('.') && contains_seq(path@, e@),
        plain_path(path@) ==> match extension {
            Some(e) => extension_of(path@) == Some(e@),
            None => extension_of(path@) is None,
        },
{
    std::path::Path::new(path).extension().and_then(|e| e.to_str()).map(|e| e.to_string())
}

/// The language shown for a file, from its extension: the language that
/// `language_for_extension` gives for the extension, or for "" when the
/// path has none. For a plain path (`plain_path`) that extension is the one
/// `extension_of` gives: `src/main.rs` is Rust, `Makefile` is Text.
pub fn language_for_path(path: &str) -> (language: &'static str)
    ensures
        exists|e: Seq<char>|
            !e.contains('.') && contains_seq(path@, e) && language@ == language_for_extension_spec(e),
        plain_path(path@) ==> language@ == language_for_extension_spec(
            match extension_of(path@) {
                Some(e) => e,
                None => ""@,
            },
        ),
{
    match path_extension(path) {
        Some(e) => language_for_extension(e.as_str()),
        None => {
            let empty = "";
            let language = language_for_extension(empty);
            proof {
                let ev: Seq<char> = empty@;
                assert(path@.subrange(0, 0) =~= ev) by {
                    reveal_strlit("");
                }
                assert(crate::chars::occurs_at(path@, ev, 0));
                reveal_strlit("");
                assert(!ev.contains('.'));
            }
            language
        },
    }
}

proof fn lemma_longest_covers_every_run(s: Seq<char>, i: int)
    requires
        0 <= i <= s.len(),
    ensures
        trailing_run(s.subrange(0, i), '`') <= longest_backtick_run(s),
    decreases s.len(),
{
    if i < s.len() {
        assert(s.drop_last().subrange(0, i) =~= s.subrange(0, i));
        lemma_longest_covers_every_run(s.drop_last(), i);
    } else {
        assert(s.subrange(0, i) =~= s);
    }
}

/// A fenced block cannot be closed from inside: its fence is at least three
/// backticks long and longer than every run of backticks in the source, and
/// the block is the fence, the language, a line feed, the source, a line
/// feed and the fence again.
pub proof fn law_fence_outgrows_backtick_runs(language: Seq<char>, source: Seq<char>)
    ensures
        fence_length(source) >= 3,
        forall|i: int| 0 <= i <= source.len() ==> trailing_run(#[trigger] source.subrange(0, i), '`') < fence_length(source),
        fenced_source(language, source) == repeated('`', fence_length(source)) + language + seq!['\n'] + source
            + seq!['\n'] + repeated('`', fence_length(source)),
{
    assert forall|i: int| 0 <= i <= source.len() implies trailing_run(#[trigger] source.subrange(0, i), '`')
        < fence_length(source) by {
        lemma_longest_covers_every_run(source, i);
    }
}

proof fn lemma_plain_fragment_unchanged(rest: Seq<char>, ticks: nat)
    requires
        !rest.contains('!'),
        !rest.contains('<'),
    ensures
        omit_images_from(rest, ticks) == rest,
    decreases rest.len(),
{
    if rest.len() > 0 {
        assert(rest[0] != '!' && rest[0] != '<') by {
            assert(rest.contains(rest[0]));
        }
        if rest[0] == '`' {
            lemma_leading_run_bounds(rest, '`');
            let t = leading_run(rest, '`');
            let tail = rest.subrange(t as int, rest.len() as int);
            assert forall|c: char| (c == '!' || c == '<') implies !tail.contains(c) by {
                if tail.contains(c) {
                    let k = choose|k: int| 0 <= k < tail.len() && tail[k] == c;
                    assert(rest[k + t] == c);
                    assert(rest.contains(c));
                }
            }
            lemma_plain_fragment_unchanged(tail, if ticks == t { 0 } else { t });
            assert(rest.subrange(0, t as int) + tail =~= rest);
        } else {
            assert(!starts_html_image(rest)) by {
                if starts_html_image(rest) {
                    assert(ascii_lower_seq(rest.subrange(0, 4))[0] == '<');
                }
            }
            let tail = rest.drop_first();
            assert forall|c: char| (c == '!' || c == '<') implies !tail.contains(c) by {
                if tail.contains(c) {
                    let k = choose|k: int| 0 <= k < tail.len() && tail[k] == c;
                    assert(rest[k + 1] == c);
                    assert(rest.contains(c));
                }
            }
            lemma_plain_fragment_unchanged(tail, ticks);
            assert(seq![rest[0]] + tail =~= rest);
        }
    }
}

proof fn lemma_plain_lines_unchanged(s: Seq<char>, cur: Seq<char>, fence: Option<(char, nat)>)
    requires
        !s.contains('!'),
        !s.contains('<'),
        !cur.contains('!'),
        !cur.contains('<'),
    ensures
        omit_lines(lines_from(s, cur), fence) == cur + s,
    decreases s.len(),
{
    if s.len() == 0 {
        if cur.len() > 0 {
            lemma_plain_fragment_unchanged(cur, 0);
            let lines = seq![cur];
            assert(lines[0] == cur);
            assert(lines.drop_first() =~= Seq::<Seq<char>>::empty());
            assert(forall|f: Option<(char, nat)>| #[trigger] omit_lines(Seq::<Seq<char>>::empty(), f) == Seq::<char>::empty());
            assert(cur + Seq::<char>::empty() =~= cur);
            assert(lines_from(s, cur) == lines);
            let marker = fence_marker_spec(line_content(cur));
            match fence {
                Some((fc, fl)) => {
                    assert(omit_lines(lines, fence) == cur + omit_lines(lines.drop_first(), if marker matches Some((c, n)) && c == fc && n >= fl { None } else { fence }));
                },
                None => {
                    match marker {
                        Some(m) => {
                            assert(omit_lines(lines, fence) == cur + omit_lines(lines.drop_first(), Some(m)));
                        },
                        None => {
                            assert(omit_lines(lines, fence) == omit_images_from(cur, 0) + omit_lines(lines.drop_first(), None));
                        },
                    }
                },
            }
        } else {
            assert(cur =~= Seq::<char>::empty());
        }
        assert(cur + s =~= cur);
        assert(omit_lines(lines_from(s, cur), fence) == cur);
    } else {
        let tail = s.drop_first();
        assert(s.contains(s[0]));
        assert forall|c: char| (c == '!' || c == '<') implies !tail.contains(c) by {
            if tail.contains(c) {
                let k = choose|k: int| 0 <= k < tail.len() && tail[k] == c;
                assert(s[k + 1] == c);
                assert(s.contains(c));
            }
        }
        let next = cur.push(s[0]);
        assert forall|c: char| (c == '!' || c == '<') implies !next.contains(c) by {
            if next.contains(c) {
                let k = choose|k: int| 0 <= k < next.len() && next[k] == c;
                if k < cur.len() {
                    assert(cur[k] == c);
                    assert(cur.contains(c));
                }
            }
        }
        if s[0] == '\n' {
            let lines = seq![next] + lines_from(tail, Seq::empty());
            assert(lines[0] == next);
            assert(lines.drop_first() =~= lines_from(tail, Seq::empty()));
            lemma_plain_fragment_unchanged(next, 0);
            let marker = fence_marker_spec(line_content(next));
            let after_fence = match fence {
                Some((fc, fl)) => if marker matches Some((c, n)) && c == fc && n >= fl {
                    None
                } else {
                    fence
                },
                None => marker,
            };
            lemma_plain_lines_unchanged(tail, Seq::empty(), after_fence);
            assert(omit_lines(lines, fence) == next + omit_lines(lines_from(tail, Seq::empty()), after_fence));
            assert(Seq::<char>::empty() + tail =~= tail);
            assert(next + tail =~= cur + s);
            assert(lines_from(s, cur) == lines);
        } else {
            lemma_plain_lines_unchanged(tail, next, fence);
            assert(next + tail =~= cur + s);
            assert(lines_from(s, cur) == lines_from(tail, next));
        }
    }
}

/// Markdown without `!` and `<` holds no image syntax, and comes back
/// unchanged.
pub proof fn law_text_without_image_syntax_is_unchanged(source: Seq<char>)
    requires
        !source.contains('!'),
        !source.contains('<'),
    ensures
        omit_markdown_images_spec(source) == source,
{
    lemma_plain_lines_unchanged(source, Seq::empty(), None);
    assert(Seq::<char>::empty() + source =~= source);
}

/// Each listed extension, in any ASCII case, names its language: rs Rust;
/// js and jsx JavaScript; ts and tsx TypeScript; py Python; go Go; json
/// JSON; toml TOML; yaml and yml YAML; md and markdown Markdown; html and
/// htm HTML; css and scss CSS. Any other extension is plain text.
pub proof fn law_extensions_name_their_languages(extension: Seq<char>)
    ensures
        ascii_lower_seq(extension) == "rs"@ ==> language_for_extension_spec(extension) == "Rust"@,
        ascii_lower_seq(extension) == "js"@ || ascii_lower_seq(extension) == "jsx"@ ==> language_for_extension_spec(extension) == "JavaScript"@,
        ascii_lower_seq(extension) == "ts"@ || ascii_lower_seq(extension) == "tsx"@ ==> language_for_extension_spec(extension) == "TypeScript"@,
        ascii_lower_seq(extension) == "py"@ ==> language_for_extension_spec(extension) == "Python"@,
        ascii_lower_seq(extension) == "go"@ ==> language_for_extension_spec(extension) == "Go"@,
        ascii_lower_seq(extension) == "json"@ ==> language_for_extension_spec(extension) == "JSON"@,
        ascii_lower_seq(extension) == "toml"@ ==> language_for_extension_spec(extension) == "TOML"@,
        ascii_lower_seq(extension) == "yaml"@ || ascii_lower_seq(extension) == "yml"@ ==> language_for_extension_spec(extension) == "YAML"@,
        ascii_lower_seq(extension) == "md"@ || ascii_lower_seq(extension) == "markdown"@ ==> language_for_extension_spec(extension) == "Markdown"@,
        ascii_lower_seq(extension) == "html"@ || ascii_lower_seq(extension) == "htm"@ ==> language_for_extension_spec(extension) == "HTML"@,
        ascii_lower_seq(extension) == "css"@ || ascii_lower_seq(extension) == "scss"@ ==> language_for_extension_spec(extension) == "CSS"@,
        ascii_lower_seq(extension) != "rs"@ && ascii_lower_seq(extension) != "js"@ && ascii_lower_seq(extension) != "jsx"@ && ascii_lower_seq(extension) != "ts"@ && ascii_lower_seq(extension) != "tsx"@ && ascii_lower_seq(extension) != "py"@ && ascii_lower_seq(extension) != "go"@ && ascii_lower_seq(extension) != "json"@ && ascii_lower_seq(extension) != "toml"@ && ascii_lower_seq(extension) != "yaml"@ && ascii_lower_seq(extension) != "yml"@ && ascii_lower_seq(extension) != "md"@ && ascii_lower_seq(extension) != "markdown"@ && ascii_lower_seq(extension) != "html"@ && ascii_lower_seq(extension) != "htm"@ && ascii_lower_seq(extension) != "css"@ && ascii_lower_seq(extension) != "scss"@
            ==> language_for_extension_spec(extension) == "Text"@,
{
    assert(ascii_lower_seq(extension) == "rs"@ ==> language_for_extension_spec(extension) == "Rust"@) by {
        reveal_strlit("rs");
    }
    assert(ascii_lower_seq(extension) == "js"@ ==> language_for_extension_spec(extension) == "JavaScript"@) by {
        reveal_strlit("js");
        reveal_strlit("rs");
        assert("js"@[0] != "rs"@[0]);
    }
    assert(ascii_lower_seq(extension) == "jsx"@ ==> language_for_extension_spec(extension) == "JavaScript"@) by {
        reveal_strlit("jsx");
        reveal_strlit("rs");
        assert("jsx"@.len() != "rs"@.len());
    }
    assert(ascii_lower_seq(extension) == "ts"@ ==> language_for_extension_spec(extension) == "TypeScript"@) by {
        reveal_strlit("ts");
        reveal_strlit("rs");
        reveal_strlit("js");
        reveal_strlit("jsx");
        assert("ts"@[0] != "rs"@[0]);
        assert("ts"@[0] != "js"@[0]);
        assert("ts"@.len() != "jsx"@.len());
    }
    assert(ascii_lower_seq(extension) == "tsx"@ ==> language_for_extension_spec(extension) == "TypeScript"@) by {
        reveal_strlit("tsx");
        reveal_strlit("rs");
        reveal_strlit("js");
        reveal_strlit("jsx");
        assert("tsx"@.len() != "rs"@.len());
        assert("tsx"@.len() != "js"@.len());
        assert("tsx"@[0] != "jsx"@[0]);
    }
    assert(ascii_lower_seq(extension) == "py"@ ==> language_for_extension_spec(extension) == "Python"@) by {
        reveal_strlit("py");
        reveal_strlit("rs");
        reveal_strlit("js");
        reveal_strlit("jsx");
        reveal_strlit("ts");
        reveal_strlit("tsx");
        assert("py"@[0] != "rs"@[0]);
        assert("py"@[0] != "js"@[0]);
        assert("py"@.len() != "jsx"@.len());
        assert("py"@[0] != "ts"@[0]);
        assert("py"@.len() != "tsx"@.len());
    }
    assert(ascii_lower_seq(extension) == "go"@ ==> language_for_extension_spec(extension) == "Go"@) by {
        reveal_strlit("go");
        reveal_strlit("rs");
        reveal_strlit("js");
        reveal_strlit("jsx");
        reveal_strlit("ts");
        reveal_strlit("tsx");
        reveal_strlit("py");
        assert("go"@[0] != "rs"@[0]);
        assert("go"@[0] != "js"@[0]);
        assert("go"@.len() != "jsx"@.len());
        assert("go"@[0] != "ts"@[0]);
        assert("go"@.len() != "tsx"@.len());
        assert("go"@[0] != "py"@[0]);
    }
    assert(ascii_lower_seq(extension) == "json"@ ==> language_for_extension_spec(extension) == "JSON"@) by {
        reveal_strlit("json");
        reveal_strlit("rs");
        reveal_strlit("js");
        reveal_strlit("jsx");
        reveal_strlit("ts");
        reveal_strlit("tsx");
        reveal_strlit("py");
        reveal_strlit("go");
        assert("json"@.len() != "rs"@.len());
        assert("json"@.len() != "js"@.len());
        assert("json"@.len() != "jsx"@.len());
        assert("json"@.len() != "ts"@.len());
        assert("json"@.len() != "tsx"@.len());
        assert("json"@.len() != "py"@.len());
        assert("json"@.len() != "go"@.len());
    }
    assert(ascii_lower_seq(extension) == "toml"@ ==> language_for_extension_spec(extension) == "TOML"@) by {
        reveal_strlit("toml");
        reveal_strlit("rs");
        reveal_strlit("js");
        reveal_strlit("jsx");
        reveal_strlit("ts");
        reveal_strlit("tsx");
        reveal_strlit("py");
        reveal_strlit("go");
        reveal_strlit("json");
        assert("toml"@.len() != "rs"@.len());
        assert("toml"@.len() != "js"@.len());
        assert("toml"@.len() != "jsx"@.len());
        assert("toml"@.len() != "ts"@.len());
        assert("toml"@.len() != "tsx"@.len());
        assert("toml"@.len() != "py"@.len());
        assert("toml"@.len() != "go"@.len());
        assert("toml"@[0] != "json"@[0]);
    }
    assert(ascii_lower_seq(extension) == "yaml"@ ==> language_for_extension_spec(extension) == "YAML"@) by {
        reveal_strlit("yaml");
        reveal_strlit("rs");
        reveal_strlit("js");
        reveal_strlit("jsx");
        reveal_strlit("ts");
        reveal_strlit("tsx");
        reveal_strlit("py");
        reveal_strlit("go");
        reveal_strlit("json");
        reveal_strlit("toml");
        assert("yaml"@.len() != "rs"@.len());
        assert("yaml"@.len() != "js"@.len());
        assert("yaml"@.len() != "jsx"@.len());
        assert("yaml"@.len() != "ts"@.len());
        assert("yaml"@.len() != "tsx"@.len());
        assert("yaml"@.len() != "py"@.len());
        assert("yaml"@.len() != "go"@.len());
        assert("yaml"@[0] != "json"@[0]);
        assert("yaml"@[0] != "toml"@[0]);
    }
    assert(ascii_lower_seq(extension) == "yml"@ ==> language_for_extension_spec(extension) == "YAML"@) by {
        reveal_strlit("yml");
        reveal_strlit("rs");
        reveal_strlit("js");
        reveal_strlit("jsx");
        reveal_strlit("ts");
        reveal_strlit("tsx");
        reveal_strlit("py");
        reveal_strlit("go");
        reveal_strlit("json");
        reveal_strlit("toml");
        assert("yml"@.len() != "rs"@.len());
        assert("yml"@.len() != "js"@.len());
        assert("yml"@[0] != "jsx"@[0]);
        assert("yml"@.len() != "ts"@.len());
        assert("yml"@[0] != "tsx"@[0]);
        assert("yml"@.len() != "py"@.len());
        assert("yml"@.len() != "go"@.len());
        assert("yml"@.len() != "json"@.len());
        assert("yml"@.len() != "toml"@.len());
    }
    assert(ascii_lower_seq(extension) == "md"@ ==> language_for_extension_spec(extension) == "Markdown"@) by {
        reveal_strlit("md");
        reveal_strlit("rs");
        reveal_strlit("js");
        reveal_strlit("jsx");
        reveal_strlit("ts");
        reveal_strlit("tsx");
        reveal_strlit("py");
        reveal_strlit("go");
        reveal_strlit("json");
        reveal_strlit("toml");
        reveal_strlit("yaml");
        reveal_strlit("yml");
        assert("md"@[0] != "rs"@[0]);
        assert("md"@[0] != "js"@[0]);
        assert("md"@.len() != "jsx"@.len());
        assert("md"@[0] != "ts"@[0]);
        assert("md"@.len() != "tsx"@.len());
        assert("md"@[0] != "py"@[0]);
        assert("md"@[0] != "go"@[0]);
        assert("md"@.len() != "json"@.len());
        assert("md"@.len() != "toml"@.len());
        assert("md"@.len() != "yaml"@.len());
        assert("md"@.len() != "yml"@.len());
    }
    assert(ascii_lower_seq(extension) == "markdown"@ ==> language_for_extension_spec(extension) == "Markdown"@) by {
        reveal_strlit("markdown");
        reveal_strlit("rs");
        reveal_strlit("js");
        reveal_strlit("jsx");
        reveal_strlit("ts");
        reveal_strlit("tsx");
        reveal_strlit("py");
        reveal_strlit("go");
        reveal_strlit("json");
        reveal_strlit("toml");
        reveal_strlit("yaml");
        reveal_strlit("yml");
        assert("markdown"@.len() != "rs"@.len());
        assert("markdown"@.len() != "js"@.len());
        assert("markdown"@.len() != "jsx"@.len());
        assert("markdown"@.len() != "ts"@.len());
        assert("markdown"@.len() != "tsx"@.len());
        assert("markdown"@.len() != "py"@.len());
        assert("markdown"@.len() != "go"@.len());
        assert("markdown"@.len() != "json"@.len());
        assert("markdown"@.len() != "toml"@.len());
        assert("markdown"@.len() != "yaml"@.len());
        assert("markdown"@.len() != "yml"@.len());
    }
    assert(ascii_lower_seq(extension) == "html"@ ==> language_for_extension_spec(extension) == "HTML"@) by {
        reveal_strlit("html");
        reveal_strlit("rs");
        reveal_strlit("js");
        reveal_strlit("jsx");
        reveal_strlit("ts");
        reveal_strlit("tsx");
        reveal_strlit("py");
        reveal_strlit("go");
        reveal_strlit("json");
        reveal_strlit("toml");
        reveal_strlit("yaml");
        reveal_strlit("yml");
        reveal_strlit("md");
        reveal_strlit("markdown");
        assert("html"@.len() != "rs"@.len());
        assert("html"@.len() != "js"@.len());
        assert("html"@.len() != "jsx"@.len());
        assert("html"@.len() != "ts"@.len());
        assert("html"@.len() != "tsx"@.len());
        assert("html"@.len() != "py"@.len());
        assert("html"@.len() != "go"@.len());
        assert("html"@[0] != "json"@[0]);
        assert("html"@[0] != "toml"@[0]);
        assert("html"@[0] != "yaml"@[0]);
        assert("html"@.len() != "yml"@.len());
        assert("html"@.len() != "md"@.len());
        assert("html"@.len() != "markdown"@.len());
    }
    assert(ascii_lower_seq(extension) == "htm"@ ==> language_for_extension_spec(extension) == "HTML"@) by {
        reveal_strlit("htm");
        reveal_strlit("rs");
        reveal_strlit("js");
        reveal_strlit("jsx");
        reveal_strlit("ts");
        reveal_strlit("tsx");
        reveal_strlit("py");
        reveal_strlit("go");
        reveal_strlit("json");
        reveal_strlit("toml");
        reveal_strlit("yaml");
        reveal_strlit("yml");
        reveal_strlit("md");
        reveal_strlit("markdown");
        assert("htm"@.len() != "rs"@.len());
        assert("htm"@.len() != "js"@.len());
        assert("htm"@[0] != "jsx"@[0]);
        assert("htm"@.len() != "ts"@.len());
        assert("htm"@[0] != "tsx"@[0]);
        assert("htm"@.len() != "py"@.len());
        assert("htm"@.len() != "go"@.len());
        assert("htm"@.len() != "json"@.len());
        assert("htm"@.len() != "toml"@.len());
        assert("htm"@.len() != "yaml"@.len());
        assert("htm"@[0] != "yml"@[0]);
        assert("htm"@.len() != "md"@.len());
        assert("htm"@.len() != "markdown"@.len());
    }
    assert(ascii_lower_seq(extension) == "css"@ ==> language_for_extension_spec(extension) == "CSS"@) by {
        reveal_strlit("css");
        reveal_strlit("rs");
        reveal_strlit("js");
        reveal_strlit("jsx");
        reveal_strlit("ts");
        reveal_strlit("tsx");
        reveal_strlit("py");
        reveal_strlit("go");
        reveal_strlit("json");
        reveal_strlit("toml");
        reveal_strlit("yaml");
        reveal_strlit("yml");
        reveal_strlit("md");
        reveal_strlit("markdown");
        reveal_strlit("html");
        reveal_strlit("htm");
        assert("css"@.len() != "rs"@.len());
        assert("css"@.len() != "js"@.len());
        assert("css"@[0] != "jsx"@[0]);
        assert("css"@.len() != "ts"@.len());
        assert("css"@[0] != "tsx"@[0]);
        assert("css"@.len() != "py"@.len());
        assert("css"@.len() != "go"@.len());
        assert("css"@.len() != "json"@.len());
        assert("css"@.len() != "toml"@.len());
        assert("css"@.len() != "yaml"@.len());
        assert("css"@[0] != "yml"@[0]);
        assert("css"@.len() != "md"@.len());
        assert("css"@.len() != "markdown"@.len());
        assert("css"@.len() != "html"@.len());
        assert("css"@[0] != "htm"@[0]);
    }
    assert(ascii_lower_seq(extension) == "scss"@ ==> language_for_extension_spec(extension) == "CSS"@) by {
        reveal_strlit("scss");
        reveal_strlit("rs");
        reveal_strlit("js");
        reveal_strlit("jsx");
        reveal_strlit("ts");
        reveal_strlit("tsx");
        reveal_strlit("py");
        reveal_strlit("go");
        reveal_strlit("json");
        reveal_strlit("toml");
        reveal_strlit("yaml");
        reveal_strlit("yml");
        reveal_strlit("md");
        reveal_strlit("markdown");
        reveal_strlit("html");
        reveal_strlit("htm");
        assert("scss"@.len() != "rs"@.len());
        assert("scss"@.len() != "js"@.len());
        assert("scss"@.len() != "jsx"@.len());
        assert("scss"@.len() != "ts"@.len());
        assert("scss"@.len() != "tsx"@.len());
        assert("scss"@.len() != "py"@.len());
        assert("scss"@.len() != "go"@.len());
        assert("scss"@[0] != "json"@[0]);
        assert("scss"@[0] != "toml"@[0]);
        assert("scss"@[0] != "yaml"@[0]);
        assert("scss"@.len() != "yml"@.len());
        assert("scss"@.len() != "md"@.len());
        assert("scss"@.len() != "markdown"@.len());
        assert("scss"@[0] != "html"@[0]);
        assert("scss"@.len() != "htm"@.len());
    }
}

} // verus!
