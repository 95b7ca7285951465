use vstd::prelude::*;
use crate::chars::{chars_equal_str, chars_of, string_of};
use crate::digits::{decimal_chars, decimal_chars_of};
use crate::editors::line_text;
use crate::markdown::{append, find_seq, find_seq_from, lemma_find_seq_bounds, lines_of, slice_of, split_lines};
use crate::textops::{trim, trimmed};

verus! {

/// The text after `prefix`, when the text starts with it.
pub open spec fn strip_prefix(s: Seq<char>, prefix: Seq<char>) -> Option<Seq<char>> {
    if prefix.len() <= s.len() && s.subrange(0, prefix.len() as int) == prefix {
        Some(s.subrange(prefix.len() as int, s.len() as int))
    } else {
        None
    }
}

/// The text before and after the first occurrence of `separator`.
pub open spec fn split_once(s: Seq<char>, separator: Seq<char>) -> Option<(Seq<char>, Seq<char>)> {
    match find_seq_from(s, separator, 0) {
        Some(i) => Some((s.subrange(0, i as int), s.subrange((i + separator.len()) as int, s.len() as int))),
        None => None,
    }
}

/// The text after `prefix` (see `strip_prefix`).
pub fn strip_prefix_of(s: &Vec<char>, prefix: &str) -> (rest: Option<Vec<char>>)
    ensures
        match rest {
            Some(r) => strip_prefix(s@, prefix@) == Some(r@),
            None => strip_prefix(s@, prefix@) is None,
        },
{
    let p = chars_of(prefix);
    if p.len() > s.len() {
        return None;
    }
    let head = slice_of(s, 0, p.len());
    if crate::chars::same_chars(&head, &p) {
        Some(slice_of(s, p.len(), s.len()))
    } else {
        None
    }
}

/// The text around the first `separator` (see `split_once`).
pub fn split_once_of(s: &Vec<char>, separator: &str) -> (parts: Option<(Vec<char>, Vec<char>)>)
    ensures
        match parts {
            Some((a, b)) => split_once(s@, separator@) == Some((a@, b@)),
            None => split_once(s@, separator@) is None,
        },
{
    let sep = chars_of(separator);
    let n = s.len();
    match find_seq(s, &sep) {
        Some(i) => {
            proof {
                lemma_find_seq_bounds(s@, sep@, 0);
            }
            Some((slice_of(s, 0, i), slice_of(s, i + sep.len(), n)))
        },
        None => None,
    }
}

/// The lower-case hexadecimal digit of a value below 16.
pub open spec fn hex_lower_digit(n: nat) -> char {
    if n < 10 {
        (48 + n) as char
    } else {
        (87 + n) as char
    }
}

/// The shortest lower-case hexadecimal numeral of `n`.
pub open spec fn hex_lower(n: nat) -> Seq<char>
    decreases n,
{
    if n < 16 {
        seq![hex_lower_digit(n)]
    } else {
        hex_lower(n / 16).push(hex_lower_digit(n % 16))
    }
}

/// A character as `char::escape_default` writes it: `\t`, `\r`, `\n`,
/// `\'`, `\"` and `\\` for those six, printable ASCII as it is, and
/// `\u{...}` with the lower-case hexadecimal code point for the rest.
pub open spec fn escaped_char(c: char) -> Seq<char> {
    if c == '\t' {
        seq!['\\', 't']
    } else if c == '\r' {
        seq!['\\', 'r']
    } else if c == '\n' {
        seq!['\\', 'n']
    } else if c == '\'' {
        seq!['\\', '\'']
    } else if c == '"' {
        seq!['\\', '"']
    } else if c == '\\' {
        seq!['\\', '\\']
    } else if ' ' <= c <= '~' {
        seq![c]
    } else {
        seq!['\\', 'u', '{'] + hex_lower(c as nat) + seq!['}']
    }
}

/// The text with each character escaped (see `escaped_char`).
pub open spec fn escaped(s: Seq<char>) -> Seq<char>
    decreases s.len(),
{
    if s.len() == 0 {
        Seq::empty()
    } else {
        escaped(s.drop_last()) + escaped_char(s.last())
    }
}

fn hex_lower_of(n: u32) -> (digits: Vec<char>)
    ensures
        digits@ == hex_lower(n as nat),
    decreases n,
{
    let last = n % 16;
    let digit: char = if last < 10 { ((48 + last) as u8) as char } else { ((87 + last) as u8) as char };
    if n < 16 {
        let mut v: Vec<char> = Vec::new();
        v.push(digit);
        assert(v@ =~= hex_lower(n as nat));
        v
    } else {
        let mut v = hex_lower_of(n / 16);
        v.push(digit);
        v
    }
}

fn escape_char_into(out: &mut Vec<char>, c: char)
    ensures
        final(out)@ == old(out)@ + escaped_char(c),
{
    let ghost start = out@;
    if c == '\t' {
        out.push('\\');
        out.push('t');
    } else if c == '\r' {
        out.push('\\');
        out.push('r');
    } else if c == '\n' {
        out.push('\\');
        out.push('n');
    } else if c == '\'' {
        out.push('\\');
        out.push('\'');
    } else if c == '"' {
        out.push('\\');
        out.push('"');
    } else if c == '\\' {
        out.push('\\');
        out.push('\\');
    } else if ' ' <= c && c <= '~' {
        out.push(c);
    } else {
        out.push('\\');
        out.push('u');
        out.push('{');
        let digits = hex_lower_of(c as u32);
        append(out, &digits);
        out.push('}');
    }
    assert(out@ =~= start + escaped_char(c));
}

pub(crate) fn escaped_of(s: &Vec<char>) -> (e: Vec<char>)
    ensures
        e@ == escaped(s@),
{
    let mut out: Vec<char> = Vec::new();
    let mut i: usize = 0;
    while i < s.len()
        invariant
            i <= s@.len(),
            out@ == escaped(s@.subrange(0, i as int)),
        decreases s@.len() - i,
    {
        let ghost next = s@.subrange(0, i + 1);
        assert(next.drop_last() =~= s@.subrange(0, i as int));
        escape_char_into(&mut out, s[i]);
        i = i + 1;
    }
    assert(s@.subrange(0, s@.len() as int) =~= s@);
    out
}

/// A path from the history with its characters escaped as
/// `char::escape_default` does, so that control characters show.
pub fn display_history_path(path: &str) -> (shown: String)
    ensures
        shown@ == escaped(path@),
{
    string_of(&escaped_of(&chars_of(path)))
}

/// A hunk header of a diff in words: "Changed lines OLD -> NEW", then two
/// spaces and the header's trimmed context when it has one; just "Changed
/// lines" for a header not of the form `@@ -OLD +NEW @@CONTEXT`.
pub open spec fn hunk_header_text(header: Seq<char>) -> Seq<char> {
    match strip_prefix(header, "@@ -"@) {
        None => "Changed lines"@,
        Some(ranges) => match split_once(ranges, " @@"@) {
            None => "Changed lines"@,
            Some((range, context)) => match split_once(range, " +"@) {
                None => "Changed lines"@,
                Some((old, new)) => if trim(context).len() == 0 {
                    "Changed lines "@ + old + " -> "@ + new
                } else {
                    "Changed lines "@ + old + " -> "@ + new + "  "@ + trim(context)
                },
            },
        },
    }
}

fn hunk_header_of(header: &Vec<char>) -> (text: Vec<char>)
    ensures
        text@ == hunk_header_text(header@),
{
    let ranges = match strip_prefix_of(header, "@@ -") {
        Some(r) => r,
        None => return chars_of("Changed lines"),
    };
    let (range, context) = match split_once_of(&ranges, " @@") {
        Some(parts) => parts,
        None => return chars_of("Changed lines"),
    };
    let (old, new) = match split_once_of(&range, " +") {
        Some(parts) => parts,
        None => return chars_of("Changed lines"),
    };
    let ctx = trimmed(&context);
    let mut out = chars_of("Changed lines ");
    append(&mut out, &old);
    append(&mut out, &chars_of(" -> "));
    append(&mut out, &new);
    if ctx.len() > 0 {
        append(&mut out, &chars_of("  "));
        append(&mut out, &ctx);
    }
    out
}

/// A hunk header of a diff in words (see `hunk_header_text`).
pub fn humanize_hunk_header(header: &str) -> (text: String)
    ensures
        text@ == hunk_header_text(header@),
{
    string_of(&hunk_header_of(&chars_of(header)))
}

/// A metadata line of a diff in words, for the kinds of metadata that are
/// shown; `None` for the rest.
pub open spec fn diff_metadata_text(metadata: Seq<char>) -> Option<Seq<char>> {
    if metadata == "\\ No newline at end of file"@ {
        Some("No newline at end of file"@)
    } else if strip_prefix(metadata, "Binary files "@) is Some || metadata == "GIT binary patch"@ {
        Some("Binary file changed"@)
    } else if strip_prefix(metadata, "new file mode "@) is Some {
        Some("New file, mode "@ + (strip_prefix(metadata, "new file mode "@)->0))
    } else if strip_prefix(metadata, "deleted file mode "@) is Some {
        Some("Deleted file, mode "@ + (strip_prefix(metadata, "deleted file mode "@)->0))
    } else if strip_prefix(metadata, "rename from "@) is Some {
        Some("Renamed from "@ + escaped(strip_prefix(metadata, "rename from "@)->0))
    } else if strip_prefix(metadata, "rename to "@) is Some {
        Some("Renamed to "@ + escaped(strip_prefix(metadata, "rename to "@)->0))
    } else if strip_prefix(metadata, "similarity index "@) is Some {
        Some("Similarity "@ + (strip_prefix(metadata, "similarity index "@)->0))
    } else {
        None
    }
}

fn prefixed(prefix: &str, rest: &Vec<char>) -> (text: Vec<char>)
    ensures
        text@ == prefix@ + rest@,
{
    let mut out = chars_of(prefix);
    append(&mut out, rest);
    out
}

fn diff_metadata_of(metadata: &Vec<char>) -> (text: Option<Vec<char>>)
    ensures
        match text {
            Some(t) => diff_metadata_text(metadata@) == Some(t@),
            None => diff_metadata_text(metadata@) is None,
        },
{
    if chars_equal_str(metadata, "\\ No newline at end of file") {
        return Some(chars_of("No newline at end of file"));
    }
    if strip_prefix_of(metadata, "Binary files ").is_some() || chars_equal_str(metadata, "GIT binary patch") {
        return Some(chars_of("Binary file changed"));
    }
    if let Some(mode) = strip_prefix_of(metadata, "new file mode ") {
        return Some(prefixed("New file, mode ", &mode));
    }
    if let Some(mode) = strip_prefix_of(metadata, "deleted file mode ") {
        return Some(prefixed("Deleted file, mode ", &mode));
    }
    if let Some(path) = strip_prefix_of(metadata, "rename from ") {
        return Some(prefixed("Renamed from ", &escaped_of(&path)));
    }
    if let Some(path) = strip_prefix_of(metadata, "rename to ") {
        return Some(prefixed("Renamed to ", &escaped_of(&path)));
    }
    match strip_prefix_of(metadata, "similarity index ") {
        Some(similarity) => Some(prefixed("Similarity ", &similarity)),
        None => None,
    }
}

/// A metadata line of a diff in words (see `diff_metadata_text`).
pub fn humanize_diff_metadata(metadata: &str) -> (text: Option<String>)
    ensures
        match text {
            Some(t) => diff_metadata_text(metadata@) == Some(t@),
            None => diff_metadata_text(metadata@) is None,
        },
{
    match diff_metadata_of(&chars_of(metadata)) {
        Some(t) => Some(string_of(&t)),
        None => None,
    }
}

/// What a line of a unified diff is.
#[derive(Clone, Copy, Debug, PartialEq, Eq, Structural)]
pub enum DiffLineKind {
    FileHeader,
    Addition,
    Deletion,
    Context,
    HunkHeader,
    Metadata,
}

/// A line of a unified diff.
#[derive(Clone, Debug, PartialEq, Eq)]
pub struct DiffLine {
    pub kind: DiffLineKind,
    pub text: String,
}

/// The text without one leading `c`.
pub open spec fn without_marker(s: Seq<char>, c: char) -> Seq<char> {
    if s.len() > 0 && s[0] == c {
        s.drop_first()
    } else {
        s
    }
}

/// The text a diff line shows: none for a file header; an added, deleted or
/// context line without its marker; hunk headers and metadata in words.
pub open spec fn diff_line_text_spec(kind: DiffLineKind, text: Seq<char>) -> Option<Seq<char>> {
    match kind {
        DiffLineKind::FileHeader => None,
        DiffLineKind::Addition => Some(without_marker(text, '+')),
        DiffLineKind::Deletion => Some(without_marker(text, '-')),
        DiffLineKind::Context => Some(without_marker(text, ' ')),
        DiffLineKind::HunkHeader => Some(hunk_header_text(text)),
        DiffLineKind::Metadata => diff_metadata_text(text),
    }
}

fn without_marker_of(s: &Vec<char>, c: char) -> (rest: Vec<char>)
    ensures
        rest@ == without_marker(s@, c),
{
    if s.len() > 0 && s[0] == c {
        slice_of(s, 1, s.len())
    } else {
        slice_of(s, 0, s.len())
    }
}

/// The text a diff line shows (see `diff_line_text_spec`).
pub fn diff_line_text(line: &DiffLine) -> (text: Option<String>)
    ensures
        match text {
            Some(t) => diff_line_text_spec(line.kind, line.text@) == Some(t@),
            None => diff_line_text_spec(line.kind, line.text@) is None,
        },
{
    let chars = chars_of(line.text.as_str());
    assert(chars@.subrange(0, chars@.len() as int) =~= chars@);
    assert(chars@.drop_first() =~= chars@.subrange(1, chars@.len() as int) || chars@.len() == 0);
    match line.kind {
        DiffLineKind::FileHeader => None,
        DiffLineKind::Addition => Some(string_of(&without_marker_of(&chars, '+'))),
        DiffLineKind::Deletion => Some(string_of(&without_marker_of(&chars, '-'))),
        DiffLineKind::Context => Some(string_of(&without_marker_of(&chars, ' '))),
        DiffLineKind::HunkHeader => Some(string_of(&hunk_header_of(&chars))),
        DiffLineKind::Metadata => match diff_metadata_of(&chars) {
            Some(t) => Some(string_of(&t)),
            None => None,
        },
    }
}

/// A line count of a diff stat: the number, or "?" when git gives none.
pub open spec fn stat_text(value: Option<usize>) -> Seq<char> {
    match value {
        Some(v) => decimal_chars(v as nat),
        None => "?"@,
    }
}

/// A line count of a diff stat (see `stat_text`).
pub fn git_stat_value(value: Option<usize>) -> (text: String)
    ensures
        text@ == stat_text(value),
{
    match value {
        Some(v) => string_of(&decimal_chars_of(v as u64)),
        None => string_of(&chars_of("?")),
    }
}

/// A changed file of a working tree.
#[derive(Clone, Debug, PartialEq, Eq)]
pub struct GitFileChange {
    pub path: String,
    pub original_path: Option<String>,
}

/// The label of a changed file: its path, after the original path and an
/// arrow when the file was renamed.
pub open spec fn change_label(path: Seq<char>, original_path: Option<Seq<char>>) -> Seq<char> {
    match original_path {
        Some(o) => o + " -> "@ + path,
        None => path,
    }
}

/// The label of a changed file (see `change_label`).
pub fn git_change_label(change: &GitFileChange) -> (label: String)
    ensures
        label@ == change_label(
            change.path@,
            match change.original_path {
                Some(o) => Some(o@),
                None => None,
            },
        ),
{
    match &change.original_path {
        Some(original) => {
            let mut out = chars_of(original.as_str());
            append(&mut out, &chars_of(" -> "));
            append(&mut out, &chars_of(change.path.as_str()));
            string_of(&out)
        },
        None => change.path.clone(),
    }
}

/// Why a git operation failed.
#[derive(Clone, Copy, Debug, PartialEq, Eq, Structural)]
pub enum GitErrorKind {
    CommandFailed,
    Validation,
    Other,
}

/// A failed git operation: its kind, what git printed, and the status line
/// that stands for the failure.
#[derive(Clone, Debug, PartialEq, Eq)]
pub struct GitError {
    pub kind: GitErrorKind,
    pub detail: String,
    pub status_text: String,
}

/// The last line of the list that is not blank, trimmed.
pub open spec fn last_filled_line(lines: Seq<Seq<char>>) -> Option<Seq<char>>
    decreases lines.len(),
{
    if lines.len() == 0 {
        None
    } else if trim(line_text(lines.last())).len() > 0 {
        Some(trim(line_text(lines.last())))
    } else {
        last_filled_line(lines.drop_last())
    }
}

/// The notice shown for a failed git operation: for a failed command or a
/// refused request, "Git: " and the last non-blank line of git's output
/// without a leading "fatal: " or "error: ", cut to 140 characters and
/// followed by "..." when longer; otherwise, or when git printed nothing,
/// the failure's status line.
pub open spec fn git_error_notice_spec(kind: GitErrorKind, detail: Seq<char>, status_text: Seq<char>) -> Seq<char> {
    if !(kind == GitErrorKind::CommandFailed || kind == GitErrorKind::Validation) {
        status_text
    } else {
        match last_filled_line(split_lines(detail)) {
            None => status_text,
            Some(line) => {
                let message = match strip_prefix(line, "fatal: "@) {
                    Some(m) => m,
                    None => match strip_prefix(line, "error: "@) {
                        Some(m) => m,
                        None => line,
                    },
                };
                "Git: "@ + if message.len() > 140 {
                    message.subrange(0, 140) + "..."@
                } else {
                    message
                }
            },
        }
    }
}

fn line_text_of(line: &Vec<char>) -> (text: Vec<char>)
    ensures
        text@ == line_text(line@),
{
    let n = line.len();
    let mut end: usize = n;
    if end > 0 && line[end - 1] == '\n' {
        end = end - 1;
        if end > 0 && line[end - 1] == '\r' {
            end = end - 1;
        }
    }
    let text = slice_of(line, 0, end);
    assert(text@ =~= line_text(line@));
    text
}

fn last_filled_line_of(lines: &Vec<Vec<char>>) -> (found: Option<Vec<char>>)
    ensures
        match found {
            Some(t) => last_filled_line(lines@.map_values(|l: Vec<char>| l@)) == Some(t@),
            None => last_filled_line(lines@.map_values(|l: Vec<char>| l@)) is None,
        },
{
    let ghost lv = lines@.map_values(|l: Vec<char>| l@);
    let mut k: usize = lines.len();
    assert(lv.subrange(0, lv.len() as int) =~= lv);
    while k > 0
        invariant
            lv == lines@.map_values(|l: Vec<char>| l@),
            k <= lv.len(),
            last_filled_line(lv) == last_filled_line(lv.subrange(0, k as int)),
        decreases k,
    {
        let ghost prefix = lv.subrange(0, k as int);
        assert(prefix.drop_last() =~= lv.subrange(0, k - 1));
        assert(prefix.last() == lines@[k - 1]@);
        let t = trimmed(&line_text_of(&lines[k - 1]));
        if t.len() > 0 {
            return Some(t);
        }
        k = k - 1;
    }
    None
}

/// The notice shown for a failed git operation (see
/// `git_error_notice_spec`).
pub fn git_error_notice(error: &GitError) -> (notice: String)
    ensures
        notice@ == git_error_notice_spec(error.kind, error.detail@, error.status_text@),
{
    if !(error.kind == GitErrorKind::CommandFailed || error.kind == GitErrorKind::Validation) {
        return error.status_text.clone();
    }
    let lines = lines_of(&chars_of(error.detail.as_str()));
    let line = match last_filled_line_of(&lines) {
        Some(t) => t,
        None => return error.status_text.clone(),
    };
    let message = match strip_prefix_of(&line, "fatal: ") {
        Some(m) => m,
        None => match strip_prefix_of(&line, "error: ") {
            Some(m) => m,
            None => line,
        },
    };
    let mut out = chars_of("Git: ");
    if message.len() > 140 {
        append(&mut out, &slice_of(&message, 0, 140));
        append(&mut out, &chars_of("..."));
    } else {
        append(&mut out, &message);
    }
    string_of(&out)
}

/// Whether a change inside the git directory can change what the git view
/// shows, judged by the first component of its path there: the index, the
/// refs, HEAD and the other operation heads, and the configuration count;
/// a change to the directory itself counts too.
pub open spec fn git_metadata_relevant(first_component: Option<Seq<char>>) -> bool {
    match first_component {
        None => true,
        Some(name) => strip_prefix(name, "index"@) is Some || name == "HEAD"@ || name == "ORIG_HEAD"@
            || name == "MERGE_HEAD"@ || name == "REBASE_HEAD"@ || name == "CHERRY_PICK_HEAD"@
            || name == "REVERT_HEAD"@ || name == "packed-refs"@ || name == "refs"@ || name == "config"@
            || name == "commondir"@,
    }
}

/// Whether a change inside the git directory matters (see
/// `git_metadata_relevant`).
pub fn git_metadata_name_is_relevant(first_component: Option<&str>) -> (relevant: bool)
    ensures
        relevant == git_metadata_relevant(
            match first_component {
                Some(n) => Some(n@),
                None => None,
            },
        ),
{
    match first_component {
        None => true,
        Some(name) => {
            let n = chars_of(name);
            strip_prefix_of(&n, "index").is_some() || chars_equal_str(&n, "HEAD") || chars_equal_str(&n, "ORIG_HEAD")
                || chars_equal_str(&n, "MERGE_HEAD") || chars_equal_str(&n, "REBASE_HEAD") || chars_equal_str(
                &n,
                "CHERRY_PICK_HEAD",
            ) || chars_equal_str(&n, "REVERT_HEAD") || chars_equal_str(&n, "packed-refs") || chars_equal_str(
                &n,
                "refs",
            ) || chars_equal_str(&n, "config") || chars_equal_str(&n, "commondir")
        },
    }
}

/// Where a `.git` file of a worktree points: the trimmed path after
/// "gitdir:" in its trimmed contents.
pub open spec fn gitdir_target_spec(contents: Seq<char>) -> Option<Seq<char>> {
    match strip_prefix(trim(contents), "gitdir:"@) {
        Some(rest) => Some(trim(rest)),
        None => None,
    }
}

/// Where a `.git` file of a worktree points (see `gitdir_target_spec`).
pub fn gitdir_target(contents: &str) -> (target: Option<String>)
    ensures
        match target {
            Some(t) => gitdir_target_spec(contents@) == Some(t@),
            None => gitdir_target_spec(contents@) is None,
        },
{
    let t = trimmed(&chars_of(contents));
    match strip_prefix_of(&t, "gitdir:") {
        Some(rest) => Some(string_of(&trimmed(&rest))),
        None => None,
    }
}

/// The branch the git view names: the current branch, or "detached HEAD"
/// when there is none.
pub open spec fn branch_heading_text(branch: Option<Seq<char>>) -> Seq<char> {
    match branch {
        Some(b) => b,
        None => "detached HEAD"@,
    }
}

/// The branch the git view names (see `branch_heading_text`).
pub fn branch_heading(branch: Option<&str>) -> (heading: String)
    ensures
        heading@ == branch_heading_text(
            match branch {
                Some(b) => Some(b@),
                None => None,
            },
        ),
{
    match branch {
        Some(b) => string_of(&chars_of(b)),
        None => string_of(&chars_of("detached HEAD")),
    }
}

/// How the branch stands against its upstream: nothing when level, else
/// "N ahead", "M behind", or both joined by " · ".
pub open spec fn tracking_text_spec(ahead: nat, behind: nat) -> Seq<char> {
    if ahead == 0 && behind == 0 {
        Seq::empty()
    } else if behind == 0 {
        decimal_chars(ahead) + " ahead"@
    } else if ahead == 0 {
        decimal_chars(behind) + " behind"@
    } else {
        decimal_chars(ahead) + " ahead · "@ + decimal_chars(behind) + " behind"@
    }
}

/// How the branch stands against its upstream (see `tracking_text_spec`).
pub fn tracking_text(ahead: u64, behind: u64) -> (text: String)
    ensures
        text@ == tracking_text_spec(ahead as nat, behind as nat),
{
    if ahead == 0 && behind == 0 {
        return string_of(&Vec::new());
    }
    if behind == 0 {
        let mut out = decimal_chars_of(ahead);
        append(&mut out, &chars_of(" ahead"));
        return string_of(&out);
    }
    if ahead == 0 {
        let mut out = decimal_chars_of(behind);
        append(&mut out, &chars_of(" behind"));
        return string_of(&out);
    }
    let mut out = decimal_chars_of(ahead);
    append(&mut out, &chars_of(" ahead · "));
    append(&mut out, &decimal_chars_of(behind));
    append(&mut out, &chars_of(" behind"));
    string_of(&out)
}

/// Whether the git view offers Push: fetching is possible (the project has
/// git) and the branch heading names a branch, not "detached" or "detached
/// HEAD".
pub open spec fn push_offered_spec(fetch_enabled: bool, heading: Seq<char>) -> bool {
    fetch_enabled && heading != "detached"@ && heading != "detached HEAD"@
}

/// Whether the git view offers Push (see `push_offered_spec`).
pub fn push_offered(fetch_enabled: bool, heading: &str) -> (offered: bool)
    ensures
        offered == push_offered_spec(fetch_enabled, heading@),
{
    let h = chars_of(heading);
    fetch_enabled && !chars_equal_str(&h, "detached") && !chars_equal_str(&h, "detached HEAD")
}

} // verus!
