//! `grep`: searching a page's snapshot lines or visible text with a
//! case-insensitive regular expression, without dumping the page.
//!
//! The regular expression is the `regex` crate's, reached through two trusted
//! wrappers; the selection of lines, their clamping and the report stand here.

use vstd::prelude::*;

use regex::{Regex, RegexBuilder};

use crate::pages::text_views;
use crate::text::{
    byte_len, chars_of, decimal, fits_in_bytes, prefix_within, prefix_within_bytes, push_char,
    push_str, u64_decimal, utf8_len,
};

verus! {

pub const DESCRIPTION: &'static str = "Search the page without dumping it. over=\"ax\" greps the snapshot lines (matches keep their [ref=eN]); over=\"content\" greps visible text. Returns matching lines.";

/// How `grep` is announced.
pub fn definition() -> (r: crate::framework::ToolDef)
    ensures
        r.name@ == "grep"@,
        r.description@ == DESCRIPTION@,
        r.hints == crate::framework::ToolHints::ReadOnly,
        r.metadata.accepts_page_arg == crate::framework::takes_page("grep"@),
{
    crate::framework::tool_def("grep", DESCRIPTION, crate::framework::ToolHints::ReadOnly)
}

/// Default number of matching lines.
pub const DEFAULT_LIMIT: usize = 50;
/// Ceiling of the number of matching lines.
pub const GREP_MAX_MATCHES: usize = 200;
/// Bytes kept of one matching line.
pub const GREP_MATCH_LINE_MAX_CHARS: usize = 500;
/// Bytes of page content kept inline in a reply.
pub const INLINE_PAGE_CONTENT_MAX_CHARS: usize = 5000;
/// Appended to a clamped text.
pub const LINE_TRUNCATION_MARKER: &'static str = "... [truncated]";

/// What `grep` searches.
#[derive(Clone, Copy, PartialEq, Eq, Structural, Debug)]
pub enum GrepOver {
    /// The accessibility snapshot lines; matches keep their `[ref=eN]`.
    Ax,
    /// The page's visible text.
    Content,
}

pub open spec fn over_text(o: GrepOver) -> Seq<char> {
    match o {
        GrepOver::Ax => "ax"@,
        GrepOver::Content => "content"@,
    }
}

/// The wire name of what is searched.
pub fn over_name(over: &GrepOver) -> (r: &'static str)
    ensures
        r@ == over_text(*over),
{
    match over {
        GrepOver::Ax => "ax",
        GrepOver::Content => "content",
    }
}

/// `regex::Regex`, a compiled expression the library carries without
/// looking inside.
#[verifier::external_type_specification]
#[verifier::external_body]
pub struct ExRegex(Regex);

/// What building a case-insensitive regex from `pattern` answers: `None`
/// when it builds, else the text of the error.
pub uninterp spec fn regex_build_error(pattern: Seq<char>) -> Option<Seq<char>>;

/// Whether the case-insensitive regex built from `pattern` matches somewhere
/// in `line`.
pub uninterp spec fn regex_is_match(pattern: Seq<char>, line: Seq<char>) -> bool;

/// A case-insensitive regular expression together with its source.
pub struct LinePattern {
    re: Regex,
    source: String,
}

impl View for LinePattern {
    type V = Seq<char>;

    closed spec fn view(&self) -> Seq<char> {
        self.source@
    }
}

/// Builds a case-insensitive regex (`regex::RegexBuilder::new(pattern)
/// .case_insensitive(true).build()`). Claimed: it succeeds exactly when the
/// named build result has no error, and a refusal carries that error's text.
#[verifier::external_body]
fn build_case_insensitive(pattern: &str) -> (r: Result<LinePattern, String>)
    ensures
        match r {
            Ok(p) => regex_build_error(pattern@) is None && p@ == pattern@,
            Err(e) => regex_build_error(pattern@) == Some(e@),
        },
{
    match RegexBuilder::new(pattern).case_insensitive(true).build() {
        Ok(re) => Ok(LinePattern { re, source: pattern.to_string() }),
        Err(err) => Err(err.to_string()),
    }
}

/// `regex::Regex::is_match`. Claimed: the answer is the named match result
/// for the regex's source and the line.
#[verifier::external_body]
fn line_matches(p: &LinePattern, line: &str) -> (r: bool)
    ensures
        r == regex_is_match(p@, line@),
{
    p.re.is_match(line)
}

/// "grep: invalid regex - {error}".
pub open spec fn invalid_regex_text(err: Seq<char>) -> Seq<char> {
    "grep: invalid regex - "@ + err
}

/// The refusal of a pattern the regex engine rejected with `error`.
pub fn invalid_regex_message(error: &str) -> (r: String)
    ensures
        r@ == invalid_regex_text(error@),
{
    let mut msg = "grep: invalid regex - ".to_owned();
    push_str(&mut msg, error);
    msg
}

/// Builds the search pattern, or the message a bad pattern is refused with.
pub fn compile_pattern(pattern: &str) -> (r: Result<LinePattern, String>)
    ensures
        match r {
            Ok(p) => regex_build_error(pattern@) is None && p@ == pattern@,
            Err(e) => regex_build_error(pattern@) matches Some(err) && e@ == invalid_regex_text(err),
        },
{
    match build_case_insensitive(pattern) {
        Ok(p) => Ok(p),
        Err(err) => Err(invalid_regex_message(err.as_str())),
    }
}

/// The lines of a text split at each `'\n'` (std `str::split('\n')`): one
/// more line than there are newlines, empty ones included.
pub open spec fn split_lines(s: Seq<char>) -> Seq<Seq<char>>
    decreases s.len(),
{
    if s.len() == 0 {
        seq![Seq::<char>::empty()]
    } else {
        let init = split_lines(s.drop_last());
        if s.last() == '\n' {
            init.push(Seq::<char>::empty())
        } else {
            init.update(init.len() - 1, init.last().push(s.last()))
        }
    }
}

pub proof fn lemma_split_lines_nonempty(s: Seq<char>)
    ensures
        split_lines(s).len() >= 1,
    decreases s.len(),
{
    if s.len() > 0 {
        lemma_split_lines_nonempty(s.drop_last());
    }
}

/// Splits `s` at each `'\n'`.
pub fn split_lines_of(s: &str) -> (r: Vec<String>)
    ensures
        text_views(r@) == split_lines(s@),
{
    let cs = chars_of(s);
    let mut done: Vec<String> = Vec::new();
    let mut cur = String::new();
    let mut i: usize = 0;
    while i < cs.len()
        invariant
            cs@ == s@,
            i <= cs.len(),
            text_views(done@).push(cur@) == split_lines(s@.take(i as int)),
        decreases cs.len() - i,
    {
        let c = cs[i];
        proof {
            assert(s@.take(i + 1).drop_last() =~= s@.take(i as int));
            assert(s@.take(i + 1).last() == c);
            lemma_split_lines_nonempty(s@.take(i as int));
        }
        if c == '\n' {
            let line = cur;
            done.push(line);
            cur = String::new();
            assert(text_views(done@).push(cur@) =~= split_lines(s@.take(i + 1)));
        } else {
            let ghost before = cur@;
            push_char(&mut cur, c);
            assert(text_views(done@).push(cur@) =~= split_lines(s@.take(i + 1)));
        }
        i = i + 1;
    }
    done.push(cur);
    assert(s@.take(cs.len() as int) =~= s@);
    assert(text_views(done@) =~= split_lines(s@));
    done
}

/// The lines whose flag is set, in order.
pub open spec fn kept(lines: Seq<Seq<char>>, flags: Seq<bool>) -> Seq<Seq<char>>
    decreases lines.len(),
{
    if lines.len() == 0 || flags.len() == 0 {
        Seq::empty()
    } else {
        let rest = kept(lines.drop_last(), flags.drop_last());
        if flags.last() {
            rest.push(lines.last())
        } else {
            rest
        }
    }
}

/// At most `limit` of the first elements of `s`.
pub open spec fn first_n(s: Seq<Seq<char>>, limit: nat) -> Seq<Seq<char>> {
    if s.len() <= limit {
        s
    } else {
        s.take(limit as int)
    }
}

pub proof fn lemma_kept_prefix(lines: Seq<Seq<char>>, flags: Seq<bool>, i: int)
    requires
        lines.len() == flags.len(),
        0 <= i <= lines.len(),
    ensures
        kept(lines.take(i), flags.take(i)).is_prefix_of(kept(lines, flags)),
    decreases lines.len(),
{
    if i == lines.len() {
        assert(lines.take(i) =~= lines);
        assert(flags.take(i) =~= flags);
    } else {
        assert(lines.drop_last().take(i) =~= lines.take(i));
        assert(flags.drop_last().take(i) =~= flags.take(i));
        lemma_kept_prefix(lines.drop_last(), flags.drop_last(), i);
    }
}

/// The first `limit` lines whose flag is set.
pub fn take_flagged(lines: &Vec<String>, flags: &Vec<bool>, limit: usize) -> (r: Vec<String>)
    requires
        lines.len() == flags.len(),
    ensures
        text_views(r@) == first_n(kept(text_views(lines@), flags@), limit as nat),
{
    let ghost ls = text_views(lines@);
    let mut r: Vec<String> = Vec::new();
    let mut i: usize = 0;
    while i < lines.len() && r.len() < limit
        invariant
            lines.len() == flags.len(),
            ls == text_views(lines@),
            i <= lines.len(),
            r.len() <= limit,
            text_views(r@) == kept(ls.take(i as int), flags@.take(i as int)),
        decreases lines.len() - i,
    {
        proof {
            assert(ls.take(i + 1).drop_last() =~= ls.take(i as int));
            assert(flags@.take(i + 1).drop_last() =~= flags@.take(i as int));
        }
        if flags[i] {
            let line = lines[i].clone();
            r.push(line);
            assert(text_views(r@) =~= kept(ls.take(i + 1), flags@.take(i + 1)));
        }
        i = i + 1;
    }
    proof {
        lemma_kept_prefix(ls, flags@, i as int);
        let all = kept(ls, flags@);
        let part = kept(ls.take(i as int), flags@.take(i as int));
        if i == lines.len() {
            assert(ls.take(i as int) =~= ls);
            assert(flags@.take(i as int) =~= flags@);
        } else {
            assert(part.len() == limit);
            assert(all.take(limit as int) =~= part);
        }
    }
    r
}

/// The lines of `haystack` that the pattern matches: the first `limit` of them.
pub open spec fn grep_matches(pattern: Seq<char>, haystack: Seq<char>, limit: nat) -> Seq<Seq<char>> {
    let lines = split_lines(haystack);
    first_n(kept(lines, Seq::new(lines.len(), |i: int| regex_is_match(pattern, lines[i]))), limit)
}

/// The first `limit` lines of `haystack` that the pattern matches.
pub fn grep_lines(p: &LinePattern, haystack: &str, limit: usize) -> (r: Vec<String>)
    ensures
        text_views(r@) == grep_matches(p@, haystack@, limit as nat),
{
    let lines = split_lines_of(haystack);
    let mut flags: Vec<bool> = Vec::new();
    let mut i: usize = 0;
    while i < lines.len()
        invariant
            i <= lines.len(),
            flags.len() == i,
            forall|j: int| 0 <= j < i ==> flags@[j] == regex_is_match(p@, lines@[j]@),
        decreases lines.len() - i,
    {
        let m = line_matches(p, lines[i].as_str());
        flags.push(m);
        i = i + 1;
    }
    let ghost ls = split_lines(haystack@);
    assert(flags@ =~= Seq::new(ls.len(), |j: int| regex_is_match(p@, ls[j])));
    take_flagged(&lines, &flags, limit)
}

/// A text kept within `max` bytes: unchanged when it fits, else cut at a
/// character boundary so that with the marker appended it takes `max` bytes
/// at most.
pub open spec fn clamped(t: Seq<char>, max: nat) -> Seq<char> {
    if utf8_len(t) <= max {
        t
    } else {
        let room: nat = if max >= 15 { (max - 15) as nat } else { 0 };
        prefix_within(t, room) + "... [truncated]"@
    }
}

/// Keeps `text` within `max_chars` bytes, marking a cut with `... [truncated]`.
pub fn clamp_text(text: &str, max_chars: usize) -> (r: String)
    ensures
        r@ == clamped(text@, max_chars as nat),
{
    if fits_in_bytes(text, max_chars) {
        return text.to_string();
    }
    let room: usize = if max_chars >= 15 { max_chars - 15 } else { 0 };
    let mut r = prefix_within_bytes(text, room);
    push_str(&mut r, LINE_TRUNCATION_MARKER);
    proof {
        reveal_strlit("... [truncated]");
    }
    r
}

/// Lines joined with a separator (std `join`).
pub open spec fn joined(lines: Seq<Seq<char>>, sep: Seq<char>) -> Seq<char>
    decreases lines.len(),
{
    if lines.len() == 0 {
        Seq::empty()
    } else if lines.len() == 1 {
        lines[0]
    } else {
        joined(lines.drop_last(), sep) + sep + lines.last()
    }
}

/// Joins lines with newlines.
pub fn join_lines(lines: &Vec<String>) -> (r: String)
    ensures
        r@ == joined(text_views(lines@), "\n"@),
{
    let mut r = String::new();
    let mut i: usize = 0;
    while i < lines.len()
        invariant
            i <= lines.len(),
            r@ == joined(text_views(lines@).take(i as int), "\n"@),
        decreases lines.len() - i,
    {
        let ghost before = text_views(lines@).take(i as int);
        assert(text_views(lines@).take(i + 1).drop_last() =~= before);
        if i > 0 {
            push_str(&mut r, "\n");
        }
        push_str(&mut r, lines[i].as_str());
        proof {
            if i == 0 {
                assert(text_views(lines@).take(1) =~= seq![lines@[0]@]);
                assert(r@ =~= lines@[0]@);
            }
        }
        i = i + 1;
    }
    assert(text_views(lines@).take(lines.len() as int) =~= text_views(lines@));
    r
}

/// What `grep` reports of its matches.
pub struct GrepReport {
    /// Number of matching lines.
    pub count: usize,
    /// The matches joined by newlines, uncut.
    pub full_text: String,
    /// The matches, each clamped to [`GREP_MATCH_LINE_MAX_CHARS`], joined.
    pub rendered_text: String,
    /// The rendered text clamped to [`INLINE_PAGE_CONTENT_MAX_CHARS`].
    pub inline_text: String,
    /// Whether a line or the whole was cut, so that the full matches are saved.
    pub truncated: bool,
}

pub open spec fn clamped_lines(lines: Seq<Seq<char>>) -> Seq<Seq<char>> {
    lines.map_values(|l: Seq<char>| clamped(l, GREP_MATCH_LINE_MAX_CHARS as nat))
}

/// Builds the report of a grep's matches.
pub fn grep_report(matches: &Vec<String>) -> (r: GrepReport)
    ensures
        r.count == matches.len(),
        r.full_text@ == joined(text_views(matches@), "\n"@),
        r.rendered_text@ == joined(clamped_lines(text_views(matches@)), "\n"@),
        r.inline_text@ == clamped(r.rendered_text@, INLINE_PAGE_CONTENT_MAX_CHARS as nat),
        r.truncated == ((exists|i: int| 0 <= i < matches.len()
            && utf8_len(#[trigger] matches@[i]@) > GREP_MATCH_LINE_MAX_CHARS)
            || utf8_len(r.rendered_text@) > INLINE_PAGE_CONTENT_MAX_CHARS),
{
    let mut rendered: Vec<String> = Vec::new();
    let mut line_cut = false;
    let mut i: usize = 0;
    while i < matches.len()
        invariant
            i <= matches.len(),
            rendered.len() == i,
            forall|j: int| 0 <= j < i ==> #[trigger] rendered@[j]@ == clamped(matches@[j]@, GREP_MATCH_LINE_MAX_CHARS as nat),
            line_cut == exists|j: int| 0 <= j < i && utf8_len(#[trigger] matches@[j]@) > GREP_MATCH_LINE_MAX_CHARS,
        decreases matches.len() - i,
    {
        let fits = fits_in_bytes(matches[i].as_str(), GREP_MATCH_LINE_MAX_CHARS);
        if !fits {
            line_cut = true;
        }
        let c = clamp_text(matches[i].as_str(), GREP_MATCH_LINE_MAX_CHARS);
        rendered.push(c);
        i = i + 1;
    }
    assert(text_views(rendered@) =~= clamped_lines(text_views(matches@)));
    let full_text = join_lines(matches);
    let rendered_text = join_lines(&rendered);
    let total_fits = fits_in_bytes(rendered_text.as_str(), INLINE_PAGE_CONTENT_MAX_CHARS);
    let inline_text = clamp_text(rendered_text.as_str(), INLINE_PAGE_CONTENT_MAX_CHARS);
    GrepReport {
        count: matches.len(),
        full_text,
        rendered_text,
        inline_text,
        truncated: line_cut || !total_fits,
    }
}

pub open spec fn saved_note(count: nat, full_bytes: nat, path: Seq<char>) -> Seq<char> {
    "Grep output truncated for "@ + decimal(count) + " match(es). Full matches ("@ + decimal(full_bytes)
        + " chars) saved to: "@ + path
}

pub open spec fn unsaved_note(count: nat, full_bytes: nat, err: Seq<char>) -> Seq<char> {
    "Grep output truncated for "@ + decimal(count) + " match(es). Full matches ("@ + decimal(full_bytes)
        + " chars) could not be saved to a BrowserOS output file: "@ + err
}

fn note_head(count: usize, full_text: &str) -> (r: String)
    requires
        utf8_len(full_text@) <= usize::MAX,
    ensures
        r@ == "Grep output truncated for "@ + decimal(count as nat) + " match(es). Full matches ("@
            + decimal(utf8_len(full_text@)),
{
    let mut s = "Grep output truncated for ".to_owned();
    let n = u64_decimal(count as u64);
    push_str(&mut s, n.as_str());
    push_str(&mut s, " match(es). Full matches (");
    let b = u64_decimal(byte_len(full_text) as u64);
    push_str(&mut s, b.as_str());
    s
}

/// The note after a cut grep output whose full matches were saved at `path`.
pub fn grep_saved_note(count: usize, full_text: &str, path: &str) -> (r: String)
    requires
        utf8_len(full_text@) <= usize::MAX,
    ensures
        r@ == saved_note(count as nat, utf8_len(full_text@), path@),
{
    let mut s = note_head(count, full_text);
    push_str(&mut s, " chars) saved to: ");
    push_str(&mut s, path);
    s
}

/// The note after a cut grep output whose full matches could not be saved.
pub fn grep_unsaved_note(count: usize, full_text: &str, save_error: &str) -> (r: String)
    requires
        utf8_len(full_text@) <= usize::MAX,
    ensures
        r@ == unsaved_note(count as nat, utf8_len(full_text@), save_error@),
{
    let mut s = note_head(count, full_text);
    push_str(&mut s, " chars) could not be saved to a BrowserOS output file: ");
    push_str(&mut s, save_error);
    s
}

/// The reply text of a grep that matched nothing.
pub const NO_MATCHES_TEXT: &'static str = "no matches";

/// The reply text of a grep whose report was cut: the inline text, a blank
/// line, and the note on where the full matches went; `saved` is what the
/// save gave back (the path, or the error's text).
pub fn grep_truncated_text(inline: &str, count: usize, full_text: &str, saved: &Result<String, String>) -> (r: String)
    requires
        utf8_len(full_text@) <= usize::MAX,
    ensures
        r@ == inline@ + "\n\n"@ + match saved {
            Ok(path) => saved_note(count as nat, utf8_len(full_text@), path@),
            Err(e) => unsaved_note(count as nat, utf8_len(full_text@), e@),
        },
{
    let note = match saved {
        Ok(path) => grep_saved_note(count, full_text, path.as_str()),
        Err(e) => grep_unsaved_note(count, full_text, e.as_str()),
    };
    let mut r = String::from_str(inline);
    push_str(&mut r, "\n\n");
    push_str(&mut r, note.as_str());
    r
}


/// The number of matching lines to keep, from the caller's limit already
/// floored (`None` when absent or not finite): 50 by default, else the
/// limit within 0 and [`GREP_MAX_MATCHES`].
pub fn clamp_limit(floored: Option<i64>) -> (r: usize)
    ensures
        r == match floored {
            None => DEFAULT_LIMIT as int,
            Some(n) => if n < 0 { 0 } else if n > GREP_MAX_MATCHES { GREP_MAX_MATCHES as int } else { n as int },
        },
{
    match floored {
        None => DEFAULT_LIMIT,
        Some(n) => if n < 0 {
            0
        } else if n > 200 {
            GREP_MAX_MATCHES
        } else {
            n as usize
        },
    }
}


proof fn lemma_marker_bytes()
    ensures
        utf8_len("... [truncated]"@) == 15,
{
    let m = "... [truncated]"@;
    reveal_strlit("... [truncated]");
    assert(m.len() == 15);
    assert forall|i: int| 0 <= i < m.len() implies (#[trigger] m[i] as u32) < 0x80 by {
        assert(m == seq!['.', '.', '.', ' ', '[', 't', 'r', 'u', 'n', 'c', 'a', 't', 'e', 'd', ']']);
    }
    crate::text::lemma_ascii_utf8_len(m);
}

/// A clamped text takes at most the bytes it was clamped to (when there is
/// room for the marker), and begins as the text did.
pub proof fn law_clamped_text_fits(t: Seq<char>, max: nat)
    requires
        max >= 15,
    ensures
        utf8_len(clamped(t, max)) <= max,
        utf8_len(t) <= max ==> clamped(t, max) == t,
{
    if utf8_len(t) > max {
        let room: nat = (max - 15) as nat;
        crate::text::lemma_prefix_within_fits(t, room);
        crate::text::lemma_utf8_len_concat(prefix_within(t, room), "... [truncated]"@);
        lemma_marker_bytes();
    }
}

} // verus!
