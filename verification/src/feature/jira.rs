//! The pure parts of the Jira tracker: the arguments handed to the `jira`
//! CLI, parsing its plain table output, scraping issue keys, and rendering an
//! issue's description for the preview.

use vstd::prelude::*;
use crate::feature::adf::{adf_markdown, adf_to_markdown};
use crate::feature::config::{Config, string_map};
use crate::feature::tracker::{CreateRequest, Issue};
use crate::json::{Json, parse_json};
use crate::text::{opt_string, strings_v, append_chars, append_str, chars_eq, chars_of, join, join_chars, lines, lines_of, owned, repeat_char, split, split_chars, string_of, sub_chars, trim, trim_chars, trim_end_char, trim_end_char_chars, views};

verus! {

/// The columns requested from `jira issue list`.
pub const COLUMNS: &'static str = "TYPE,KEY,SUMMARY,STATUS,ASSIGNEE";

/// The column delimiter requested from `jira issue list`.
pub const DELIM: &'static str = "|";

/// The result of running the jira CLI.
pub struct Output {
    pub stdout: String,
    pub stderr: String,
    pub success: bool,
}

/// Both output streams, for error messages: whichever is non-empty, or both
/// on separate lines.
pub open spec fn combined_spec(stdout: Seq<char>, stderr: Seq<char>) -> Seq<char> {
    if stdout.len() == 0 {
        stderr
    } else if stderr.len() == 0 {
        stdout
    } else {
        stdout + "\n"@ + stderr
    }
}

/// What the preview of an issue is, given the preview of its decoded JSON:
/// the JSON's preview, or the decode error when the text is not JSON.
pub open spec fn issue_preview(raw_json: Seq<char>, r: Result<String, String>) -> bool {
    match crate::json::json_parse(raw_json) {
        Some(v) => match issue_fields(v) {
            Some((summary, d)) => r matches Ok(s) && s@ == "# "@ + summary + "\n\n"@ + issue_body(d),
            None => r matches Err(e) && e@ == "decode issue JSON"@,
        },
        None => r matches Err(e) && e@ == "decode issue JSON"@,
    }
}

/// Build the Markdown preview of an issue from `jira issue view --raw`
/// output: the summary as a level-1 heading, then the ADF description (or a
/// placeholder); an error when the text is not an issue's JSON.
pub fn render_issue(raw_json: &str) -> (r: Result<String, String>)
    ensures
        issue_preview(raw_json@, r),
{
    match parse_json(raw_json) {
        Some(v) => render_issue_json(&v),
        None => Err(owned("decode issue JSON")),
    }
}

impl Output {
    /// Stdout and stderr together: whichever is non-empty, or both separated
    /// by a newline.
    pub fn combined(&self) -> (r: String)
        ensures
            r@ == combined_spec(self.stdout@, self.stderr@),
    {
        let out = chars_of(self.stdout.as_str());
        let err = chars_of(self.stderr.as_str());
        if out.len() == 0 {
            string_of(err.as_slice())
        } else if err.len() == 0 {
            string_of(out.as_slice())
        } else {
            let mut r = out;
            append_str(&mut r, "\n");
            append_chars(&mut r, err.as_slice());
            string_of(r.as_slice())
        }
    }
}

/// An issue as a value: kind, key, summary, status, assignee.
pub type IssueV = (Seq<char>, Seq<char>, Seq<char>, Seq<char>, Seq<char>);

/// An issue's fields as a value.
pub open spec fn issue_v(i: Issue) -> IssueV {
    (i.kind@, i.key@, i.summary@, i.status@, i.assignee@)
}

/// The trimmed `|`-separated columns of a table row.
pub open spec fn columns(line: Seq<char>) -> Seq<Seq<char>> {
    split(line, '|').map_values(|c: Seq<char>| trim(c))
}

/// The issue on row `i` of the plain table, if the row holds one: blank rows,
/// rows with fewer than four columns and a leading header row (first column
/// `TYPE`) hold none.
pub open spec fn parse_row(i: int, raw_line: Seq<char>) -> Option<IssueV> {
    let line = trim_end_char(raw_line, '\r');
    let cols = columns(line);
    if trim(line).len() == 0 || cols.len() < 4 || (i == 0 && cols[0] == "TYPE"@) {
        None
    } else {
        Some((cols[0], cols[1], cols[2], cols[3], if cols.len() > 4 { cols[4] } else { seq![] }))
    }
}

/// A row that holds an issue gives its columns whole: with the row's `\r`
/// dropped and the row split at each `|`, the type, key, summary and status
/// are the first four pieces trimmed, and the assignee is the fifth trimmed
/// (empty when there is none).
pub proof fn lemma_row_columns(i: int, raw_line: Seq<char>)
    ensures
        parse_row(i, raw_line) matches Some(v) ==> {
            let pieces = split(trim_end_char(raw_line, '\r'), '|');
            &&& pieces.len() >= 4
            &&& v.0 == trim(pieces[0])
            &&& v.1 == trim(pieces[1])
            &&& v.2 == trim(pieces[2])
            &&& v.3 == trim(pieces[3])
            &&& v.4 == (if pieces.len() > 4 { trim(pieces[4]) } else { Seq::<char>::empty() })
        },
{
}

/// Every issue of the table comes from a row of it: issue `k` of the first
/// `n` rows is what row `j` holds, for some `j` below `n`; no row gives more
/// than one issue.
pub proof fn lemma_rows_in_order(rows: Seq<Seq<char>>, n: int)
    requires
        0 <= n <= rows.len(),
    ensures
        forall|k: int| #![trigger parse_rows(rows, n)[k]] 0 <= k < parse_rows(rows, n).len() ==> exists|j: int|
            0 <= j < n && #[trigger] parse_row(j, rows[j]) == Some(parse_rows(rows, n)[k]),
        parse_rows(rows, n).len() <= n,
    decreases n,
{
    if n > 0 {
        lemma_rows_in_order(rows, n - 1);
        let prev = parse_rows(rows, n - 1);
        assert forall|k: int| #![trigger parse_rows(rows, n)[k]] 0 <= k < parse_rows(rows, n).len() implies exists|j: int|
            0 <= j < n && #[trigger] parse_row(j, rows[j]) == Some(parse_rows(rows, n)[k]) by {
            if k < prev.len() {
                assert(parse_rows(rows, n)[k] == prev[k]);
            } else {
                assert(parse_row(n - 1, rows[n - 1]) == Some(parse_rows(rows, n)[k]));
            }
        }
    }
}

/// The issues held by the first `n` rows of `rows`, in order.
pub open spec fn parse_rows(rows: Seq<Seq<char>>, n: int) -> Seq<IssueV>
    decreases n,
{
    if n <= 0 {
        seq![]
    } else {
        let s = parse_rows(rows, n - 1);
        match parse_row(n - 1, rows[n - 1]) {
            Some(v) => s.push(v),
            None => s,
        }
    }
}

/// The issues of a `--plain --delimiter "|"` table, the rows being the
/// `\n`-separated pieces of `raw`.
pub open spec fn parse_list_spec(raw: Seq<char>) -> Seq<IssueV> {
    let rows = split(raw, '\n');
    parse_rows(rows, rows.len() as int)
}

fn is_type_header(c: &Vec<char>) -> (r: bool)
    ensures
        r == (c@ == "TYPE"@),
{
    let t = chars_of("TYPE");
    chars_eq(c.as_slice(), t.as_slice())
}

/// Parse the `--plain --delimiter "|"` table (header row skipped). Summaries
/// are kept whole; display truncation is the picker's job.
pub fn parse_list(raw: &str) -> (r: Vec<Issue>)
    ensures
        r@.map_values(|i: Issue| issue_v(i)) == parse_list_spec(raw@),
{
    let rc = chars_of(raw);
    let rows = split_chars(rc.as_slice(), '\n');
    let ghost rv = views(rows@);
    let mut out: Vec<Issue> = Vec::new();
    let mut i: usize = 0;
    while i < rows.len()
        invariant
            i <= rows@.len(),
            rv == views(rows@),
            rv == split(raw@, '\n'),
            out@.map_values(|x: Issue| issue_v(x)) == parse_rows(rv, i as int),
        decreases rows.len() - i,
    {
        let line = trim_end_char_chars(rows[i].as_slice(), '\r');
        let t = trim_chars(line.as_slice());
        let parts = split_chars(line.as_slice(), '|');
        let mut cols: Vec<Vec<char>> = Vec::new();
        let mut k: usize = 0;
        while k < parts.len()
            invariant
                k <= parts@.len(),
                views(cols@) == views(parts@).take(k as int).map_values(|c: Seq<char>| trim(c)),
            decreases parts.len() - k,
        {
            let c = trim_chars(parts[k].as_slice());
            let ghost cv = cols@;
            cols.push(c);
            proof {
                crate::text::lemma_views_push(cv, c);
                assert(views(cols@) =~= views(parts@).take(k + 1).map_values(
                    |c: Seq<char>| trim(c),
                ));
            }
            k += 1;
        }
        proof {
            assert(views(parts@).take(parts@.len() as int) =~= views(parts@));
            assert(views(cols@) == columns(line@));
            assert(rv[i as int] == rows@[i as int]@);
        }
        let ghost old_out = out@;
        if t.len() == 0 || cols.len() < 4 || (i == 0 && is_type_header(&cols[0])) {
        } else {
            let assignee = if cols.len() > 4 {
                string_of(cols[4].as_slice())
            } else {
                String::new()
            };
            let iss = Issue {
                kind: string_of(cols[0].as_slice()),
                key: string_of(cols[1].as_slice()),
                summary: string_of(cols[2].as_slice()),
                status: string_of(cols[3].as_slice()),
                assignee,
            };
            proof {
                assert(views(cols@)[0] == cols@[0]@);
                assert(views(cols@)[1] == cols@[1]@);
                assert(views(cols@)[2] == cols@[2]@);
                assert(views(cols@)[3] == cols@[3]@);
                if cols@.len() > 4 {
                    assert(views(cols@)[4] == cols@[4]@);
                }
                assert(parse_row(i as int, rv[i as int]) == Some(issue_v(iss)));
            }
            out.push(iss);
            proof {
                assert(out@.map_values(|x: Issue| issue_v(x)) =~= old_out.map_values(
                    |x: Issue| issue_v(x),
                ).push(issue_v(iss)));
            }
        }
        i += 1;
    }
    out
}

/// If `line` is `hN. <text>` with `N` in `1..=6`, the level and the text.
pub open spec fn wiki_heading_spec(line: Seq<char>) -> Option<(nat, Seq<char>)> {
    if line.len() >= 4 && line[0] == 'h' && '1' <= line[1] <= '6' && line[2] == '.' && line[3] == ' ' {
        Some(((line[1] as u32 - '0' as u32) as nat, line.skip(4)))
    } else {
        None
    }
}

/// A line `hN. text` with `N` from 1 to 6 becomes `N` hashes, a space and
/// the text; a line that does not start that way is kept as it is.
pub proof fn lemma_wiki_heading_line(d: char, text: Seq<char>, line: Seq<char>)
    ensures
        '1' <= d <= '6' ==> normalize_line(seq!['h', d, '.', ' '] + text) == repeat_char('#', (d as u32 - '0' as u32) as nat)
            + " "@ + text,
        (line.len() < 4 || line[0] != 'h' || !('1' <= line[1] <= '6') || line[2] != '.' || line[3] != ' ')
            ==> normalize_line(line) == line,
{
    let l = seq!['h', d, '.', ' '] + text;
    assert(l.skip(4) =~= text);
}

/// A wiki heading line as a Markdown heading; other lines unchanged.
pub open spec fn normalize_line(line: Seq<char>) -> Seq<char> {
    match wiki_heading_spec(line) {
        Some((level, text)) => repeat_char('#', level) + " "@ + text,
        None => line,
    }
}

/// Every line of `md` normalized, joined by `\n`.
pub open spec fn normalize_wiki_spec(md: Seq<char>) -> Seq<char> {
    join(lines(md).map_values(|l: Seq<char>| normalize_line(l)), "\n"@)
}

/// If `line` is `hN. <text>` (N in 1..=6), return `(N, text)`.
pub fn wiki_heading(line: &[char]) -> (r: Option<(usize, Vec<char>)>)
    ensures
        match r {
            Some((level, text)) => wiki_heading_spec(line@) == Some((level as nat, text@)),
            None => wiki_heading_spec(line@) is None,
        },
{
    if line.len() >= 4 && line[0] == 'h' && '1' <= line[1] && line[1] <= '6' && line[2] == '.'
        && line[3] == ' ' {
        let level = (line[1] as u32 - '0' as u32) as usize;
        let text = sub_chars(line, 4, line.len());
        proof {
            assert(text@ =~= line@.skip(4));
        }
        Some((level, text))
    } else {
        None
    }
}

/// Many Jira descriptions are authored in wiki markup that lands in ADF as
/// literal text (e.g. a paragraph reading "h3. Impact"). Convert a leading
/// `hN.` heading marker to a Markdown heading so it renders as one.
pub fn normalize_wiki(md: &str) -> (r: String)
    ensures
        r@ == normalize_wiki_spec(md@),
{
    let mc = chars_of(md);
    let ls = lines_of(mc.as_slice());
    let mut out: Vec<Vec<char>> = Vec::new();
    let mut i: usize = 0;
    while i < ls.len()
        invariant
            i <= ls@.len(),
            ls@.len() == lines(md@).len(),
            forall|k: int| 0 <= k < ls@.len() ==> #[trigger] ls@[k]@ == lines(md@)[k],
            views(out@) == lines(md@).take(i as int).map_values(|l: Seq<char>| normalize_line(l)),
        decreases ls.len() - i,
    {
        let line = match wiki_heading(ls[i].as_slice()) {
            Some((level, text)) => {
                let mut h: Vec<char> = Vec::new();
                let mut k: usize = 0;
                while k < level
                    invariant
                        k <= level,
                        h@ == repeat_char('#', k as nat),
                    decreases level - k,
                {
                    h.push('#');
                    proof {
                        assert(h@ =~= repeat_char('#', (k + 1) as nat));
                    }
                    k += 1;
                }
                append_str(&mut h, " ");
                append_chars(&mut h, text.as_slice());
                h
            },
            None => crate::text::copy_chars(ls[i].as_slice()),
        };
        proof {
            assert(line@ == normalize_line(lines(md@)[i as int]));
        }
        let ghost ov = out@;
        out.push(line);
        proof {
            crate::text::lemma_views_push(ov, line);
            assert(views(out@) =~= lines(md@).take(i + 1).map_values(|l: Seq<char>| normalize_line(l)));
        }
        i += 1;
    }
    proof {
        assert(lines(md@).take(ls@.len() as int) =~= lines(md@));
    }
    let nl = chars_of("\n");
    let joined = join_chars(&out, nl.as_slice());
    string_of(joined.as_slice())
}

/// The preview body: the description's Markdown with wiki headings
/// converted, or a placeholder when there is none.
pub open spec fn issue_body(description: Json) -> Seq<char> {
    if description is Null {
        "_No description_"@
    } else {
        let md = normalize_wiki_spec(adf_markdown(description));
        if md.len() == 0 {
            "_No description_"@
        } else {
            md
        }
    }
}

/// Build the Markdown preview of an issue: the summary as a level-1 heading,
/// then the ADF description (or a placeholder).
pub fn render_issue_fields(summary: &str, description: &Json) -> (r: String)
    ensures
        r@ == "# "@ + summary@ + "\n\n"@ + issue_body(*description),
{
    let body: Vec<char> = if description.is_null() {
        chars_of("_No description_")
    } else {
        let md = adf_to_markdown(description);
        let norm = normalize_wiki(md.as_str());
        let nc = chars_of(norm.as_str());
        if nc.len() == 0 {
            chars_of("_No description_")
        } else {
            nc
        }
    };
    let mut r = chars_of("# ");
    append_str(&mut r, summary);
    append_str(&mut r, "\n\n");
    append_chars(&mut r, body.as_slice());
    string_of(r.as_slice())
}

/// A character of an issue key after its first letter.
pub open spec fn key_char(c: char) -> bool {
    ('A' <= c <= 'Z') || ('0' <= c <= '9') || c == '_'
}

/// The end of the run of key characters starting at `j`.
pub open spec fn run_end(s: Seq<char>, j: int) -> int
    decreases s.len() - j,
{
    if 0 <= j < s.len() && key_char(s[j]) {
        run_end(s, j + 1)
    } else {
        j
    }
}

/// The end of the run of digits starting at `j`.
pub open spec fn digits_end(s: Seq<char>, j: int) -> int
    decreases s.len() - j,
{
    if 0 <= j < s.len() && '0' <= s[j] <= '9' {
        digits_end(s, j + 1)
    } else {
        j
    }
}

/// Every character before `run_end(s, j)` is a key character, and the one at it is not.
pub proof fn lemma_run_end(s: Seq<char>, j: int)
    ensures
        run_end(s, j) >= j,
        0 <= j <= s.len() ==> run_end(s, j) <= s.len(),
        forall|k: int| j <= k < run_end(s, j) ==> key_char(#[trigger] s[k]) && 0 <= k < s.len(),
        0 <= run_end(s, j) < s.len() ==> !key_char(s[run_end(s, j)]),
    decreases s.len() - j,
{
    if 0 <= j < s.len() && key_char(s[j]) {
        lemma_run_end(s, j + 1);
    }
}

/// Every character before `digits_end(s, j)` is a digit, and the one at it is not.
pub proof fn lemma_digits_end(s: Seq<char>, j: int)
    ensures
        digits_end(s, j) >= j,
        0 <= j <= s.len() ==> digits_end(s, j) <= s.len(),
        forall|k: int| j <= k < digits_end(s, j) ==> '0' <= #[trigger] s[k] <= '9' && 0 <= k < s.len(),
        0 <= digits_end(s, j) < s.len() ==> !('0' <= s[digits_end(s, j)] <= '9'),
    decreases s.len() - j,
{
    if 0 <= j < s.len() && '0' <= s[j] <= '9' {
        lemma_digits_end(s, j + 1);
    }
}

/// The first issue key found scanning `s` from `i`: an uppercase letter
/// starting a run of at least two key characters, then `-`, then at least one
/// digit. A run that is not followed by such a suffix is skipped whole.
pub open spec fn scan_from(s: Seq<char>, i: int) -> Option<Seq<char>>
    decreases s.len() - i,
{
    if i < 0 || i >= s.len() {
        None
    } else if !('A' <= s[i] <= 'Z') {
        scan_from(s, i + 1)
    } else {
        let j = run_end(s, i + 1);
        proof {
            lemma_run_end(s, i + 1);
        }
        if j > i + 1 && j < s.len() && s[j] == '-' && digits_end(s, j + 1) > j + 1 {
            proof {
                lemma_digits_end(s, j + 1);
            }
            Some(s.subrange(i, digits_end(s, j + 1)))
        } else {
            scan_from(s, j)
        }
    }
}

/// The shape of a Jira key: `[A-Z][A-Z0-9_]+-[0-9]+`.
pub open spec fn key_shape(k: Seq<char>) -> bool {
    exists|d: int|
        2 <= d < k.len() - 1 && 'A' <= k[0] <= 'Z' && k[d] == '-' && (forall|x: int|
            1 <= x < d ==> key_char(#[trigger] k[x])) && (forall|x: int|
            d < x < k.len() ==> '0' <= #[trigger] k[x] <= '9')
}

/// Scrape a Jira key (e.g. `DRM-1234`) from create output:
/// `[A-Z][A-Z0-9_]+-[0-9]+`.
pub fn scan_key(s: &str) -> (r: Option<String>)
    ensures
        match r {
            Some(k) => scan_from(s@, 0) == Some(k@),
            None => scan_from(s@, 0) is None,
        },
{
    let b = chars_of(s);
    let n = b.len();
    let mut i: usize = 0;
    while i < n
        invariant
            i <= n,
            n == b@.len(),
            b@ == s@,
            scan_from(s@, 0) == scan_from(s@, i as int),
        decreases n - i,
    {
        if !('A' <= b[i] && b[i] <= 'Z') {
            i += 1;
            continue;
        }
        let start = i;
        let mut j = i + 1;
        while j < n && (('A' <= b[j] && b[j] <= 'Z') || ('0' <= b[j] && b[j] <= '9') || b[j] == '_')
            invariant
                start < j <= n,
                n == b@.len(),
                run_end(b@, start + 1) == run_end(b@, j as int),
            decreases n - j,
        {
            j += 1;
        }
        proof {
            lemma_run_end(b@, start + 1);
        }
        if j > start + 1 && j < n && b[j] == '-' {
            let mut k = j + 1;
            while k < n && '0' <= b[k] && b[k] <= '9'
                invariant
                    j < k <= n,
                    n == b@.len(),
                    digits_end(b@, j + 1) == digits_end(b@, k as int),
                decreases n - k,
            {
                k += 1;
            }
            if k > j + 1 {
                let key = sub_chars(b.as_slice(), start, k);
                return Some(string_of(key.as_slice()));
            }
        }
        i = j;
    }
    None
}

/// Whatever `scan_from` finds has the shape of a Jira key and occurs in `s`.
pub proof fn lemma_scan_key_shape(s: Seq<char>, i: int)
    ensures
        scan_from(s, i) matches Some(k) ==> key_shape(k) && exists|a: int|
            0 <= a <= s.len() - k.len() && #[trigger] s.subrange(a, a + k.len()) == k,
    decreases s.len() - i,
{
    if 0 <= i < s.len() {
        if !('A' <= s[i] <= 'Z') {
            lemma_scan_key_shape(s, i + 1);
        } else {
            let j = run_end(s, i + 1);
            lemma_run_end(s, i + 1);
            if j > i + 1 && j < s.len() && s[j] == '-' && digits_end(s, j + 1) > j + 1 {
                let e = digits_end(s, j + 1);
                lemma_digits_end(s, j + 1);
                let k = s.subrange(i, e);
                let d = j - i;
                assert(k[d] == '-');
                assert forall|x: int| 1 <= x < d implies key_char(#[trigger] k[x]) by {
                    assert(k[x] == s[i + x]);
                }
                assert forall|x: int| d < x < k.len() implies '0' <= #[trigger] k[x] <= '9' by {
                    assert(k[x] == s[i + x]);
                }
                assert(key_shape(k));
                assert(s.subrange(i, i + k.len()) == k);
            } else {
                lemma_scan_key_shape(s, j);
            }
        }
    }
}

/// `prefix` followed by each of `items`.
pub open spec fn prefixed(prefix: Seq<char>, items: Seq<Seq<char>>) -> Seq<Seq<char>> {
    items.map_values(|x: Seq<char>| prefix + x)
}

/// `-a ASSIGNEE` when an assignee is given.
pub open spec fn assignee_args(assignee: Seq<char>) -> Seq<Seq<char>> {
    if assignee.len() > 0 {
        seq!["-a"@, assignee]
    } else {
        seq![]
    }
}

/// The arguments of `jira issue list`: excluded statuses and types, the
/// assignee, and the plain `|`-delimited table format.
pub open spec fn list_args_spec(statuses: Seq<Seq<char>>, types: Seq<Seq<char>>, assignee: Seq<char>) -> Seq<Seq<char>> {
    seq!["issue"@, "list"@] + prefixed("-s~"@, statuses) + prefixed("-t~"@, types) + assignee_args(assignee)
        + seq!["--plain"@, "--columns"@, COLUMNS@, "--delimiter"@, DELIM@]
}

fn push_str(v: &mut Vec<String>, s: &str)
    ensures
        strings_v(final(v)@) == strings_v(old(v)@).push(s@),
{
    let ghost ov = v@;
    v.push(owned(s));
    proof {
        assert(strings_v(v@) =~= strings_v(ov).push(s@));
    }
}

fn push_prefixed(v: &mut Vec<String>, prefix: &str, items: &Vec<String>)
    ensures
        strings_v(final(v)@) == strings_v(old(v)@) + prefixed(prefix@, strings_v(items@)),
{
    let mut i: usize = 0;
    while i < items.len()
        invariant
            i <= items@.len(),
            strings_v(v@) == strings_v(old(v)@) + prefixed(prefix@, strings_v(items@).take(i as int)),
        decreases items.len() - i,
    {
        let mut c = chars_of(prefix);
        append_str(&mut c, items[i].as_str());
        let ghost ov = v@;
        v.push(string_of(c.as_slice()));
        proof {
            assert(strings_v(v@) =~= strings_v(ov).push(prefix@ + items@[i as int]@));
            assert(prefixed(prefix@, strings_v(items@).take(i + 1)) =~= prefixed(
                prefix@,
                strings_v(items@).take(i as int),
            ).push(prefix@ + items@[i as int]@));
        }
        i += 1;
    }
    proof {
        assert(strings_v(items@).take(items@.len() as int) =~= strings_v(items@));
    }
}

/// The arguments of `jira issue list` for `cfg` and `assignee`.
pub fn list_args(cfg: &Config, assignee: &str) -> (r: Vec<String>)
    ensures
        strings_v(r@) == list_args_spec(
            strings_v(cfg.list.exclude_statuses@),
            strings_v(cfg.list.exclude_types@),
            assignee@,
        ),
{
    let mut args: Vec<String> = Vec::new();
    push_str(&mut args, "issue");
    push_str(&mut args, "list");
    push_prefixed(&mut args, "-s~", &cfg.list.exclude_statuses);
    push_prefixed(&mut args, "-t~", &cfg.list.exclude_types);
    if !assignee.is_empty() {
        push_str(&mut args, "-a");
        push_str(&mut args, assignee);
    }
    push_str(&mut args, "--plain");
    push_str(&mut args, "--columns");
    push_str(&mut args, COLUMNS);
    push_str(&mut args, "--delimiter");
    push_str(&mut args, DELIM);
    proof {
        assert(strings_v(args@) =~= list_args_spec(
            strings_v(cfg.list.exclude_statuses@),
            strings_v(cfg.list.exclude_types@),
            assignee@,
        ));
    }
    args
}

/// Why a create request is refused before anything runs.
#[derive(Debug, Clone, Copy, PartialEq, Eq, Structural)]
pub enum CreateError {
    /// Sub-tasks need a parent, which this tool does not ask for.
    SubtaskWithoutParent,
    /// The summary is blank.
    EmptySummary,
}

impl CreateError {
    /// The message shown for the refusal.
    pub fn message(&self) -> (r: String)
        ensures
            *self is SubtaskWithoutParent ==> r@ == "cannot create a Sub-task without a parent"@,
            *self is EmptySummary ==> r@ == "empty summary"@,
    {
        match self {
            CreateError::SubtaskWithoutParent => owned("cannot create a Sub-task without a parent"),
            CreateError::EmptySummary => owned("empty summary"),
        }
    }
}

/// How a create request is checked: sub-tasks and blank summaries are
/// refused; otherwise the type (`Task` when none is given) and the trimmed
/// summary are used.
pub open spec fn validate_create_spec(kind: Seq<char>, summary: Seq<char>) -> Result<(Seq<char>, Seq<char>), CreateError> {
    if kind == "Sub-task"@ {
        Err(CreateError::SubtaskWithoutParent)
    } else if trim(summary).len() == 0 {
        Err(CreateError::EmptySummary)
    } else {
        Ok((if kind.len() == 0 { "Task"@ } else { kind }, trim(summary)))
    }
}

/// Check a create request, returning the issue type and trimmed summary to
/// create it with.
pub fn validate_create(req: &CreateRequest) -> (r: Result<(String, String), CreateError>)
    ensures
        match r {
            Ok((t, s)) => validate_create_spec(req.kind@, req.summary@) == Ok::<(Seq<char>, Seq<char>), CreateError>((t@, s@)),
            Err(e) => validate_create_spec(req.kind@, req.summary@) == Err::<(Seq<char>, Seq<char>), CreateError>(e),
        },
{
    let kc = chars_of(req.kind.as_str());
    let sub = chars_of(crate::feature::tracker::kind::SUBTASK);
    if chars_eq(kc.as_slice(), sub.as_slice()) {
        return Err(CreateError::SubtaskWithoutParent);
    }
    let sc = chars_of(req.summary.as_str());
    let summary = trim_chars(sc.as_slice());
    if summary.len() == 0 {
        return Err(CreateError::EmptySummary);
    }
    let typ = if kc.len() == 0 {
        owned(crate::feature::tracker::kind::TASK)
    } else {
        string_of(kc.as_slice())
    };
    Ok((typ, string_of(summary.as_slice())))
}

/// `--custom key=value` for each custom field.
pub open spec fn custom_args(entries: Seq<(Seq<char>, Seq<char>)>) -> Seq<Seq<char>>
    decreases entries.len(),
{
    if entries.len() == 0 {
        seq![]
    } else {
        custom_args(entries.drop_last()) + seq!["--custom"@, entries.last().0 + "="@ + entries.last().1]
    }
}

/// The arguments of `jira issue create`.
pub open spec fn create_args_spec(
    typ: Seq<char>,
    summary: Seq<char>,
    assignee: Seq<char>,
    custom: Seq<(Seq<char>, Seq<char>)>,
) -> Seq<Seq<char>> {
    seq!["issue"@, "create"@, "--no-input"@, "-t"@, typ, "-s"@, summary] + assignee_args(assignee)
        + custom_args(custom)
}

/// The arguments of `jira issue create` for a validated type and summary:
/// the assignee, then each configured custom field in key order.
pub fn create_args(cfg: &Config, typ: &str, summary: &str, assignee: &str) -> (r: Vec<String>)
    ensures
        exists|custom: Seq<(Seq<char>, Seq<char>)>|
            crate::feature::config::sorted_entries_of(custom, string_map(cfg.create.custom))
                && strings_v(r@) == create_args_spec(typ@, summary@, assignee@, custom),
{
    let mut args: Vec<String> = Vec::new();
    push_str(&mut args, "issue");
    push_str(&mut args, "create");
    push_str(&mut args, "--no-input");
    push_str(&mut args, "-t");
    push_str(&mut args, typ);
    push_str(&mut args, "-s");
    push_str(&mut args, summary);
    if !assignee.is_empty() {
        push_str(&mut args, "-a");
        push_str(&mut args, assignee);
    }
    let ghost base = strings_v(args@);
    let entries = crate::feature::config::string_map_entries(&cfg.create.custom);
    let ghost ev = crate::feature::config::pairs_v(entries@);
    let mut i: usize = 0;
    while i < entries.len()
        invariant
            i <= entries@.len(),
            ev == crate::feature::config::pairs_v(entries@),
            strings_v(args@) == base + custom_args(ev.take(i as int)),
        decreases entries.len() - i,
    {
        push_str(&mut args, "--custom");
        let mut kv = chars_of(entries[i].0.as_str());
        append_str(&mut kv, "=");
        append_str(&mut kv, entries[i].1.as_str());
        let ghost ov = args@;
        args.push(string_of(kv.as_slice()));
        proof {
            assert(strings_v(args@) =~= strings_v(ov).push(kv@));
            assert(ev.take(i + 1).drop_last() =~= ev.take(i as int));
            assert(ev.take(i + 1).last() == ev[i as int]);
            assert(strings_v(args@) =~= base + custom_args(ev.take(i + 1)));
        }
        i += 1;
    }
    proof {
        assert(ev.take(entries@.len() as int) =~= ev);
        assert(strings_v(args@) =~= create_args_spec(typ@, summary@, assignee@, ev));
    }
    args
}

/// The summary and description of an issue's `--raw` JSON, read as the
/// tracker reads it: `fields` must be an object; a missing `summary` is
/// empty (a non-string one is an error); a missing `description` is null.
pub open spec fn issue_fields(v: Json) -> Option<(Seq<char>, Json)> {
    match crate::json::json_get(v, "fields"@) {
        Some(f) => if f is Object {
            let d = match crate::json::json_get(f, "description"@) {
                Some(d) => d,
                None => Json::Null,
            };
            match crate::json::json_get(f, "summary"@) {
                None => Some((seq![], d)),
                Some(Json::Str(s)) => Some((s@, d)),
                Some(_) => None,
            }
        } else {
            None
        },
        None => None,
    }
}

/// The preview of an issue from its `--raw` JSON; an error when the JSON
/// does not have the issue's shape.
pub fn render_issue_json(v: &Json) -> (r: Result<String, String>)
    ensures
        match issue_fields(*v) {
            Some((summary, d)) => r matches Ok(s) && s@ == "# "@ + summary + "\n\n"@ + issue_body(d),
            None => r matches Err(e) && e@ == "decode issue JSON"@,
        },
{
    let f = match v.get("fields") {
        Some(f) => f,
        None => return Err(owned("decode issue JSON")),
    };
    match f {
        Json::Object(_) => {},
        _ => return Err(owned("decode issue JSON")),
    }
    let null = Json::Null;
    let d = match f.get("description") {
        Some(d) => d,
        None => &null,
    };
    match f.get("summary") {
        None => {
            proof {
                reveal_strlit("");
            }
            Ok(render_issue_fields("", d))
        },
        Some(Json::Str(s)) => Ok(render_issue_fields(s.as_str(), d)),
        Some(_) => Err(owned("decode issue JSON")),
    }
}

impl Output {
    /// The result of a run from its raw streams: each with trailing
    /// whitespace trimmed.
    pub fn from_raw(stdout: &str, stderr: &str, success: bool) -> (r: Output)
        ensures
            r.stdout@ == crate::text::trim_end(stdout@),
            r.stderr@ == crate::text::trim_end(stderr@),
            r.success == success,
    {
        let o = chars_of(stdout);
        let e = chars_of(stderr);
        let ot = crate::text::trim_end_chars(o.as_slice());
        let et = crate::text::trim_end_chars(e.as_slice());
        Output { stdout: string_of(ot.as_slice()), stderr: string_of(et.as_slice()), success }
    }
}

/// The `jira` CLI tracker's state: the configuration and the current user,
/// once resolved via `jira me`.
#[derive(Debug)]
pub struct Jira {
    pub cfg: Config,
    pub me: Option<String>,
}

/// `prefix`, a newline, then the combined output.
pub open spec fn failure_msg(prefix: Seq<char>, out: Output) -> Seq<char> {
    prefix + "\n"@ + combined_spec(out.stdout@, out.stderr@)
}

fn failure(prefix: &str, out: &Output) -> (r: String)
    ensures
        r@ == failure_msg(prefix@, *out),
{
    let mut t = chars_of(prefix);
    append_str(&mut t, "\n");
    let c = out.combined();
    append_str(&mut t, c.as_str());
    string_of(t.as_slice())
}

impl Jira {
    /// A tracker for `cfg`; the current user is not known yet.
    pub fn new(cfg: Config) -> (r: Jira)
        ensures
            r.cfg == cfg,
            r.me is None,
    {
        Jira { cfg, me: None }
    }

    /// The executable to run: the configured one, else `jira`.
    pub fn bin(&self) -> (r: String)
        ensures
            r@ == (if self.cfg.jira_bin@.len() == 0 { "jira"@ } else { self.cfg.jira_bin@ }),
    {
        if self.cfg.jira_bin.as_str().is_empty() {
            owned("jira")
        } else {
            self.cfg.jira_bin.clone()
        }
    }

    /// The account to list and create for, when already known: the
    /// configured assignee, else the current user resolved earlier. `None`
    /// means `jira me` has to be asked.
    pub fn assignee(&self) -> (r: Option<String>)
        ensures
            self.cfg.assignee@.len() > 0 ==> (r matches Some(a) && a@ == self.cfg.assignee@),
            self.cfg.assignee@.len() == 0 ==> opt_string(r) == opt_string(self.me),
    {
        if !self.cfg.assignee.as_str().is_empty() {
            return Some(self.cfg.assignee.clone());
        }
        match &self.me {
            Some(m) => Some(m.clone()),
            None => None,
        }
    }

    /// Take the output of `jira me`: the trimmed user, remembered from now
    /// on; or, when it failed, the message to report.
    pub fn accept_me(&mut self, out: &Output) -> (r: Result<String, String>)
        ensures
            final(self).cfg == old(self).cfg,
            out.success ==> (r matches Ok(m) && m@ == trim(out.stdout@)) && opt_string(final(self).me) == Some(trim(out.stdout@)),
            !out.success ==> (r matches Err(e) && e@ == failure_msg(
                "could not resolve current user via `jira me` (is the jira CLI set up? run `jira init`):"@,
                *out,
            )) && final(self).me == old(self).me,
    {
        if !out.success {
            return Err(failure("could not resolve current user via `jira me` (is the jira CLI set up? run `jira init`):", out));
        }
        let c = chars_of(out.stdout.as_str());
        let t = trim_chars(c.as_slice());
        let me = string_of(t.as_slice());
        self.me = Some(me.clone());
        Ok(me)
    }

    /// What `jira issue list` gave: the issues, or the message to report.
    pub fn list_result(out: &Output) -> (r: Result<Vec<Issue>, String>)
        ensures
            out.success ==> (r matches Ok(v) && v@.map_values(|i: Issue| issue_v(i)) == parse_list_spec(out.stdout@)),
            !out.success ==> (r matches Err(e) && e@ == failure_msg("`jira issue list` failed:"@, *out)),
    {
        if !out.success {
            return Err(failure("`jira issue list` failed:", out));
        }
        Ok(parse_list(out.stdout.as_str()))
    }

    /// The arguments of `jira issue view KEY --raw`.
    pub fn describe_args(key: &str) -> (r: Vec<String>)
        ensures
            strings_v(r@) == seq!["issue"@, "view"@, key@, "--raw"@],
    {
        let mut v: Vec<String> = Vec::new();
        push_str(&mut v, "issue");
        push_str(&mut v, "view");
        push_str(&mut v, key);
        push_str(&mut v, "--raw");
        proof {
            assert(strings_v(v@) =~= seq!["issue"@, "view"@, key@, "--raw"@]);
        }
        v
    }

    /// What `jira issue view` gave: the preview Markdown rendered from its
    /// raw JSON output, or the message to report.
    pub fn describe_result(key: &str, out: &Output) -> (r: Result<String, String>)
        ensures
            !out.success ==> (r matches Err(e) && e@ == failure_msg("`jira issue view "@ + key@ + "` failed:"@, *out)),
            out.success ==> issue_preview(out.stdout@, r),
    {
        if !out.success {
            let mut p = chars_of("`jira issue view ");
            append_str(&mut p, key);
            append_str(&mut p, "` failed:");
            let ps = string_of(p.as_slice());
            return Err(failure(ps.as_str(), out));
        }
        render_issue(out.stdout.as_str())
    }

    /// What `jira issue create` gave: the new key scraped from the output,
    /// or the message to report.
    pub fn create_result(out: &Output) -> (r: Result<String, String>)
        ensures
            !out.success ==> (r matches Err(e) && e@ == failure_msg("`jira issue create` failed:"@, *out)),
            out.success ==> match scan_from(combined_spec(out.stdout@, out.stderr@), 0) {
                Some(k) => r matches Ok(s) && s@ == k,
                None => r matches Err(e) && e@ == failure_msg("could not parse issue key from create output:"@, *out),
            },
    {
        if !out.success {
            return Err(failure("`jira issue create` failed:", out));
        }
        let c = out.combined();
        match scan_key(c.as_str()) {
            Some(k) => Ok(k),
            None => Err(failure("could not parse issue key from create output:", out)),
        }
    }

    /// The best-effort transition of a created issue: `jira issue move KEY
    /// STATUS` when a status is configured.
    pub fn move_args(&self, key: &str) -> (r: Option<Vec<String>>)
        ensures
            self.cfg.create.move_to@.len() == 0 ==> r is None,
            self.cfg.create.move_to@.len() > 0 ==> (r matches Some(v)
                && strings_v(v@) == seq!["issue"@, "move"@, key@, self.cfg.create.move_to@]),
    {
        if self.cfg.create.move_to.as_str().is_empty() {
            return None;
        }
        let mut v: Vec<String> = Vec::new();
        push_str(&mut v, "issue");
        push_str(&mut v, "move");
        push_str(&mut v, key);
        push_str(&mut v, self.cfg.create.move_to.as_str());
        proof {
            assert(strings_v(v@) =~= seq!["issue"@, "move"@, key@, self.cfg.create.move_to@]);
        }
        Some(v)
    }
}
} // verus!
