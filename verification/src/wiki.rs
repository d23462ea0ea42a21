//! Reading Coppermind's wikitext: the infobox parser, the markup stripper
//! and the mapping from an infobox to a `Character` or a `Book`.

use vstd::prelude::*;

use crate::character::{Character, CharacterView};
use crate::table::{map_of, Entries, Table};
use crate::Book;
use crate::text::{
    lemma_index_of_bound, chars_of, find_char, find_text, find_from, index_of, string_of, trim, trim_bounds,
};

verus! {

/// Coppermind's MediaWiki endpoint.
pub const API_URL: &'static str = "https://coppermind.net/w/api.php";

/// Templates whose transclusions define the character and book lists.
pub const CHARACTER_TEMPLATE: &'static str = "Template:Character";

pub const BOOK_TEMPLATE: &'static str = "Template:Book";

/// Infobox names passed to `parse_table`.
pub const CHARACTER_TABLE: &'static str = "character";

pub const BOOK_TABLE: &'static str = "book";

// ---------------------------------------------------------------- parse_table

/// How a character changes the template nesting depth.
pub open spec fn brace_delta(c: char) -> int {
    if c == '{' {
        1
    } else if c == '}' {
        -1
    } else {
        0
    }
}

/// The first position at or after `j` where the nesting depth, which is
/// `depth` just before `j`, drops to zero or below.
pub open spec fn closing_from(s: Seq<char>, j: int, depth: int) -> Option<int>
    decreases s.len() - j,
{
    if j < 0 || j >= s.len() {
        None
    } else if depth + brace_delta(s[j]) <= 0 {
        Some(j)
    } else {
        closing_from(s, j + 1, depth + brace_delta(s[j]))
    }
}

/// The opening of the infobox named `name`.
pub open spec fn table_prefix(name: Seq<char>) -> Seq<char> {
    seq!['{', '{'] + name
}

/// The text between `{{name` and the closing `}}` of the first template
/// whose text starts with `{{name`.
pub open spec fn table_body(s: Seq<char>, name: Seq<char>) -> Option<Seq<char>> {
    let prefix = table_prefix(name);
    match find_from(s, prefix, 0) {
        None => None,
        Some(start) => match closing_from(s, start, 0) {
            None => None,
            Some(end) => {
                let t = s.subrange(start, end + 1);
                if t.len() >= prefix.len() && t.subrange(0, prefix.len() as int) == prefix {
                    let rest = t.subrange(prefix.len() as int, t.len() as int);
                    if rest.len() >= 2 && rest[rest.len() - 2] == '}' && rest[rest.len() - 1]
                        == '}' {
                        Some(rest.subrange(0, rest.len() - 2))
                    } else {
                        None
                    }
                } else {
                    None
                }
            },
        },
    }
}

/// The pair that one infobox line `|key=value` holds, trimmed.
pub open spec fn line_entry(line: Seq<char>) -> Option<(Seq<char>, Seq<char>)> {
    if line.len() > 0 && line[0] == '|' {
        let rest = line.drop_first();
        match index_of(rest, '=') {
            Some(e) => Some(
                (trim(rest.subrange(0, e)), trim(rest.subrange(e + 1, rest.len() as int))),
            ),
            None => None,
        }
    } else {
        None
    }
}

/// The one-element sequence holding `o`'s value, or the empty sequence.
pub open spec fn opt_seq<T>(o: Option<T>) -> Seq<T> {
    match o {
        Some(x) => seq![x],
        None => Seq::empty(),
    }
}

/// The pairs of the lines of `s`, in order.
pub open spec fn lines_entries(s: Seq<char>) -> Entries
    decreases s.len(),
{
    match index_of(s, '\n') {
        None => opt_seq(line_entry(s)),
        Some(i) => {
            proof {
                lemma_index_of_bound(s, '\n');
            }
            if 0 <= i < s.len() {
                opt_seq(line_entry(s.subrange(0, i))) + lines_entries(
                    s.subrange(i + 1, s.len() as int),
                )
            } else {
                Seq::empty()
            }
        },
    }
}

/// The pairs of the infobox named `name` in `s`, in the order they appear.
pub open spec fn table_fields(s: Seq<char>, name: Seq<char>) -> Option<Entries> {
    match table_body(s, name) {
        Some(b) => Some(lines_entries(trim(b))),
        None => None,
    }
}

/// Position of the character that closes the template opened at `start`.
fn closing_brace(v: &Vec<char>, start: usize) -> (r: Option<usize>)
    requires
        start <= v@.len(),
    ensures
        match closing_from(v@, start as int, 0) {
            Some(j) => r == Some(j as usize),
            None => r is None,
        },
{
    let mut j = start;
    let mut opens: usize = 0;
    let mut closes: usize = 0;
    while j < v.len()
        invariant
            start <= j <= v@.len(),
            opens <= j - start,
            closes <= j - start,
            opens - closes > 0 || j == start,
            opens == 0 && closes == 0 ==> j == start,
            closing_from(v@, start as int, 0) == closing_from(v@, j as int, opens - closes),
        decreases v@.len() - j,
    {
        let c = v[j];
        if c == '{' {
            opens = opens + 1;
        } else if c == '}' {
            closes = closes + 1;
        }
        if opens <= closes {
            return Some(j);
        }
        j = j + 1;
    }
    None
}

/// The key/value pairs of the first infobox named `table` in `wikitext`.
///
/// The infobox is the first template whose text starts with `{{table`; it
/// ends where the braces opened there are closed. Each line of its body of
/// the form `|key=value` gives a pair, split at the first `=` and trimmed;
/// other lines are ignored, and a later pair replaces an earlier one with the
/// same key. `None` when there is no such template, its braces never close,
/// or it does not end in `}}`.
pub fn parse_table(wikitext: &str, table: &str) -> (r: Option<Table>)
    ensures
        match table_fields(wikitext@, table@) {
            Some(f) => r matches Some(t) && t.wf() && t@ == map_of(f),
            None => r is None,
        },
{
    let text = chars_of(wikitext);
    let mut prefix: Vec<char> = Vec::new();
    prefix.push('{');
    prefix.push('{');
    let name = chars_of(table);
    let mut k: usize = 0;
    while k < name.len()
        invariant
            k <= name@.len(),
            prefix@ == seq!['{', '{'] + name@.subrange(0, k as int),
        decreases name@.len() - k,
    {
        prefix.push(name[k]);
        k = k + 1;
    }
    assert(prefix@ =~= table_prefix(table@));
    let n = text.len();
    let start = match find_text(&text, &prefix) {
        Some(s) => s,
        None => return None,
    };
    proof {
        lemma_find_from_bound(text@, prefix@, 0);
    }
    assert(find_from(wikitext@, table_prefix(table@), 0) == Some(start as int));
    let end = match closing_brace(&text, start) {
        Some(e) => e,
        None => {
            assert(closing_from(wikitext@, start as int, 0) is None);
            return None;
        },
    };
    proof {
        lemma_closing_from_bound(text@, start as int, 0);
    }
    assert(end < n);
    let ghost t = text@.subrange(start as int, end + 1);
    let plen = prefix.len();
    if end - start < plen - 1 {
        return None;
    }
    assert(t.subrange(0, plen as int) =~= text@.subrange(start as int, start + plen));
    let rest_start = start + plen;
    let rest_end = end + 1;
    let ghost rest = t.subrange(plen as int, t.len() as int);
    assert(rest =~= text@.subrange(rest_start as int, rest_end as int));
    if rest_end - rest_start < 2 || text[rest_end - 2] != '}' || text[rest_end - 1] != '}' {
        return None;
    }
    let body_end = rest_end - 2;
    let ghost body = rest.subrange(0, rest.len() - 2);
    assert(body =~= text@.subrange(rest_start as int, body_end as int));
    assert(table_body(wikitext@, table@) == Some(body));
    let (a, b) = trim_bounds(&text, rest_start, body_end);
    let ghost tb = trim(body);
    assert(tb == text@.subrange(a as int, b as int));
    let mut out = Table::new();
    let mut pos = a;
    let ghost mut done: Entries = Seq::empty();
    assert(done + lines_entries(text@.subrange(pos as int, b as int)) =~= lines_entries(tb));
    loop
        invariant
            a <= pos <= b <= text@.len(),
            table_fields(wikitext@, table@) == Some(lines_entries(tb)),
            out.wf(),
            out@ == map_of(done),
            lines_entries(tb) == done + lines_entries(text@.subrange(pos as int, b as int)),
        decreases b - pos,
    {
        let nl = find_char(&text, pos, b, '\n');
        let line_end = match nl {
            Some(e) => e,
            None => b,
        };
        proof {
            lemma_lines_step(text@, pos as int, b as int);
        }
        let entry = line_pair(&text, pos, line_end);
        let ghost before = done;
        match entry {
            Some((key, val)) => {
                proof {
                    done = done.push((key@, val@));
                    assert(done.drop_last() =~= before);
                }
                out.insert(key, val);
            },
            None => {},
        }
        assert(done =~= before + opt_seq(line_entry(text@.subrange(pos as int, line_end as int))));
        match nl {
            Some(e) => {
                let ghost o = opt_seq(line_entry(text@.subrange(pos as int, e as int)));
                let ghost x = lines_entries(text@.subrange(e + 1, b as int));
                assert(lines_entries(text@.subrange(pos as int, b as int)) == o + x);
                assert((before + o) + x =~= before + (o + x));
                pos = e + 1;
            },
            None => {
                assert(lines_entries(text@.subrange(pos as int, b as int)) == opt_seq(line_entry(text@.subrange(pos as int, b as int))));
                assert(lines_entries(tb) =~= done);
                return Some(out);
            },
        }
    }
}

/// One step of `lines_entries`: the pairs of `t[pos..b]` are those of its
/// first line followed by those of the rest.
proof fn lemma_lines_step(t: Seq<char>, pos: int, b: int)
    requires
        0 <= pos <= b <= t.len(),
    ensures
        match index_of(t.subrange(pos, b), '\n') {
            Some(k) => pos + k < b && lines_entries(t.subrange(pos, b)) == opt_seq(
                line_entry(t.subrange(pos, pos + k)),
            ) + lines_entries(t.subrange(pos + k + 1, b)),
            None => lines_entries(t.subrange(pos, b)) == opt_seq(line_entry(t.subrange(pos, b))),
        },
{
    let s = t.subrange(pos, b);
    lemma_index_of_bound(s, '\n');
    if let Some(k) = index_of(s, '\n') {
        assert(s.subrange(0, k) =~= t.subrange(pos, pos + k));
        assert(s.subrange(k + 1, s.len() as int) =~= t.subrange(pos + k + 1, b));
    }
}

/// The pair that the line `v[from..to]` holds, if it is a `|key=value` line.
fn line_pair(v: &Vec<char>, from: usize, to: usize) -> (r: Option<(String, String)>)
    requires
        from <= to <= v@.len(),
    ensures
        match line_entry(v@.subrange(from as int, to as int)) {
            Some(p) => r matches Some(q) && q.0@ == p.0 && q.1@ == p.1,
            None => r is None,
        },
{
    let ghost line = v@.subrange(from as int, to as int);
    if from == to || v[from] != '|' {
        assert(from < to ==> line[0] == v@[from as int]);
        return None;
    }
    assert(line[0] == v@[from as int]);
    let ghost rest = line.drop_first();
    assert(rest =~= v@.subrange(from + 1, to as int));
    match find_char(v, from + 1, to, '=') {
        None => {
            assert(index_of(rest, '=') is None);
            None
        },
        Some(e) => {
            let ghost k = (e - (from + 1)) as int;
            assert(index_of(rest, '=') == Some(k));
            assert(rest.subrange(0, k) =~= v@.subrange(from + 1, e as int));
            assert(rest.subrange(k + 1, rest.len() as int) =~= v@.subrange(e + 1, to as int));
            let (ka, kb) = trim_bounds(v, from + 1, e);
            let (va, vb) = trim_bounds(v, e + 1, to);
            Some((string_of(v, ka, kb), string_of(v, va, vb)))
        },
    }
}

pub proof fn lemma_find_from_bound(s: Seq<char>, pat: Seq<char>, from: int)
    ensures
        find_from(s, pat, from) matches Some(i) ==> from <= i && i + pat.len() <= s.len()
            && s.subrange(i, i + pat.len()) == pat,
    decreases s.len() + 1 - from,
{
    if from < 0 || from + pat.len() > s.len() {
    } else if crate::text::occurs_at(s, pat, from) {
    } else {
        lemma_find_from_bound(s, pat, from + 1);
    }
}

pub proof fn lemma_closing_from_bound(s: Seq<char>, j: int, depth: int)
    ensures
        closing_from(s, j, depth) matches Some(e) ==> j <= e < s.len(),
    decreases s.len() - j,
{
    if j < 0 || j >= s.len() {
    } else if depth + brace_delta(s[j]) <= 0 {
    } else {
        lemma_closing_from_bound(s, j + 1, depth + brace_delta(s[j]));
    }
}

} // verus!

verus! {

// --------------------------------------------------------------------- format

/// The wiki markup that `format` strips: links, templates and `<small>` tags.
pub const MARKUP_PATTERN: &'static str = r"(?<brackets>\[\[([^\|\]]*?\|)?(.*?)\]\])(\{\{.*?\}\})?|(?<braces>\{\{([^\|\}]*\|)([^\|]*?)(\|.*?)?\}\})(\{\{.*?\}\})?|(?<small><small>(.*?)</small>)";

/// What a match of `MARKUP_PATTERN` is replaced with: the display text of a
/// link (group 3), the second field of a template (group 7), or nothing for
/// a `<small>` tag.
pub const MARKUP_REPLACEMENT: &'static str = "$3$7";

/// The shape of the markup `format` strips. The pattern has three
/// alternatives: a link `[[target|text]]`, a template `{{name|field|...}}`
/// and a `<small>` tag. A link and a template each also take in one template
/// that immediately follows them, such as a reference after a value, so
/// that it adds nothing to the result. The replacement keeps a link's text
/// (group 3) and a template's first field (group 7); a `<small>` tag and a
/// swallowed template leave nothing.
pub proof fn lemma_markup_pattern_shape()
    ensures
        MARKUP_PATTERN@ == r"(?<brackets>\[\[([^\|\]]*?\|)?(.*?)\]\])"@ + r"(\{\{.*?\}\})?"@ + "|"@
            + r"(?<braces>\{\{([^\|\}]*\|)([^\|]*?)(\|.*?)?\}\})"@ + r"(\{\{.*?\}\})?"@ + "|"@
            + r"(?<small><small>(.*?)</small>)"@,
        MARKUP_REPLACEMENT@ == "$3"@ + "$7"@,
{
    reveal_strlit(r"(?<brackets>\[\[([^\|\]]*?\|)?(.*?)\]\])(\{\{.*?\}\})?|(?<braces>\{\{([^\|\}]*\|)([^\|]*?)(\|.*?)?\}\})(\{\{.*?\}\})?|(?<small><small>(.*?)</small>)");
    reveal_strlit(r"(?<brackets>\[\[([^\|\]]*?\|)?(.*?)\]\])");
    reveal_strlit(r"(\{\{.*?\}\})?");
    reveal_strlit("|");
    reveal_strlit(r"(?<braces>\{\{([^\|\}]*\|)([^\|]*?)(\|.*?)?\}\})");
    reveal_strlit(r"(?<small><small>(.*?)</small>)");
    reveal_strlit("$3$7");
    reveal_strlit("$3");
    reveal_strlit("$7");
    assert(MARKUP_PATTERN@ =~= r"(?<brackets>\[\[([^\|\]]*?\|)?(.*?)\]\])"@ + r"(\{\{.*?\}\})?"@ + "|"@
        + r"(?<braces>\{\{([^\|\}]*\|)([^\|]*?)(\|.*?)?\}\})"@ + r"(\{\{.*?\}\})?"@ + "|"@
        + r"(?<small><small>(.*?)</small>)"@);
    assert(MARKUP_REPLACEMENT@ =~= "$3"@ + "$7"@);
}

/// The text that `regex::Regex::replace_all` returns for `text` with
/// `pattern` compiled, each match replaced by `replacement` expanded
/// against its capture groups; `None` when `pattern` does not compile.
pub uninterp spec fn regex_replace_all_result(
    pattern: Seq<char>,
    text: Seq<char>,
    replacement: Seq<char>,
) -> Option<Seq<char>>;

/// The text that `titlecase::titlecase` returns for `s`.
pub uninterp spec fn titlecase_result(s: Seq<char>) -> Seq<char>;

/// Calls `regex::Regex::new(pattern)` and, when it compiles,
/// `Regex::replace_all(text, replacement)`. The contract names the result;
/// it says nothing of how the regex engine computes it.
#[verifier::external_body]
fn regex_replace_all(pattern: &str, text: &str, replacement: &str) -> (r: Option<String>)
    ensures
        regex_replace_all_result(pattern@, text@, replacement@) == match r {
            Some(s) => Some(s@),
            None => None::<Seq<char>>,
        },
{
    match regex::Regex::new(pattern) {
        Ok(re) => Some(re.replace_all(text, replacement).into_owned()),
        Err(_) => None,
    }
}

/// Calls `titlecase::titlecase(s)`. The contract names the result; the
/// title-case rules themselves are not stated.
#[verifier::external_body]
fn titlecase(s: &str) -> (r: String)
    ensures
        r@ == titlecase_result(s@),
{
    titlecase::titlecase(s)
}

/// What `format` makes of `v`.
pub open spec fn formatted(v: Seq<char>) -> Seq<char> {
    match regex_replace_all_result(MARKUP_PATTERN@, v, MARKUP_REPLACEMENT@) {
        Some(s) => titlecase_result(trim(s)),
        None => Seq::empty(),
    }
}

/// What `format` makes of a value is the text that stripping
/// `MARKUP_PATTERN` with `MARKUP_REPLACEMENT` leaves, trimmed and
/// titlecased, and nothing when the pattern does not compile.
pub proof fn lemma_formatted_strips_markup(v: Seq<char>)
    ensures
        formatted(v) == match regex_replace_all_result(MARKUP_PATTERN@, v, MARKUP_REPLACEMENT@) {
            Some(s) => titlecase_result(trim(s)),
            None => Seq::<char>::empty(),
        },
{
}

/// Strips wiki markup (links, templates, `<small>`) from `v`, trims it and
/// titlecases the result.
pub fn format(v: &str) -> (r: String)
    ensures
        r@ == formatted(v@),
{
    match regex_replace_all(MARKUP_PATTERN, v, MARKUP_REPLACEMENT) {
        Some(s) => {
            let t = crate::text::trimmed(s.as_str());
            titlecase(t.as_str())
        },
        None => String::new(),
    }
}

/// The one-element sequence holding a formatted ability, or nothing for the
/// `Others` placeholder and for empty entries.
pub open spec fn kept_ability(a: Seq<char>) -> Seq<Seq<char>> {
    if a == "Others"@ || a.len() == 0 {
        Seq::empty()
    } else {
        seq![a]
    }
}

/// The abilities that a comma-separated `abilities` value lists.
pub open spec fn abilities_of(s: Seq<char>) -> Seq<Seq<char>>
    decreases s.len(),
{
    match index_of(s, ',') {
        None => kept_ability(formatted(trim(s))),
        Some(i) => {
            proof {
                lemma_index_of_bound(s, ',');
            }
            if 0 <= i < s.len() {
                kept_ability(formatted(trim(s.subrange(0, i)))) + abilities_of(
                    s.subrange(i + 1, s.len() as int),
                )
            } else {
                Seq::empty()
            }
        },
    }
}

/// Views of a list of strings.
pub open spec fn texts(v: Seq<String>) -> Seq<Seq<char>> {
    v.map_values(|s: String| s@)
}

/// Splits a comma-separated `abilities` field into formatted entries,
/// dropping empty ones and the `Others` placeholder. Duplicates are kept.
pub fn format_abilities(v: &str) -> (r: Vec<String>)
    ensures
        texts(r@) == abilities_of(v@),
{
    let chars = chars_of(v);
    let n = chars.len();
    let mut out: Vec<String> = Vec::new();
    let mut pos: usize = 0;
    assert(chars@.subrange(0, n as int) =~= v@);
    loop
        invariant
            pos <= n == chars@.len(),
            chars@ == v@,
            abilities_of(v@) == texts(out@) + abilities_of(chars@.subrange(pos as int, n as int)),
        decreases n - pos,
    {
        let ghost s = chars@.subrange(pos as int, n as int);
        let ghost before = out@;
        let comma = find_char(&chars, pos, n, ',');
        let piece_end = match comma {
            Some(e) => e,
            None => n,
        };
        let (a, b) = trim_bounds(&chars, pos, piece_end);
        let piece = string_of(&chars, a, b);
        let f = format(piece.as_str());
        let ghost kept = kept_ability(formatted(trim(chars@.subrange(pos as int, piece_end as int))));
        if !(crate::text::same_text(f.as_str(), "Others") || f.as_str().is_empty()) {
            out.push(f);
        }
        assert(texts(out@) =~= texts(before) + kept);
        match comma {
            Some(e) => {
                assert(s.subrange(0, e - pos) =~= chars@.subrange(pos as int, e as int));
                assert(s.subrange(e - pos + 1, s.len() as int) =~= chars@.subrange(e + 1, n as int));
                let ghost x = abilities_of(chars@.subrange(e + 1, n as int));
                assert(abilities_of(s) == kept + x);
                assert((texts(before) + kept) + x =~= texts(before) + (kept + x));
                pos = e + 1;
            },
            None => {
                assert(abilities_of(s) == kept);
                return out;
            },
        }
    }
}

} // verus!

verus! {

// ------------------------------------------------------ characters and books

/// The effect of one infobox pair on a character: `abilities` is split into
/// a list, every other key goes through `Character::add` with its value
/// formatted.
pub open spec fn apply_entry(c: CharacterView, e: (Seq<char>, Seq<char>)) -> CharacterView {
    if e.0 == "abilities"@ {
        c.with_abilities(abilities_of(e.1))
    } else {
        c.assign(e.0, formatted(e.1))
    }
}

/// The effect of the pairs of `es`, in order.
pub open spec fn apply_entries(c: CharacterView, es: Entries) -> CharacterView
    decreases es.len(),
{
    if es.len() == 0 {
        c
    } else {
        apply_entry(apply_entries(c, es.drop_last()), es.last())
    }
}

/// The character that the infobox `t` describes, named `name`. The pairs are
/// applied in the table's order, so when both `world` and `earth` are set,
/// the one that comes later wins.
pub fn character_from_table(name: String, t: &Table) -> (r: Character)
    ensures
        r@ == apply_entries(CharacterView::blank(), t.entries_view()).with_name(name@),
{
    let mut out = Character::default();
    let n = t.pair_count();
    let mut i: usize = 0;
    while i < n
        invariant
            i <= n == t.entries_view().len(),
            out@ == apply_entries(CharacterView::blank(), t.entries_view().subrange(0, i as int)),
        decreases n - i,
    {
        let (k, v) = t.entry(i);
        if crate::text::same_text(k.as_str(), "abilities") {
            out.abilities(format_abilities(v.as_str()));
        } else {
            out.add(k.as_str(), format(v.as_str()));
        }
        assert(t.entries_view().subrange(0, i + 1).drop_last() =~= t.entries_view().subrange(
            0,
            i as int,
        ));
        i = i + 1;
    }
    assert(t.entries_view().subrange(0, n as int) =~= t.entries_view());
    out.name(name);
    out
}

/// The book that the infobox `t` describes: titled `title`, in the series
/// that its `series` field names, formatted.
pub fn book_from_table(title: String, t: &Table) -> (r: Book)
    requires
        t.wf(),
    ensures
        r.title@ == title@,
        match r.series {
            Some(s) => t@.contains_key("series"@) && s@ == formatted(t@["series"@]),
            None => !t@.contains_key("series"@),
        },
{
    let series = match t.get("series") {
        Some(s) => Some(format(s.as_str())),
        None => None,
    };
    Book { title, series }
}

// -------------------------------------------------------------- page listings

/// `s` names an article: it has no namespace prefix.
pub open spec fn is_article(s: Seq<char>) -> bool {
    !s.contains(':')
}

/// Whether `title` names an article, that is, holds no `:`.
pub fn is_article_title(title: &str) -> (r: bool)
    ensures
        r == is_article(title@),
{
    let v = chars_of(title);
    let n = v.len();
    match find_char(&v, 0, n, ':') {
        Some(i) => {
            assert(v@[i as int] == ':');
            false
        },
        None => true,
    }
}

/// Whether `v` holds a string with the same text as `s`.
pub fn contains_text(v: &Vec<String>, s: &String) -> (r: bool)
    ensures
        r == texts(v@).contains(s@),
{
    let mut i: usize = 0;
    while i < v.len()
        invariant
            i <= v@.len(),
            forall|j: int| 0 <= j < i ==> v@[j]@ != s@,
        decreases v@.len() - i,
    {
        if v[i] == *s {
            assert(texts(v@)[i as int] == s@);
            return true;
        }
        i = i + 1;
    }
    assert forall|j: int| 0 <= j < texts(v@).len() implies texts(v@)[j] != s@ by {
        assert(texts(v@)[j] == v@[j]@);
    }
    false
}

/// The article titles of `s`, each once, in order of first appearance.
pub open spec fn first_articles(s: Seq<Seq<char>>) -> Seq<Seq<char>>
    decreases s.len(),
{
    if s.len() == 0 {
        Seq::empty()
    } else {
        let p = first_articles(s.drop_last());
        if is_article(s.last()) && !p.contains(s.last()) {
            p.push(s.last())
        } else {
            p
        }
    }
}

/// The distinct article titles among `titles`, in order of first
/// appearance; titles with a namespace prefix are dropped.
pub fn article_titles(titles: Vec<String>) -> (r: Vec<String>)
    ensures
        texts(r@) == first_articles(texts(titles@)),
        texts(r@).no_duplicates(),
        forall|s: Seq<char>| #[trigger]
            texts(r@).contains(s) <==> texts(titles@).contains(s) && is_article(s),
{
    let mut out: Vec<String> = Vec::new();
    let mut i: usize = 0;
    while i < titles.len()
        invariant
            i <= titles@.len(),
            texts(out@) == first_articles(texts(titles@.subrange(0, i as int))),
            texts(out@).no_duplicates(),
            forall|s: Seq<char>| #[trigger]
                texts(out@).contains(s) <==> texts(titles@.subrange(0, i as int)).contains(s)
                    && is_article(s),
        decreases titles@.len() - i,
    {
        let t = &titles[i];
        let ghost before = out@;
        if is_article_title(t.as_str()) && !contains_text(&out, t) {
            out.push(t.clone());
            assert(texts(out@) =~= texts(before).push(t@));
        }
        assert(texts(titles@.subrange(0, i + 1)) =~= texts(titles@.subrange(0, i as int)).push(
            t@,
        ));
        assert(texts(titles@.subrange(0, i + 1)).drop_last() =~= texts(titles@.subrange(0, i as int)));
        proof {
            broadcast use vstd::seq_lib::lemma_seq_contains_after_push;
        }
        i = i + 1;
    }
    assert(titles@.subrange(0, i as int) =~= titles@);
    out
}

// ---------------------------------------------------------------------- syncing

/// What a sync does with one listed page.
pub enum SyncAction<T> {
    /// Leave the page alone.
    Skip,
    /// Store the record fetched for it.
    Insert(T),
}

/// Decides what a sync does with one listed page: a page already stored, or
/// one whose record could not be fetched, is skipped; otherwise the fetched
/// record is stored.
pub fn sync_step<T>(present: bool, fetched: Option<T>) -> (r: SyncAction<T>)
    ensures
        present || fetched is None ==> r is Skip,
        !present ==> (fetched matches Some(c) ==> r matches SyncAction::Insert(d) && d == c),
{
    if present {
        return SyncAction::Skip;
    }
    match fetched {
        Some(c) => SyncAction::Insert(c),
        None => SyncAction::Skip,
    }
}

} // verus!
