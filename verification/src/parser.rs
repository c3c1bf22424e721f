//! Reading page sources (frontmatter, then content) and view sources (a
//! target glob on the first line, then the template).

use vstd::prelude::*;
use vstd::view::View as _;
use crate::glob::glob_matcher_builds;
use crate::outside::{
    datetime_timestamp, glob_compiles, glob_regex, markdown_html, opt_views, parse_timestamp,
    regex_capture_groups, regex_captures, regex_compiles, regex_split, regex_split_pieces,
    render_markdown, string_views,
};
use crate::strmap::StrMap;
use crate::text::{
    chars_of, copy_range, occurs_at, decimal, lemma_trim_idempotent, find, find_chars, lemma_decimal_injective, lines, lines_of,
    push_all, push_decimal, same_chars, string_of, trim, trim_chars, views,
};

verus! {

/// The regular expression that finds the custom loop tags of a view:
/// `{% for NAME in "GLOB" %}`.
pub const GLOB_FOR_LOOP_PATTERN: &'static str = r#"(\{%\sfor\s\w*\sin)\s"([^\s]*)"\s(%})"#;

/// The format of a frontmatter `datetime`, with the site's UTC offset
/// appended.
pub const DATETIME_FORMAT: &'static str = "%Y-%m-%d %H:%M:%S %z";

/// The frontmatter key whose value dates a page.
pub const DATETIME_KEY: &'static str = "datetime";

/// The start of the name that a custom loop is given in a template.
pub const LOOP_ID_PREFIX: &'static str = "__CUSTOM_LOOP_";

/// The end of the name that a custom loop is given in a template.
pub const LOOP_ID_SUFFIX: &'static str = "__";

/// Why a source could not be read.
pub enum ParseError {
    /// A page has no blank line after its frontmatter, or no frontmatter
    /// entry; a view has no line break after its target.
    MissingFrontmatter,
    /// A view's target is not a glob.
    InvalidGlob,
    /// A page could not be read.
    PageFailed,
    /// A view could not be read.
    ViewFailed,
}

/// The entries of a page's frontmatter and the date it gives the page.
pub struct ParsedFrontmatter {
    pub fm: StrMap,
    pub timestamp: Option<i64>,
}

// ------------------------------------------------------------------
// Frontmatter
// ------------------------------------------------------------------

/// The key of a frontmatter line: what comes before its first colon.
pub open spec fn fm_key(line: Seq<char>) -> Seq<char> {
    match find(line, seq![':']) {
        Some(i) => line.take(i),
        None => line,
    }
}

/// The value of a frontmatter line: what comes after its first colon.
pub open spec fn fm_value(line: Seq<char>) -> Seq<char> {
    match find(line, seq![':']) {
        Some(i) => line.skip(i + 1),
        None => Seq::<char>::empty(),
    }
}

/// The frontmatter entries of `ls`: each line's trimmed key set to its
/// trimmed value, a later line winning over an earlier one.
pub open spec fn frontmatter_map(ls: Seq<Seq<char>>) -> Map<Seq<char>, Seq<char>>
    decreases ls.len(),
{
    if ls.len() == 0 {
        Map::empty()
    } else {
        frontmatter_map(ls.drop_last()).insert(trim(fm_key(ls.last())), trim(fm_value(ls.last())))
    }
}

/// The text that the date of a `datetime` line is read from: its value, a
/// space and the site's UTC offset.
pub open spec fn datetime_input(value: Seq<char>, utc_offset: Seq<char>) -> Seq<char> {
    value + seq![' '] + utc_offset
}

/// The date of the frontmatter lines `ls`: that of the last `datetime` line
/// whose date can be read.
pub open spec fn frontmatter_timestamp(ls: Seq<Seq<char>>, utc_offset: Seq<char>) -> Option<i64>
    decreases ls.len(),
{
    if ls.len() == 0 {
        None
    } else {
        let before = frontmatter_timestamp(ls.drop_last(), utc_offset);
        let line = ls.last();
        if fm_key(line) == DATETIME_KEY@ {
            match datetime_timestamp(datetime_input(fm_value(line), utc_offset), DATETIME_FORMAT@) {
                Some(t) => Some(t),
                None => before,
            }
        } else {
            before
        }
    }
}

/// Where a page's frontmatter ends: its first blank line.
pub open spec fn frontmatter_end(page: Seq<char>) -> Option<int> {
    find(page, seq!['\n', '\n'])
}

/// A page split into its frontmatter entries, its date and its content
/// (which starts with the blank line), or why it cannot be.
pub open spec fn split_page(page: Seq<char>, utc_offset: Seq<char>) -> Result<
    (Map<Seq<char>, Seq<char>>, Option<i64>, Seq<char>),
    ParseError,
> {
    match frontmatter_end(page) {
        Some(i) => {
            let ls = lines(page.take(i));
            if frontmatter_map(ls) != Map::<Seq<char>, Seq<char>>::empty() {
                Ok((frontmatter_map(ls), frontmatter_timestamp(ls, utc_offset), page.skip(i)))
            } else {
                Err(ParseError::MissingFrontmatter)
            }
        },
        None => Err(ParseError::MissingFrontmatter),
    }
}

/// The key and the value of a frontmatter line.
fn split_key_value(line: &[char]) -> (r: (Vec<char>, Vec<char>))
    ensures
        r.0@ == fm_key(line@),
        r.1@ == fm_value(line@),
{
    let colon = vec![':'];
    assert(colon@ =~= seq![':']);
    match find_chars(line, &colon) {
        Some(i) => {
            proof {
                crate::text::lemma_find(line@, colon@);
            }
            let n = line.len();
            (copy_range(line, 0, i), copy_range(line, i + 1, n))
        },
        None => (copy_range(line, 0, line.len()), Vec::new()),
    }
}

/// Reads frontmatter lines `KEY: VALUE` into entries; a `datetime` line
/// (read with the site's UTC offset) dates the page.
pub fn parse_frontmatter(frontmatter_string: &str, utc_offset: &str) -> (r: ParsedFrontmatter)
    ensures
        r.fm@ == frontmatter_map(lines(frontmatter_string@)),
        r.timestamp == frontmatter_timestamp(lines(frontmatter_string@), utc_offset@),
{
    let s = chars_of(frontmatter_string);
    let ls = lines_of(&s);
    let off = chars_of(utc_offset);
    let dt_key = chars_of(DATETIME_KEY);
    let ghost all = lines(frontmatter_string@);
    let mut fm = StrMap::new();
    let mut timestamp: Option<i64> = None;
    let mut k: usize = 0;
    assert(all.take(0) =~= Seq::<Seq<char>>::empty());
    while k < ls.len()
        invariant
            0 <= k <= ls@.len(),
            views(ls@) == all,
            off@ == utc_offset@,
            dt_key@ == DATETIME_KEY@,
            fm@ == frontmatter_map(all.take(k as int)),
            timestamp == frontmatter_timestamp(all.take(k as int), utc_offset@),
        decreases ls@.len() - k,
    {
        let ghost before = all.take(k as int);
        assert(all.take(k + 1).drop_last() =~= before);
        assert(all.take(k + 1).last() == ls@[k as int]@);
        let (key, value) = split_key_value(&ls[k]);
        if same_chars(&key, &dt_key) {
            let mut input = copy_range(&value, 0, value.len());
            input.push(' ');
            push_all(&mut input, &off);
            assert(input@ =~= datetime_input(value@, utc_offset@));
            let text = string_of(&input);
            match parse_timestamp(text.as_str(), DATETIME_FORMAT) {
                Some(t) => {
                    timestamp = Some(t);
                },
                None => {},
            }
        }
        let tk = trim_chars(&key);
        let tv = trim_chars(&value);
        fm.insert(string_of(&tk), string_of(&tv));
        k = k + 1;
    }
    assert(all.take(ls@.len() as int) =~= all);
    ParsedFrontmatter { fm, timestamp }
}

/// A frontmatter line is split at its first colon: for a key `k` without a
/// colon and any text `v`, the line `k:v` has key `k` and value `v` (the
/// whole rest of the line, colons included), and reads as the one entry
/// `trim(k)` to `trim(v)`.
pub proof fn lemma_frontmatter_line(k: Seq<char>, v: Seq<char>)
    requires
        !k.contains(':'),
    ensures
        fm_key(k + seq![':'] + v) == k,
        fm_value(k + seq![':'] + v) == v,
        frontmatter_map(seq![k + seq![':'] + v]) == Map::<Seq<char>, Seq<char>>::empty().insert(
            trim(k),
            trim(v),
        ),
{
    let line = k + seq![':'] + v;
    let colon = seq![':'];
    crate::text::lemma_find(line, colon);
    assert(occurs_at(line, colon, k.len() as int)) by {
        assert(line.subrange(k.len() as int, k.len() as int + 1) =~= colon);
    }
    assert forall|j: int| 0 <= j < k.len() implies !occurs_at(line, colon, j) by {
        if occurs_at(line, colon, j) {
            assert(line.subrange(j, j + 1)[0] == line[j]);
            assert(line[j] == k[j]);
        }
    }
    assert(find(line, colon) == Some(k.len() as int));
    assert(line.take(k.len() as int) =~= k);
    assert(line.skip(k.len() as int + 1) =~= v);
    let ls = seq![line];
    assert(ls.drop_last() =~= Seq::<Seq<char>>::empty());
    assert(ls.last() == line);
    assert(frontmatter_map(ls.drop_last()) == Map::<Seq<char>, Seq<char>>::empty());
    assert(frontmatter_map(ls) == frontmatter_map(ls.drop_last()).insert(
        trim(fm_key(line)),
        trim(fm_value(line)),
    ));
}

/// Every key and every value of a page's frontmatter is trimmed: it has no
/// white space at either end.
pub proof fn lemma_frontmatter_trimmed(ls: Seq<Seq<char>>)
    ensures
        forall|k: Seq<char>|
            #![trigger frontmatter_map(ls).dom().contains(k)]
            frontmatter_map(ls).dom().contains(k) ==> trim(k) == k && trim(frontmatter_map(ls)[k])
                == frontmatter_map(ls)[k],
    decreases ls.len(),
{
    if ls.len() > 0 {
        lemma_frontmatter_trimmed(ls.drop_last());
        lemma_trim_idempotent(fm_key(ls.last()));
        lemma_trim_idempotent(fm_value(ls.last()));
        let prev = frontmatter_map(ls.drop_last());
        let nk = trim(fm_key(ls.last()));
        let nv = trim(fm_value(ls.last()));
        assert(frontmatter_map(ls) == prev.insert(nk, nv));
        assert forall|k: Seq<char>| #[trigger]
            frontmatter_map(ls).dom().contains(k) implies trim(k) == k && trim(
                frontmatter_map(ls)[k],
            ) == frontmatter_map(ls)[k] by {
            if k != nk {
                assert(prev.dom().contains(k));
            }
        }
    }
}

/// A page that can be read is its frontmatter followed by its content, and
/// the content starts with the blank line that ends the frontmatter.
pub proof fn lemma_page_split(page: Seq<char>, utc_offset: Seq<char>)
    requires
        split_page(page, utc_offset) is Ok,
    ensures
        page == page.take(frontmatter_end(page).unwrap()) + split_page(page, utc_offset)->Ok_0.2,
        split_page(page, utc_offset)->Ok_0.2.take(2) == seq!['\n', '\n'],
{
    let i = frontmatter_end(page).unwrap();
    crate::text::lemma_find(page, seq!['\n', '\n']);
    assert(page =~= page.take(i) + page.skip(i));
    assert(page.skip(i).take(2) =~= page.subrange(i, i + 2));
}

/// Whether one of the frontmatter lines `ls` is a `datetime` line.
pub open spec fn has_datetime_line(ls: Seq<Seq<char>>) -> bool {
    exists|k: int| 0 <= k < ls.len() && #[trigger] fm_key(ls[k]) == DATETIME_KEY@
}

/// Whether reading the page needs the site's UTC offset: it has a
/// frontmatter with a `datetime` line.
pub open spec fn page_needs_offset(page: Seq<char>) -> bool {
    match frontmatter_end(page) {
        Some(i) => has_datetime_line(lines(page.take(i))),
        None => false,
    }
}

/// Without a `datetime` line, the date of frontmatter lines does not depend
/// on the UTC offset: there is none.
proof fn lemma_timestamp_without_datetime(ls: Seq<Seq<char>>, utc_offset: Seq<char>)
    requires
        !has_datetime_line(ls),
    ensures
        frontmatter_timestamp(ls, utc_offset) == None::<i64>,
    decreases ls.len(),
{
    if ls.len() > 0 {
        assert(!has_datetime_line(ls.drop_last())) by {
            if has_datetime_line(ls.drop_last()) {
                let k = choose|k: int|
                    0 <= k < ls.drop_last().len() && #[trigger] fm_key(ls.drop_last()[k])
                        == DATETIME_KEY@;
                assert(fm_key(ls[k]) == DATETIME_KEY@);
            }
        }
        assert(fm_key(ls[ls.len() - 1]) != DATETIME_KEY@);
        lemma_timestamp_without_datetime(ls.drop_last(), utc_offset);
    }
}

/// A page without a `datetime` line in its frontmatter reads the same
/// whatever the site's UTC offset.
pub proof fn lemma_offset_unneeded(page: Seq<char>, utc_offset: Seq<char>, other: Seq<char>)
    requires
        !page_needs_offset(page),
    ensures
        split_page(page, utc_offset) == split_page(page, other),
{
    if let Some(i) = frontmatter_end(page) {
        lemma_timestamp_without_datetime(lines(page.take(i)), utc_offset);
        lemma_timestamp_without_datetime(lines(page.take(i)), other);
    }
}

/// Whether reading the page source needs the site's UTC offset (see
/// `page_needs_offset`).
pub fn needs_utc_offset(page_string: &str) -> (r: bool)
    ensures
        r == page_needs_offset(page_string@),
{
    let s = chars_of(page_string);
    let blank = vec!['\n', '\n'];
    assert(blank@ =~= seq!['\n', '\n']);
    let end = match find_chars(&s, &blank) {
        Some(i) => i,
        None => {
            return false;
        },
    };
    proof {
        crate::text::lemma_find(s@, blank@);
    }
    let head = copy_range(&s, 0, end);
    assert(head@ =~= page_string@.take(end as int));
    let ls = lines_of(&head);
    let dt_key = chars_of(DATETIME_KEY);
    let ghost all = lines(head@);
    let mut k: usize = 0;
    while k < ls.len()
        invariant
            0 <= k <= ls@.len(),
            views(ls@) == all,
            dt_key@ == DATETIME_KEY@,
            frontmatter_end(page_string@) == Some(end as int),
            all == lines(page_string@.take(end as int)),
            forall|j: int| 0 <= j < k ==> #[trigger] fm_key(all[j]) != DATETIME_KEY@,
        decreases ls@.len() - k,
    {
        assert(all[k as int] == ls@[k as int]@);
        let (key, _) = split_key_value(&ls[k]);
        if same_chars(&key, &dt_key) {
            assert(fm_key(all[k as int]) == DATETIME_KEY@);
            return true;
        }
        k = k + 1;
    }
    false
}

/// Splits a page at its first blank line into frontmatter and content.
pub fn separate_frontmatter(page_string: &str, utc_offset: &str) -> (r: Result<
    (ParsedFrontmatter, String),
    ParseError,
>)
    ensures
        match split_page(page_string@, utc_offset@) {
            Ok((m, t, c)) => r matches Ok((f, content)) && f.fm@ == m && f.timestamp == t
                && content@ == c,
            Err(e) => r == Err::<(ParsedFrontmatter, String), ParseError>(e),
        },
{
    let s = chars_of(page_string);
    let blank = vec!['\n', '\n'];
    assert(blank@ =~= seq!['\n', '\n']);
    match find_chars(&s, &blank) {
        Some(i) => {
            proof {
                crate::text::lemma_find(s@, blank@);
            }
            let head = string_of(&copy_range(&s, 0, i));
            let content = string_of(&copy_range(&s, i, s.len()));
            let parsed = parse_frontmatter(head.as_str(), utc_offset);
            if !parsed.fm.is_empty() {
                Ok((parsed, content))
            } else {
                Err(ParseError::MissingFrontmatter)
            }
        },
        None => Err(ParseError::MissingFrontmatter),
    }
}

/// The HTML rendered from the Markdown text `md`.
pub fn parse_markdown(md: &str) -> (r: String)
    ensures
        r@ == markdown_html(md@),
{
    render_markdown(md)
}

/// Reads a page: its frontmatter entries, its date and its content, which is
/// rendered from Markdown to HTML where `is_markdown` holds.
pub fn page(page_string: String, is_markdown: bool, utc_offset: &str) -> (r: Result<
    (StrMap, Option<i64>, String),
    ParseError,
>)
    ensures
        match split_page(page_string@, utc_offset@) {
            Ok((m, t, c)) => r matches Ok((fm, ts, content)) && fm@ == m && ts == t && content@ == (
            if is_markdown {
                markdown_html(c)
            } else {
                c
            }),
            Err(_) => r == Err::<(StrMap, Option<i64>, String), ParseError>(ParseError::PageFailed),
        },
{
    match separate_frontmatter(page_string.as_str(), utc_offset) {
        Ok((parsed, content)) => {
            let body = if is_markdown {
                parse_markdown(content.as_str())
            } else {
                content
            };
            Ok((parsed.fm, parsed.timestamp, body))
        },
        Err(_) => Err(ParseError::PageFailed),
    }
}

// ------------------------------------------------------------------
// Views
// ------------------------------------------------------------------

/// Where a view's target line ends: its first line break.
pub open spec fn target_end(view: Seq<char>) -> Option<int> {
    find(view, seq!['\n'])
}

/// The glob of a target line: the text after its first double quote, cut at
/// the next one.
pub open spec fn target_pattern(target: Seq<char>) -> Seq<char> {
    let after = match find(target, seq!['"']) {
        Some(i) => target.skip(i + 1),
        None => target,
    };
    match find(after, seq!['"']) {
        Some(j) => after.take(j),
        None => after,
    }
}

/// The name that the custom loop with index `i` is given in a template.
pub open spec fn loop_id(i: nat) -> Seq<char> {
    LOOP_ID_PREFIX@ + decimal(i) + LOOP_ID_SUFFIX@
}

/// The `k`-th element of `s`, or the empty text where there is none.
pub open spec fn nth_or_empty(s: Seq<Seq<char>>, k: int) -> Seq<char> {
    if 0 <= k < s.len() {
        s[k]
    } else {
        Seq::<char>::empty()
    }
}

/// The text of the capture group with index `k` (from 0, the first group
/// after the whole match) among `groups`: empty where the group did not take
/// part, or where there is no such group.
pub open spec fn group_text(groups: Seq<Option<Seq<char>>>, k: int) -> Seq<char> {
    if 0 <= k < groups.len() {
        match groups[k] {
            Some(t) => t,
            None => Seq::<char>::empty(),
        }
    } else {
        Seq::<char>::empty()
    }
}

/// What replaces the custom loop tag with groups `groups` and index `i`:
/// `{% for NAME in ID %}`.
pub open spec fn loop_tag_replacement(groups: Seq<Option<Seq<char>>>, i: nat) -> Seq<char> {
    group_text(groups, 0) + seq![' '] + loop_id(i) + seq![' '] + group_text(groups, 2)
}

/// The template whose text between tags is `pieces` and whose loop tags have
/// the groups `caps`, each tag replaced by its loop's name.
pub open spec fn rewritten_template(
    pieces: Seq<Seq<char>>,
    caps: Seq<Seq<Option<Seq<char>>>>,
) -> Seq<char>
    decreases caps.len(),
{
    if caps.len() == 0 {
        nth_or_empty(pieces, 0)
    } else {
        rewritten_template(pieces, caps.drop_last()) + loop_tag_replacement(
            caps.last(),
            (caps.len() - 1) as nat,
        ) + nth_or_empty(pieces, caps.len() as int)
    }
}

/// `t` occurs whole somewhere in `s`.
pub open spec fn holds_run(s: Seq<char>, t: Seq<char>) -> bool {
    exists|o: int| occurs_at(s, t, o)
}

/// Rewriting the loop tags keeps the text between them whole: the
/// rewritten template starts with the text before the first tag, ends with
/// the text after the last one, and holds each piece of text between tags,
/// unchanged, somewhere in it.
pub proof fn lemma_rewritten_keeps_pieces(pieces: Seq<Seq<char>>, caps: Seq<Seq<Option<Seq<char>>>>)
    ensures
        nth_or_empty(pieces, 0).len() <= rewritten_template(pieces, caps).len(),
        rewritten_template(pieces, caps).take(nth_or_empty(pieces, 0).len() as int) == nth_or_empty(
            pieces,
            0,
        ),
        nth_or_empty(pieces, caps.len() as int).len() <= rewritten_template(pieces, caps).len(),
        rewritten_template(pieces, caps).skip(
            rewritten_template(pieces, caps).len() - nth_or_empty(pieces, caps.len() as int).len(),
        ) == nth_or_empty(pieces, caps.len() as int),
        forall|k: int|
            0 <= k <= caps.len() ==> holds_run(
                rewritten_template(pieces, caps),
                #[trigger] nth_or_empty(pieces, k),
            ),
    decreases caps.len(),
{
    let r = rewritten_template(pieces, caps);
    if caps.len() == 0 {
        assert(r.take(r.len() as int) =~= r);
        assert(r.skip(0) =~= r);
        assert(r.subrange(0, r.len() as int) =~= r);
        assert(occurs_at(r, r, 0));
        assert(holds_run(r, r));
    } else {
        let front = caps.drop_last();
        let n = caps.len() as int;
        lemma_rewritten_keeps_pieces(pieces, front);
        let f = rewritten_template(pieces, front);
        let mid = loop_tag_replacement(caps.last(), (caps.len() - 1) as nat);
        let last = nth_or_empty(pieces, n);
        let first = nth_or_empty(pieces, 0);
        assert(r == f + mid + last);
        assert(r.take(first.len() as int) =~= f.take(first.len() as int));
        assert(r.skip(r.len() - last.len()) =~= last);
        assert forall|k: int| 0 <= k <= caps.len() implies holds_run(
            r,
            #[trigger] nth_or_empty(pieces, k),
        ) by {
            let pk = nth_or_empty(pieces, k);
            if k < n {
                assert(holds_run(f, nth_or_empty(pieces, k)));
                let o = choose|o: int| occurs_at(f, pk, o);
                assert(r.subrange(o, o + pk.len()) =~= f.subrange(o, o + pk.len()));
                assert(occurs_at(r, pk, o));
            } else {
                let o: int = (f.len() + mid.len()) as int;
                assert(r.subrange(o, o + pk.len()) =~= last);
                assert(occurs_at(r, pk, o));
            }
        }
    }
}

/// The custom loops of the tags with groups `caps`: each glob mapped to the
/// name of its last tag.
pub open spec fn loops_of(caps: Seq<Seq<Option<Seq<char>>>>) -> Map<Seq<char>, Seq<char>>
    decreases caps.len(),
{
    if caps.len() == 0 {
        Map::empty()
    } else {
        loops_of(caps.drop_last()).insert(
            group_text(caps.last(), 1),
            loop_id((caps.len() - 1) as nat),
        )
    }
}

/// Every value of `loops_of(caps)` is the name of one of its tags.
proof fn lemma_loops_of_values(caps: Seq<Seq<Option<Seq<char>>>>)
    ensures
        forall|g: Seq<char>| #[trigger]
            loops_of(caps).dom().contains(g) ==> exists|i: nat|
                i < caps.len() && group_text(caps[i as int], 1) == g && loops_of(caps)[g]
                    == loop_id(i) && forall|j: int|
                    i < j < caps.len() ==> group_text(caps[j], 1) != g,
    decreases caps.len(),
{
    if caps.len() > 0 {
        let front = caps.drop_last();
        lemma_loops_of_values(front);
        assert forall|g: Seq<char>| #[trigger]
            loops_of(caps).dom().contains(g) implies exists|i: nat|
                i < caps.len() && group_text(caps[i as int], 1) == g && loops_of(caps)[g]
                    == loop_id(i) && forall|j: int|
                    i < j < caps.len() ==> group_text(caps[j], 1) != g by {
            let last = (caps.len() - 1) as nat;
            if g == group_text(caps.last(), 1) {
                assert(group_text(caps[last as int], 1) == g);
            } else {
                let i = choose|i: nat|
                    i < front.len() && group_text(front[i as int], 1) == g && loops_of(front)[g]
                        == loop_id(i) && forall|j: int|
                        i < j < front.len() ==> group_text(front[j], 1) != g;
                assert(caps[i as int] == front[i as int]);
                assert forall|j: int| i < j < caps.len() implies group_text(caps[j], 1) != g by {
                    if j < front.len() {
                        assert(caps[j] == front[j]);
                    }
                }
            }
        }
    }
}

/// Different loops have different names.
pub proof fn lemma_loop_id_injective(i: nat, j: nat)
    requires
        loop_id(i) == loop_id(j),
    ensures
        i == j,
{
    let p = LOOP_ID_PREFIX@;
    let s = LOOP_ID_SUFFIX@;
    assert(decimal(i).len() == decimal(j).len()) by {
        assert(loop_id(i).len() == p.len() + decimal(i).len() + s.len());
        assert(loop_id(j).len() == p.len() + decimal(j).len() + s.len());
    }
    assert(loop_id(i).subrange(p.len() as int, (p.len() + decimal(i).len()) as int) =~= decimal(i));
    assert(loop_id(j).subrange(p.len() as int, (p.len() + decimal(j).len()) as int) =~= decimal(j));
    lemma_decimal_injective(i, j);
}

/// Each custom loop of a template gets a name of its own: no two globs of
/// `loops_of(caps)` share a name.
pub proof fn lemma_loop_names_distinct(
    caps: Seq<Seq<Option<Seq<char>>>>,
    g1: Seq<char>,
    g2: Seq<char>,
)
    requires
        loops_of(caps).dom().contains(g1),
        loops_of(caps).dom().contains(g2),
        g1 != g2,
    ensures
        loops_of(caps)[g1] != loops_of(caps)[g2],
{
    lemma_loops_of_values(caps);
    let i1 = choose|i: nat|
        i < caps.len() && group_text(caps[i as int], 1) == g1 && loops_of(caps)[g1] == loop_id(i)
            && forall|j: int| i < j < caps.len() ==> group_text(caps[j], 1) != g1;
    let i2 = choose|i: nat|
        i < caps.len() && group_text(caps[i as int], 1) == g2 && loops_of(caps)[g2] == loop_id(i)
            && forall|j: int| i < j < caps.len() ==> group_text(caps[j], 1) != g2;
    if loops_of(caps)[g1] == loops_of(caps)[g2] {
        lemma_loop_id_injective(i1, i2);
    }
}

/// A template has at most as many custom loops as it has loop tags: the
/// globs of `loops_of(caps)` are finitely many, no more than the tags.
pub proof fn lemma_loops_count(caps: Seq<Seq<Option<Seq<char>>>>)
    ensures
        loops_of(caps).dom().finite(),
        loops_of(caps).dom().len() <= caps.len(),
    decreases caps.len(),
{
    if caps.len() > 0 {
        let front = caps.drop_last();
        lemma_loops_count(front);
        let g = group_text(caps.last(), 1);
        assert(loops_of(caps).dom() =~= loops_of(front).dom().insert(g));
    }
}

/// The `k`-th of `items`, or an empty vector where there is none.
fn nth_chars(items: &Vec<String>, k: usize) -> (r: Vec<char>)
    ensures
        r@ == nth_or_empty(string_views(items@), k as int),
{
    if k < items.len() {
        chars_of(items[k].as_str())
    } else {
        Vec::new()
    }
}

/// The text of the capture group with index `k` among `groups`, empty where
/// it did not take part or there is none.
fn group_chars(groups: &Vec<Option<String>>, k: usize) -> (r: Vec<char>)
    ensures
        r@ == group_text(opt_views(groups@), k as int),
{
    if k < groups.len() {
        match &groups[k] {
            Some(t) => chars_of(t.as_str()),
            None => Vec::new(),
        }
    } else {
        Vec::new()
    }
}

/// The characters of the name of the custom loop with index `i`.
fn loop_id_chars(i: usize) -> (r: Vec<char>)
    ensures
        r@ == loop_id(i as nat),
{
    let mut r = chars_of(LOOP_ID_PREFIX);
    push_decimal(&mut r, i);
    let suffix = chars_of(LOOP_ID_SUFFIX);
    push_all(&mut r, &suffix);
    r
}

/// Replaces each custom loop tag `{% for NAME in "GLOB" %}` of a template by
/// `{% for NAME in ID %}`, where ID names the loop, and maps each glob to the
/// name of its (last) loop.
pub fn extract_custom_loops(template: &str) -> (r: (String, StrMap))
    requires
        regex_compiles(GLOB_FOR_LOOP_PATTERN@),
    ensures
        r.0@ == rewritten_template(
            regex_split_pieces(GLOB_FOR_LOOP_PATTERN@, template@),
            regex_capture_groups(GLOB_FOR_LOOP_PATTERN@, template@),
        ),
        r.1@ == loops_of(regex_capture_groups(GLOB_FOR_LOOP_PATTERN@, template@)),
        r.1@.dom().len() <= regex_capture_groups(GLOB_FOR_LOOP_PATTERN@, template@).len(),
        regex_capture_groups(GLOB_FOR_LOOP_PATTERN@, template@).len() == 0 ==> r.0@ == template@
            && r.1@ == Map::<Seq<char>, Seq<char>>::empty(),
{
    let pieces = regex_split(GLOB_FOR_LOOP_PATTERN, template);
    let caps = regex_captures(GLOB_FOR_LOOP_PATTERN, template);
    proof {
        if caps@.len() == 0 {
            assert(string_views(pieces@)[0] == template@);
        }
    }
    let ghost ps = string_views(pieces@);
    let ghost cs = regex_capture_groups(GLOB_FOR_LOOP_PATTERN@, template@);
    assert(cs.len() == caps@.len());
    let mut out = nth_chars(&pieces, 0);
    let mut loops = StrMap::new();
    let mut i: usize = 0;
    assert(cs.take(0) =~= Seq::<Seq<Option<Seq<char>>>>::empty());
    while i < caps.len()
        invariant
            0 <= i <= caps@.len(),
            cs.len() == caps@.len(),
            cs == caps@.map_values(|c: Vec<Option<String>>| opt_views(c@)),
            ps == string_views(pieces@),
            out@ == rewritten_template(ps, cs.take(i as int)),
            loops@ == loops_of(cs.take(i as int)),
        decreases caps@.len() - i,
    {
        assert(cs.take(i + 1).drop_last() =~= cs.take(i as int));
        assert(cs.take(i + 1).last() == opt_views(caps@[i as int]@));
        let g1 = group_chars(&caps[i], 0);
        let g2 = group_chars(&caps[i], 1);
        let g3 = group_chars(&caps[i], 2);
        let id = loop_id_chars(i);
        push_all(&mut out, &g1);
        out.push(' ');
        push_all(&mut out, &id);
        out.push(' ');
        push_all(&mut out, &g3);
        let next = nth_chars(&pieces, i + 1);
        push_all(&mut out, &next);
        assert(out@ =~= rewritten_template(ps, cs.take(i + 1)));
        loops.insert(string_of(&g2), string_of(&id));
        i = i + 1;
    }
    assert(cs.take(caps@.len() as int) =~= cs);
    proof {
        lemma_loops_count(cs);
    }
    let html = string_of(&out);
    (html, loops)
}

/// Splits a view at its first line break into target line and template.
pub fn separate_target(view_string: &str) -> (r: Result<(String, String), ParseError>)
    ensures
        match target_end(view_string@) {
            Some(i) => r matches Ok((t, h)) && t@ == view_string@.take(i) && h@ == view_string@.skip(
                i + 1,
            ),
            None => r == Err::<(String, String), ParseError>(ParseError::MissingFrontmatter),
        },
{
    let s = chars_of(view_string);
    let nl = vec!['\n'];
    assert(nl@ =~= seq!['\n']);
    match find_chars(&s, &nl) {
        Some(i) => {
            proof {
                crate::text::lemma_find(s@, nl@);
            }
            let n = s.len();
            Ok((string_of(&copy_range(&s, 0, i)), string_of(&copy_range(&s, i + 1, n))))
        },
        None => Err(ParseError::MissingFrontmatter),
    }
}

/// The glob of a view's target line: the text between its first two double
/// quotes (from the first one to the end where there is no second one, the
/// whole line where there is none).
pub fn target_glob(target: &str) -> (r: String)
    ensures
        r@ == target_pattern(target@),
{
    let t = chars_of(target);
    let quote = vec!['"'];
    assert(quote@ =~= seq!['"']);
    let after = match find_chars(&t, &quote) {
        Some(i) => {
            proof {
                crate::text::lemma_find(t@, quote@);
            }
            let n = t.len();
            copy_range(&t, i + 1, n)
        },
        None => t,
    };
    let pattern = match find_chars(&after, &quote) {
        Some(j) => {
            proof {
                crate::text::lemma_find(after@, quote@);
            }
            copy_range(&after, 0, j)
        },
        None => after,
    };
    string_of(&pattern)
}

/// The glob of a view's target line, if it is one. A glob that globset
/// accepts but whose matcher cannot be built is left out.
pub fn parse_target(target: &str) -> (r: Result<String, ParseError>)
    requires
        glob_compiles(target_pattern(target@)) ==> glob_matcher_builds(target_pattern(target@)),
    ensures
        glob_compiles(target_pattern(target@)) ==> (r matches Ok(p) && p@ == target_pattern(target@)),
        !glob_compiles(target_pattern(target@)) ==> r == Err::<String, ParseError>(
            ParseError::InvalidGlob,
        ),
{
    let p = target_glob(target);
    match glob_regex(p.as_str()) {
        Some(_) => Ok(p),
        None => Err(ParseError::InvalidGlob),
    }
}

/// A view: the glob of the content paths it renders, its template and its
/// custom loops (glob to loop name).
pub struct View {
    target: String,
    html: String,
    custom_loops: StrMap,
}

impl View {
    #[verifier::type_invariant]
    spec fn inv(&self) -> bool {
        glob_matcher_builds(self.target@)
    }

    /// The glob of the content paths that the view renders.
    pub closed spec fn target_spec(&self) -> Seq<char> {
        self.target@
    }

    /// The view's template.
    pub closed spec fn html_spec(&self) -> Seq<char> {
        self.html@
    }

    /// The view's custom loops.
    pub closed spec fn loops_spec(&self) -> StrMap {
        self.custom_loops
    }

    /// The glob of the content paths that the view renders.
    pub fn target(&self) -> (r: &String)
        ensures
            r@ == self.target_spec(),
            glob_matcher_builds(r@),
    {
        proof {
            use_type_invariant(self);
        }
        &self.target
    }

    /// The view's template, its custom loop tags rewritten.
    pub fn html(&self) -> (r: &String)
        ensures
            r@ == self.html_spec(),
    {
        &self.html
    }

    /// The view's custom loops: glob to loop name.
    pub fn custom_loops(&self) -> (r: &StrMap)
        ensures
            r == self.loops_spec(),
    {
        &self.custom_loops
    }
}

/// A view with a target line is that line, a line break and its template;
/// the target line has no line break.
pub proof fn lemma_view_split(view: Seq<char>)
    requires
        target_end(view) is Some,
    ensures
        view == view.take(target_end(view).unwrap()) + seq!['\n'] + view.skip(
            target_end(view).unwrap() + 1,
        ),
        !view.take(target_end(view).unwrap()).contains('\n'),
{
    let i = target_end(view).unwrap();
    crate::text::lemma_find(view, seq!['\n']);
    assert(view.subrange(i, i + 1) =~= seq!['\n']);
    assert(view[i] == '\n') by {
        assert(view.subrange(i, i + 1)[0] == view[i]);
    }
    assert(view =~= view.take(i) + seq!['\n'] + view.skip(i + 1));
    if view.take(i).contains('\n') {
        let j = choose|j: int| 0 <= j < view.take(i).len() && view.take(i)[j] == '\n';
        assert(view.subrange(j, j + 1) =~= seq!['\n']);
        assert(occurs_at(view, seq!['\n'], j));
    }
}

/// The target of a view source is a glob whose matcher can be built, where
/// it has a target line.
pub open spec fn view_target_valid(view: Seq<char>) -> bool {
    match target_end(view) {
        Some(i) => glob_matcher_builds(target_pattern(view.take(i))),
        None => true,
    }
}

/// Reads a view: the glob on its first line, then its template, whose custom
/// loop tags are rewritten.
pub fn view(view_string: String) -> (r: Result<View, ParseError>)
    requires
        regex_compiles(GLOB_FOR_LOOP_PATTERN@),
        view_target_valid(view_string@),
    ensures
        match target_end(view_string@) {
            Some(i) => {
                let html = view_string@.skip(i + 1);
                &&& r matches Ok(v)
                &&& v.target_spec() == target_pattern(view_string@.take(i))
                &&& v.html_spec() == rewritten_template(
                    regex_split_pieces(GLOB_FOR_LOOP_PATTERN@, html),
                    regex_capture_groups(GLOB_FOR_LOOP_PATTERN@, html),
                )
                &&& v.loops_spec()@ == loops_of(regex_capture_groups(GLOB_FOR_LOOP_PATTERN@, html))
            },
            None => r == Err::<View, ParseError>(ParseError::ViewFailed),
        },
{
    match separate_target(view_string.as_str()) {
        Ok((target, template)) => {
            let (html, custom_loops) = extract_custom_loops(template.as_str());
            match parse_target(target.as_str()) {
                Ok(pattern) => Ok(View { target: pattern, html, custom_loops }),
                Err(_) => Err(ParseError::ViewFailed),
            }
        },
        Err(_) => Err(ParseError::ViewFailed),
    }
}

} // verus!
