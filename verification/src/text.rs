//! Text handling on character sequences: searching, trimming, splitting
//! into lines, replacing and decimal formatting.

use vstd::prelude::*;

verus! {

// ------------------------------------------------------------------
// Conversions between strings and character vectors
// ------------------------------------------------------------------

/// The characters of `s`, in order (`str::chars`).
#[verifier::external_body]
pub(crate) fn chars_of(s: &str) -> (r: Vec<char>)
    ensures
        r@ == s@,
{
    s.chars().collect()
}

/// The string made of the characters of `v`, in order (`String: FromIterator<&char>`).
#[verifier::external_body]
pub(crate) fn string_of(v: &[char]) -> (r: String)
    ensures
        r@ == v@,
{
    v.iter().collect()
}

/// Whether `c` has the Unicode `White_Space` property (`char::is_whitespace`).
#[verifier::external_body]
pub(crate) fn char_is_whitespace(c: char) -> (r: bool)
    ensures
        r == is_white_space(c),
{
    c.is_whitespace()
}

/// The Unicode `White_Space` characters, as `char::is_whitespace` documents them.
pub open spec fn is_white_space(c: char) -> bool {
    let n = c as u32;
    ||| 0x09 <= n <= 0x0D
    ||| n == 0x20
    ||| n == 0x85
    ||| n == 0xA0
    ||| n == 0x1680
    ||| 0x2000 <= n <= 0x200A
    ||| n == 0x2028
    ||| n == 0x2029
    ||| n == 0x202F
    ||| n == 0x205F
    ||| n == 0x3000
}

// ------------------------------------------------------------------
// Specifications
// ------------------------------------------------------------------

/// The views of a sequence of character vectors.
pub open spec fn views(v: Seq<Vec<char>>) -> Seq<Seq<char>> {
    v.map_values(|x: Vec<char>| x@)
}

/// `pat` occurs in `s` starting at index `i`.
pub open spec fn occurs_at(s: Seq<char>, pat: Seq<char>, i: int) -> bool {
    0 <= i && i + pat.len() <= s.len() && s.subrange(i, i + pat.len()) == pat
}

/// The first index at or after `i` where `pat` occurs in `s`.
pub open spec fn find_from(s: Seq<char>, pat: Seq<char>, i: int) -> Option<int>
    decreases s.len() + 1 - i,
{
    if i < 0 || i + pat.len() > s.len() {
        None
    } else if s.subrange(i, i + pat.len()) == pat {
        Some(i)
    } else {
        find_from(s, pat, i + 1)
    }
}

/// The first index where `pat` occurs in `s` (`str::find`).
pub open spec fn find(s: Seq<char>, pat: Seq<char>) -> Option<int> {
    find_from(s, pat, 0)
}

/// `s` without its leading white space.
pub open spec fn trim_start(s: Seq<char>) -> Seq<char>
    decreases s.len(),
{
    if s.len() > 0 && is_white_space(s[0]) {
        trim_start(s.drop_first())
    } else {
        s
    }
}

/// `s` without its trailing white space.
pub open spec fn trim_end(s: Seq<char>) -> Seq<char>
    decreases s.len(),
{
    if s.len() > 0 && is_white_space(s.last()) {
        trim_end(s.drop_last())
    } else {
        s
    }
}

/// `s` without leading and trailing white space (`str::trim`).
pub open spec fn trim(s: Seq<char>) -> Seq<char> {
    trim_end(trim_start(s))
}

/// The pieces of `s` between the occurrences of `c` (`str::split` with a
/// character): one more piece than there are occurrences.
pub open spec fn split_char(s: Seq<char>, c: char) -> Seq<Seq<char>>
    decreases s.len(),
{
    if s.len() == 0 {
        seq![Seq::<char>::empty()]
    } else {
        let rest = split_char(s.drop_last(), c);
        if s.last() == c {
            rest.push(Seq::<char>::empty())
        } else {
            rest.update(rest.len() - 1, rest.last().push(s.last()))
        }
    }
}

/// A line without the carriage return that ended it.
pub open spec fn strip_cr(l: Seq<char>) -> Seq<char> {
    if l.len() > 0 && l.last() == '\r' {
        l.drop_last()
    } else {
        l
    }
}

/// The lines of `s` (`str::lines`): split at `\n`, a `\r` before that `\n`
/// removed, no empty last line after a final `\n`, none at all for an empty
/// string.
pub open spec fn lines(s: Seq<char>) -> Seq<Seq<char>> {
    if s.len() == 0 {
        seq![]
    } else {
        let pieces = split_char(s, '\n');
        let kept = if s.last() == '\n' {
            pieces.drop_last()
        } else {
            pieces
        };
        Seq::new(
            kept.len(),
            |i: int| if i < kept.len() - 1 || s.last() == '\n' { strip_cr(kept[i]) } else { kept[i] },
        )
    }
}

/// `s` with every non-overlapping occurrence of `pat`, from left to right,
/// replaced by `to` (`str::replace`); an empty `pat` matches before every
/// character and at the end.
pub open spec fn replace_all(s: Seq<char>, pat: Seq<char>, to: Seq<char>) -> Seq<char>
    decreases s.len(),
{
    if pat.len() == 0 {
        if s.len() == 0 {
            to
        } else {
            to + seq![s[0]] + replace_all(s.drop_first(), pat, to)
        }
    } else if s.len() == 0 {
        Seq::<char>::empty()
    } else if pat.len() <= s.len() && s.take(pat.len() as int) == pat {
        to + replace_all(s.skip(pat.len() as int), pat, to)
    } else {
        seq![s[0]] + replace_all(s.drop_first(), pat, to)
    }
}

/// The character of a decimal digit.
pub open spec fn digit(d: nat) -> char {
    if d == 0 {
        '0'
    } else if d == 1 {
        '1'
    } else if d == 2 {
        '2'
    } else if d == 3 {
        '3'
    } else if d == 4 {
        '4'
    } else if d == 5 {
        '5'
    } else if d == 6 {
        '6'
    } else if d == 7 {
        '7'
    } else if d == 8 {
        '8'
    } else {
        '9'
    }
}

/// The decimal notation of `n`, without leading zeros.
pub open spec fn decimal(n: nat) -> Seq<char>
    decreases n,
{
    if n < 10 {
        seq![digit(n)]
    } else {
        decimal(n / 10).push(digit(n % 10))
    }
}

// ------------------------------------------------------------------
// Lemmas
// ------------------------------------------------------------------

/// What `find_from` returns: the first occurrence at or after `k`.
pub proof fn lemma_find_from(s: Seq<char>, pat: Seq<char>, k: int)
    requires
        0 <= k,
    ensures
        match find_from(s, pat, k) {
            Some(i) => k <= i && occurs_at(s, pat, i) && forall|j: int|
                k <= j < i ==> !occurs_at(s, pat, j),
            None => forall|j: int| k <= j ==> !occurs_at(s, pat, j),
        },
    decreases s.len() + 1 - k,
{
    if k + pat.len() > s.len() {
    } else if s.subrange(k, k + pat.len()) == pat {
    } else {
        lemma_find_from(s, pat, k + 1);
    }
}

/// What `find` returns: the first occurrence.
pub proof fn lemma_find(s: Seq<char>, pat: Seq<char>)
    ensures
        match find(s, pat) {
            Some(i) => occurs_at(s, pat, i) && forall|j: int| 0 <= j < i ==> !occurs_at(s, pat, j),
            None => forall|j: int| 0 <= j ==> !occurs_at(s, pat, j),
        },
{
    lemma_find_from(s, pat, 0);
}

/// Different digits have different characters.
proof fn lemma_digit_injective(a: nat, b: nat)
    requires
        a < 10,
        b < 10,
        digit(a) == digit(b),
    ensures
        a == b,
{
}

/// A decimal notation is never empty.
proof fn lemma_decimal_nonempty(n: nat)
    ensures
        decimal(n).len() >= 1,
    decreases n,
{
    if n >= 10 {
        lemma_decimal_nonempty(n / 10);
    }
}

/// Different numbers have different decimal notations.
pub proof fn lemma_decimal_injective(a: nat, b: nat)
    requires
        decimal(a) == decimal(b),
    ensures
        a == b,
    decreases a,
{
    if a < 10 && b < 10 {
        assert(decimal(a) == seq![digit(a)]);
        assert(decimal(b) == seq![digit(b)]);
        assert(decimal(a)[0] == decimal(b)[0]);
        assert(seq![digit(a)][0] == digit(a));
        assert(seq![digit(b)][0] == digit(b));
        lemma_digit_injective(a, b);
    } else if a < 10 {
        lemma_decimal_nonempty(b / 10);
        assert(decimal(b).len() >= 2);
    } else if b < 10 {
        lemma_decimal_nonempty(a / 10);
        assert(decimal(a).len() >= 2);
    } else {
        assert(decimal(a).last() == digit(a % 10));
        assert(decimal(b).last() == digit(b % 10));
        lemma_digit_injective(a % 10, b % 10);
        assert(decimal(a / 10) =~= decimal(a).drop_last());
        assert(decimal(b / 10) =~= decimal(b).drop_last());
        lemma_decimal_injective(a / 10, b / 10);
    }
}

/// `split_char` always gives at least one piece.
pub proof fn lemma_split_char_nonempty(s: Seq<char>, c: char)
    ensures
        split_char(s, c).len() >= 1,
    decreases s.len(),
{
    if s.len() > 0 {
        lemma_split_char_nonempty(s.drop_last(), c);
    }
}

/// Splitting at `c` a text joined by `c` splits each side.
pub proof fn lemma_split_char_concat(a: Seq<char>, b: Seq<char>, c: char)
    ensures
        split_char(a + seq![c] + b, c) == split_char(a, c) + split_char(b, c),
    decreases b.len(),
{
    let s = a + seq![c] + b;
    if b.len() == 0 {
        assert(s =~= a.push(c));
        assert(s.drop_last() =~= a);
        assert(split_char(a, c) + split_char(b, c) =~= split_char(a, c).push(Seq::<char>::empty()));
    } else {
        let b2 = b.drop_last();
        assert(s.drop_last() =~= a + seq![c] + b2);
        lemma_split_char_concat(a, b2, c);
        lemma_split_char_nonempty(b2, c);
        let left = split_char(a, c);
        let right = split_char(b2, c);
        if b.last() == c {
            assert(split_char(s, c) =~= (left + right).push(Seq::<char>::empty()));
            assert(split_char(b, c) =~= right.push(Seq::<char>::empty()));
            assert((left + right).push(Seq::<char>::empty()) =~= left + right.push(
                Seq::<char>::empty(),
            ));
        } else {
            let whole = left + right;
            assert(whole.last() == right.last());
            assert(split_char(s, c) =~= whole.update(whole.len() - 1, whole.last().push(b.last())));
            assert(split_char(b, c) =~= right.update(right.len() - 1, right.last().push(b.last())));
            assert(whole.update(whole.len() - 1, whole.last().push(b.last())) =~= left
                + right.update(right.len() - 1, right.last().push(b.last())));
        }
    }
}

/// A text without `c` is a single piece.
pub proof fn lemma_split_char_absent(t: Seq<char>, c: char)
    requires
        !t.contains(c),
    ensures
        split_char(t, c) == seq![t],
    decreases t.len(),
{
    if t.len() > 0 {
        let t2 = t.drop_last();
        assert(!t2.contains(c)) by {
            if t2.contains(c) {
                let i = choose|i: int| 0 <= i < t2.len() && t2[i] == c;
                assert(t[i] == c);
            }
        }
        lemma_split_char_absent(t2, c);
        assert(t.last() != c) by {
            assert(t[t.len() - 1] == t.last());
        }
        assert(t2.push(t.last()) =~= t);
        assert(seq![t2].update(0, t) =~= seq![t]);
        assert(split_char(t, c) == seq![t2].update(0, t2.push(t.last())));
    } else {
        assert(t =~= Seq::<char>::empty());
    }
}

/// No piece of a split at `c` holds `c`.
pub proof fn lemma_split_char_pieces(s: Seq<char>, c: char)
    ensures
        forall|i: int| 0 <= i < split_char(s, c).len() ==> !(#[trigger] split_char(s, c)[i]).contains(c),
    decreases s.len(),
{
    if s.len() > 0 {
        let rest = split_char(s.drop_last(), c);
        lemma_split_char_pieces(s.drop_last(), c);
        lemma_split_char_nonempty(s.drop_last(), c);
        if s.last() != c {
            let last = rest.last().push(s.last());
            assert(!last.contains(c)) by {
                if last.contains(c) {
                    let j = choose|j: int| 0 <= j < last.len() && last[j] == c;
                    assert(j < rest.last().len());
                    assert(rest[rest.len() - 1][j] == c);
                }
            }
            assert forall|i: int| 0 <= i < split_char(s, c).len() implies !(#[trigger] split_char(
                s,
                c,
            )[i]).contains(c) by {
                if i < rest.len() - 1 {
                    assert(split_char(s, c)[i] == rest[i]);
                }
            }
        } else {
            assert forall|i: int| 0 <= i < split_char(s, c).len() implies !(#[trigger] split_char(
                s,
                c,
            )[i]).contains(c) by {
                if i < rest.len() {
                    assert(split_char(s, c)[i] == rest[i]);
                } else {
                    assert(split_char(s, c)[i] == Seq::<char>::empty());
                }
            }
        }
    }
}

/// The views of a vector after a push.
proof fn lemma_views_push(v: Seq<Vec<char>>, x: Vec<char>)
    ensures
        views(v.push(x)) == views(v).push(x@),
{
    assert(views(v.push(x)) =~= views(v).push(x@));
}

/// What `trim_start` leaves starts with a character that is not white space.
proof fn lemma_trim_start_shape(s: Seq<char>)
    ensures
        trim_start(s).len() == 0 || !is_white_space(trim_start(s)[0]),
    decreases s.len(),
{
    if s.len() > 0 && is_white_space(s[0]) {
        lemma_trim_start_shape(s.drop_first());
    }
}

/// What `trim_end` leaves is a prefix of `s` that ends with a character that
/// is not white space.
proof fn lemma_trim_end_shape(s: Seq<char>)
    ensures
        trim_end(s).len() <= s.len(),
        trim_end(s) == s.take(trim_end(s).len() as int),
        trim_end(s).len() == 0 || !is_white_space(trim_end(s).last()),
    decreases s.len(),
{
    if s.len() > 0 && is_white_space(s.last()) {
        lemma_trim_end_shape(s.drop_last());
        assert(s.drop_last().take(trim_end(s).len() as int) =~= s.take(trim_end(s).len() as int));
    } else {
        assert(s.take(s.len() as int) =~= s);
    }
}

/// Trimming a trimmed text changes nothing.
pub proof fn lemma_trim_idempotent(s: Seq<char>)
    ensures
        trim(trim(s)) == trim(s),
{
    let u = trim_start(s);
    let t = trim_end(u);
    lemma_trim_start_shape(s);
    lemma_trim_end_shape(u);
    if t.len() > 0 {
        assert(t[0] == u[0]);
    }
    assert(trim_start(t) == t);
    lemma_trim_end_shape(t);
    if t.len() > 0 && is_white_space(t.last()) {
        assert(false);
    }
    assert(trim_end(t) == t);
}

/// Replacing the occurrences of a non-empty `pat` in a text that starts with
/// `pat` gives `to` followed by the rest replaced: a path inside a directory
/// moves inside the directory that replaces it.
pub proof fn lemma_replace_prefix(pat: Seq<char>, rest: Seq<char>, to: Seq<char>)
    requires
        pat.len() > 0,
    ensures
        replace_all(pat + rest, pat, to) == to + replace_all(rest, pat, to),
{
    let s = pat + rest;
    assert(s.take(pat.len() as int) =~= pat);
    assert(s.skip(pat.len() as int) =~= rest);
}

/// A text in which a non-empty `pat` does not occur is left unchanged by
/// replacing `pat`.
pub proof fn lemma_replace_absent(s: Seq<char>, pat: Seq<char>, to: Seq<char>)
    requires
        pat.len() > 0,
        forall|i: int| !occurs_at(s, pat, i),
    ensures
        replace_all(s, pat, to) == s,
    decreases s.len(),
{
    if s.len() > 0 {
        if pat.len() <= s.len() && s.take(pat.len() as int) == pat {
            assert(s.subrange(0, pat.len() as int) =~= s.take(pat.len() as int));
            assert(occurs_at(s, pat, 0));
        }
        let t = s.drop_first();
        assert forall|i: int| !occurs_at(t, pat, i) by {
            if occurs_at(t, pat, i) {
                assert(s.subrange(i + 1, i + 1 + pat.len()) =~= t.subrange(i, i + pat.len()));
                assert(occurs_at(s, pat, i + 1));
            }
        }
        lemma_replace_absent(t, pat, to);
        assert(seq![s[0]] + t =~= s);
    }
}

// ------------------------------------------------------------------
// Executable functions
// ------------------------------------------------------------------

/// A copy of `s[from..to]`.
pub fn copy_range(s: &[char], from: usize, to: usize) -> (r: Vec<char>)
    requires
        from <= to <= s@.len(),
    ensures
        r@ == s@.subrange(from as int, to as int),
{
    let mut r: Vec<char> = Vec::new();
    let mut i: usize = from;
    while i < to
        invariant
            from <= i <= to <= s@.len(),
            r@ == s@.subrange(from as int, i as int),
        decreases to - i,
    {
        r.push(s[i]);
        i = i + 1;
    }
    r
}

/// Appends the characters of `s` to `out`.
pub fn push_all(out: &mut Vec<char>, s: &[char])
    ensures
        final(out)@ == old(out)@ + s@,
{
    let mut i: usize = 0;
    while i < s.len()
        invariant
            0 <= i <= s@.len(),
            out@ == old(out)@ + s@.subrange(0, i as int),
        decreases s@.len() - i,
    {
        out.push(s[i]);
        i = i + 1;
    }
    assert(s@.subrange(0, s@.len() as int) =~= s@);
}

/// Whether the two character sequences are equal.
pub fn same_chars(a: &[char], b: &[char]) -> (r: bool)
    ensures
        r == (a@ == b@),
{
    if a.len() != b.len() {
        return false;
    }
    let mut i: usize = 0;
    while i < a.len()
        invariant
            a@.len() == b@.len(),
            0 <= i <= a@.len(),
            forall|k: int| 0 <= k < i ==> a@[k] == b@[k],
        decreases a@.len() - i,
    {
        if a[i] != b[i] {
            return false;
        }
        i = i + 1;
    }
    assert(a@ =~= b@);
    true
}

/// Whether `pat` occurs in `s` at index `i`.
pub fn occurs_at_index(s: &[char], pat: &[char], i: usize) -> (r: bool)
    ensures
        r == occurs_at(s@, pat@, i as int),
{
    if i > s.len() || pat.len() > s.len() - i {
        return false;
    }
    let mut k: usize = 0;
    while k < pat.len()
        invariant
            i + pat@.len() <= s@.len(),
            s@.len() <= usize::MAX,
            0 <= k <= pat@.len(),
            forall|j: int| 0 <= j < k ==> s@[i + j] == pat@[j],
        decreases pat@.len() - k,
    {
        if s[i + k] != pat[k] {
            assert(s@.subrange(i as int, i + pat@.len())[k as int] != pat@[k as int]);
            return false;
        }
        k = k + 1;
    }
    assert(s@.subrange(i as int, i + pat@.len()) =~= pat@);
    true
}

/// The first index where `pat` occurs in `s` (`str::find`).
pub fn find_chars(s: &[char], pat: &[char]) -> (r: Option<usize>)
    ensures
        r matches Some(i) ==> find(s@, pat@) == Some(i as int),
        r is None ==> find(s@, pat@) is None,
{
    let mut i: usize = 0;
    while i <= s.len()
        invariant
            0 <= i <= s@.len() + 1,
            find(s@, pat@) == find_from(s@, pat@, i as int),
        decreases s@.len() + 1 - i,
    {
        if pat.len() > s.len() - i {
            return None;
        }
        if occurs_at_index(s, pat, i) {
            return Some(i);
        }
        if i == s.len() {
            assert(find_from(s@, pat@, i + 1) is None);
            assert(find_from(s@, pat@, i as int) == find_from(s@, pat@, i + 1));
            return None;
        }
        i = i + 1;
    }
    None
}

/// `s` without leading and trailing white space (`str::trim`).
pub fn trim_chars(s: &[char]) -> (r: Vec<char>)
    ensures
        r@ == trim(s@),
{
    let mut a: usize = 0;
    assert(s@.skip(0) =~= s@);
    while a < s.len() && char_is_whitespace(s[a])
        invariant
            0 <= a <= s@.len(),
            trim_start(s@) == trim_start(s@.skip(a as int)),
        decreases s@.len() - a,
    {
        assert(s@.skip(a as int).drop_first() =~= s@.skip(a + 1));
        a = a + 1;
    }
    let ghost mid = s@.skip(a as int);
    assert(trim_start(mid) == mid);
    let mut b: usize = s.len();
    while b > a && char_is_whitespace(s[b - 1])
        invariant
            a <= b <= s@.len(),
            trim_end(mid) == trim_end(s@.subrange(a as int, b as int)),
        decreases b - a,
    {
        assert(s@.subrange(a as int, b as int).drop_last() =~= s@.subrange(a as int, b - 1));
        b = b - 1;
    }
    assert(mid =~= s@.subrange(a as int, s@.len() as int));
    copy_range(s, a, b)
}

/// The characters of a decimal digit.
fn digit_char(d: usize) -> (c: char)
    requires
        d < 10,
    ensures
        c == digit(d as nat),
{
    if d == 0 {
        '0'
    } else if d == 1 {
        '1'
    } else if d == 2 {
        '2'
    } else if d == 3 {
        '3'
    } else if d == 4 {
        '4'
    } else if d == 5 {
        '5'
    } else if d == 6 {
        '6'
    } else if d == 7 {
        '7'
    } else if d == 8 {
        '8'
    } else {
        '9'
    }
}

/// Appends the decimal notation of `n` to `out`.
pub fn push_decimal(out: &mut Vec<char>, n: usize)
    ensures
        final(out)@ == old(out)@ + decimal(n as nat),
    decreases n,
{
    if n < 10 {
        out.push(digit_char(n));
    } else {
        push_decimal(out, n / 10);
        out.push(digit_char(n % 10));
    }
}

/// The pieces of `s` between the occurrences of `c` (`str::split` with a
/// character).
pub fn split_chars(s: &[char], c: char) -> (r: Vec<Vec<char>>)
    ensures
        views(r@) == split_char(s@, c),
{
    let mut done: Vec<Vec<char>> = Vec::new();
    let mut cur: Vec<char> = Vec::new();
    let mut i: usize = 0;
    assert(s@.take(0) =~= Seq::<char>::empty());
    assert(views(done@).push(cur@) =~= seq![Seq::<char>::empty()]);
    while i < s.len()
        invariant
            0 <= i <= s@.len(),
            views(done@).push(cur@) == split_char(s@.take(i as int), c),
        decreases s@.len() - i,
    {
        let ghost before = split_char(s@.take(i as int), c);
        assert(s@.take(i + 1).drop_last() =~= s@.take(i as int));
        assert(s@.take(i + 1).last() == s@[i as int]);
        if s[i] == c {
            proof {
                lemma_views_push(done@, cur);
            }
            done.push(cur);
            cur = Vec::new();
            assert(views(done@).push(cur@) =~= before.push(Seq::<char>::empty()));
        } else {
            cur.push(s[i]);
            assert(views(done@).push(cur@) =~= before.update(
                before.len() - 1,
                before.last().push(s@[i as int]),
            ));
        }
        i = i + 1;
    }
    assert(s@.take(s@.len() as int) =~= s@);
    proof {
        lemma_views_push(done@, cur);
    }
    done.push(cur);
    done
}

/// `l` without a final carriage return.
pub fn strip_cr_chars(l: &[char]) -> (r: Vec<char>)
    ensures
        r@ == strip_cr(l@),
{
    if l.len() > 0 && l[l.len() - 1] == '\r' {
        copy_range(l, 0, l.len() - 1)
    } else {
        copy_range(l, 0, l.len())
    }
}

/// The lines of `s` (`str::lines`).
pub fn lines_of(s: &[char]) -> (r: Vec<Vec<char>>)
    ensures
        views(r@) == lines(s@),
{
    let mut out: Vec<Vec<char>> = Vec::new();
    if s.len() == 0 {
        assert(views(out@) =~= lines(s@));
        return out;
    }
    let pieces = split_chars(s, '\n');
    proof {
        lemma_split_char_nonempty(s@, '\n');
    }
    let ends_nl = s[s.len() - 1] == '\n';
    let n: usize = if ends_nl {
        pieces.len() - 1
    } else {
        pieces.len()
    };
    let ghost kept = if ends_nl {
        split_char(s@, '\n').drop_last()
    } else {
        split_char(s@, '\n')
    };
    let mut k: usize = 0;
    while k < n
        invariant
            0 <= k <= n,
            n == kept.len(),
            s@.len() > 0,
            ends_nl == (s@.last() == '\n'),
            views(pieces@) == split_char(s@, '\n'),
            kept == (if ends_nl {
                split_char(s@, '\n').drop_last()
            } else {
                split_char(s@, '\n')
            }),
            n <= pieces@.len(),
            views(out@) =~= lines(s@).take(k as int),
        decreases n - k,
    {
        assert(pieces@[k as int]@ == kept[k as int]);
        let line = if k + 1 < n || ends_nl {
            strip_cr_chars(&pieces[k])
        } else {
            copy_range(&pieces[k], 0, pieces[k].len())
        };
        assert(lines(s@).len() == n);
        assert(lines(s@)[k as int] == line@);
        proof {
            lemma_views_push(out@, line);
        }
        out.push(line);
        assert(views(out@) =~= lines(s@).take(k + 1));
        k = k + 1;
    }
    out
}

/// `s` with every occurrence of `pat` replaced by `to` (`str::replace`).
pub fn replace_chars(s: &[char], pat: &[char], to: &[char]) -> (r: Vec<char>)
    ensures
        r@ == replace_all(s@, pat@, to@),
{
    let mut out: Vec<char> = Vec::new();
    let mut i: usize = 0;
    assert(s@.skip(0) =~= s@);
    while i < s.len()
        invariant
            0 <= i <= s@.len(),
            out@ + replace_all(s@.skip(i as int), pat@, to@) == replace_all(s@, pat@, to@),
        decreases s@.len() - i,
    {
        let ghost rest = s@.skip(i as int);
        assert(rest[0] == s@[i as int]);
        assert(rest.drop_first() =~= s@.skip(i + 1));
        if pat.len() == 0 {
            let ghost tail = replace_all(s@.skip(i + 1), pat@, to@);
            assert(out@ + replace_all(rest, pat@, to@) =~= out@ + to@ + seq![s@[i as int]] + tail);
            push_all(&mut out, to);
            out.push(s[i]);
            i = i + 1;
        } else if occurs_at_index(s, pat, i) {
            assert(rest.take(pat@.len() as int) =~= s@.subrange(i as int, i + pat@.len()));
            assert(rest.skip(pat@.len() as int) =~= s@.skip(i + pat@.len()));
            let ghost tail = replace_all(s@.skip(i + pat@.len()), pat@, to@);
            assert(out@ + replace_all(rest, pat@, to@) =~= out@ + to@ + tail);
            push_all(&mut out, to);
            i = i + pat.len();
        } else {
            proof {
                if pat@.len() <= rest.len() {
                    assert(rest.take(pat@.len() as int) =~= s@.subrange(i as int, i + pat@.len()));
                }
            }
            let ghost tail = replace_all(s@.skip(i + 1), pat@, to@);
            assert(out@ + replace_all(rest, pat@, to@) =~= out@.push(s@[i as int]) + tail);
            out.push(s[i]);
            i = i + 1;
        }
    }
    assert(s@.skip(i as int) =~= Seq::<char>::empty());
    if pat.len() == 0 {
        assert(out@ + to@ =~= out@ + replace_all(s@.skip(i as int), pat@, to@));
        push_all(&mut out, to);
    } else {
        assert(out@ =~= out@ + replace_all(s@.skip(i as int), pat@, to@));
    }
    out
}

} // verus!
