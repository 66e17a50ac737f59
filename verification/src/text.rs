//! Strings as sequences of characters: the operations that the rest of the
//! library is written with, each with its meaning on the character sequence.

use vstd::prelude::*;

verus! {

/// `String::push` appends one character to the end of the string.
pub assume_specification[ String::push ](s: &mut String, c: char)
    ensures
        final(s)@ == old(s)@.push(c),
;

/// The characters of `s`, in order.
pub fn chars_of(s: &str) -> (r: Vec<char>)
    ensures
        r@ == s@,
{
    let mut r: Vec<char> = Vec::new();
    for c in it: s.chars()
        invariant
            r@ == it.seq().take(it.index() as int),
            it.seq() == s@,
    {
        r.push(c);
    }
    r
}

/// Whether two strings hold the same characters.
pub fn eq(a: &str, b: &str) -> (r: bool)
    ensures
        r == (a@ == b@),
{
    let x = chars_of(a);
    let y = chars_of(b);
    if x.len() != y.len() {
        return false;
    }
    for i in 0..x.len()
        invariant
            x@ == a@,
            y@ == b@,
            x.len() == y.len(),
            forall|j: int| 0 <= j < i ==> x@[j] == y@[j],
    {
        if x[i] != y[i] {
            return false;
        }
    }
    assert(a@ =~= b@);
    true
}

/// The characters that Unicode counts as white space.
pub open spec fn is_white_space(c: char) -> bool {
    let n = c as u32;
    ||| 0x9 <= n <= 0xd
    ||| n == 0x20
    ||| n == 0x85
    ||| n == 0xa0
    ||| n == 0x1680
    ||| 0x2000 <= n <= 0x200a
    ||| n == 0x2028
    ||| n == 0x2029
    ||| n == 0x202f
    ||| n == 0x205f
    ||| n == 0x3000
}

fn white_space(c: char) -> (r: bool)
    ensures
        r == is_white_space(c),
{
    let n: u32 = c as u32;
    (0x9 <= n && n <= 0xd) || n == 0x20 || n == 0x85 || n == 0xa0 || n == 0x1680 || (0x2000 <= n
        && n <= 0x200a) || n == 0x2028 || n == 0x2029 || n == 0x202f || n == 0x205f || n == 0x3000
}

/// `s` without the white space at its front.
pub open spec fn trim_start_spec(s: Seq<char>) -> Seq<char>
    decreases s.len(),
{
    if s.len() > 0 && is_white_space(s[0]) {
        trim_start_spec(s.drop_first())
    } else {
        s
    }
}

/// `s` without the white space at its end.
pub open spec fn trim_end_spec(s: Seq<char>) -> Seq<char>
    decreases s.len(),
{
    if s.len() > 0 && is_white_space(s.last()) {
        trim_end_spec(s.drop_last())
    } else {
        s
    }
}

/// `s` without the white space at either end.
pub open spec fn trim_spec(s: Seq<char>) -> Seq<char> {
    trim_end_spec(trim_start_spec(s))
}

/// Removes the white space at both ends.
pub fn trim(s: &str) -> (r: String)
    ensures
        r@ == trim_spec(s@),
{
    let x = chars_of(s);
    let mut from: usize = 0;
    assert(s@.skip(0) =~= s@);
    while from < x.len() && white_space(x[from])
        invariant
            0 <= from <= x@.len(),
            x@ == s@,
            trim_start_spec(s@) == trim_start_spec(s@.skip(from as int)),
        decreases x@.len() - from,
    {
        assert(s@.skip(from as int).drop_first() =~= s@.skip(from + 1));
        from = from + 1;
    }
    let ghost t = s@.skip(from as int);
    let mut to: usize = x.len();
    while from < to && white_space(x[to - 1])
        invariant
            0 <= from <= to <= x@.len(),
            x@ == s@,
            t == s@.skip(from as int),
            trim_end_spec(t) == trim_end_spec(s@.subrange(from as int, to as int)),
        decreases to - from,
    {
        assert(s@.subrange(from as int, to as int).drop_last() =~= s@.subrange(
            from as int,
            to - 1,
        ));
        to = to - 1;
    }
    assert(s@.subrange(from as int, s@.len() as int) =~= t);
    let r = s.substring_char(from, to).to_owned();
    r
}

/// `s` without the run of `c` at its end.
pub open spec fn trim_end_matches_spec(s: Seq<char>, c: char) -> Seq<char>
    decreases s.len(),
{
    if s.len() > 0 && s.last() == c {
        trim_end_matches_spec(s.drop_last(), c)
    } else {
        s
    }
}

/// Removes every `c` at the end.
pub fn trim_end_matches(s: &str, c: char) -> (r: String)
    ensures
        r@ == trim_end_matches_spec(s@, c),
{
    let x = chars_of(s);
    let mut to: usize = x.len();
    assert(s@.take(s@.len() as int) =~= s@);
    while 0 < to && x[to - 1] == c
        invariant
            0 <= to <= x@.len(),
            x@ == s@,
            trim_end_matches_spec(s@, c) == trim_end_matches_spec(s@.take(to as int), c),
        decreases to,
    {
        assert(s@.take(to as int).drop_last() =~= s@.take(to - 1));
        to = to - 1;
    }
    let r = s.substring_char(0, to).to_owned();
    assert(s@.subrange(0, to as int) =~= s@.take(to as int));
    r
}

/// Whether `s` begins with `p`.
pub fn starts_with(s: &str, p: &str) -> (r: bool)
    ensures
        r == p@.is_prefix_of(s@),
{
    let n: usize = p.unicode_len();
    if s.unicode_len() < n {
        return false;
    }
    let head = s.substring_char(0, n);
    eq(p, head)
}

/// Whether `s` ends with `p`.
pub fn ends_with(s: &str, p: &str) -> (r: bool)
    ensures
        r == p@.is_suffix_of(s@),
{
    let n: usize = p.unicode_len();
    let m: usize = s.unicode_len();
    if m < n {
        return false;
    }
    let tail = s.substring_char(m - n, m);
    eq(p, tail)
}

/// What follows the prefix `p` of `s`, where `s` begins with it; else `s`.
pub open spec fn without_prefix_spec(s: Seq<char>, p: Seq<char>) -> Seq<char> {
    if p.is_prefix_of(s) {
        s.skip(p.len() as int)
    } else {
        s
    }
}

/// Drops the prefix `p` where `s` begins with it.
pub fn without_prefix(s: &str, p: &str) -> (r: String)
    ensures
        r@ == without_prefix_spec(s@, p@),
{
    if starts_with(s, p) {
        let m: usize = s.unicode_len();
        let r = s.substring_char(p.unicode_len(), m).to_owned();
        assert(r@ =~= s@.skip(p@.len() as int));
        r
    } else {
        s.to_owned()
    }
}

/// Two strings in a row.
pub fn concat(a: &str, b: &str) -> (r: String)
    ensures
        r@ == a@ + b@,
{
    let mut r = a.to_owned();
    r.append(b);
    r
}

/// Three strings in a row.
pub fn concat3(a: &str, b: &str, c: &str) -> (r: String)
    ensures
        r@ == a@ + b@ + c@,
{
    let mut r = a.to_owned();
    r.append(b);
    r.append(c);
    r
}

/// The position of the first `c` in `s`, or the length of `s` where it has none.
pub open spec fn find_spec(s: Seq<char>, c: char) -> int
    decreases s.len(),
{
    if s.len() == 0 || s[0] == c {
        0
    } else {
        1 + find_spec(s.drop_first(), c)
    }
}

pub proof fn lemma_find_range(s: Seq<char>, c: char)
    ensures
        0 <= find_spec(s, c) <= s.len(),
        find_spec(s, c) < s.len() ==> s[find_spec(s, c)] == c,
        forall|i: int| 0 <= i < find_spec(s, c) ==> s[i] != c,
    decreases s.len(),
{
    if s.len() == 0 || s[0] == c {
    } else {
        lemma_find_range(s.drop_first(), c);
        let k = find_spec(s.drop_first(), c);
        assert forall|i: int| 0 <= i < k + 1 implies s[i] != c by {
            if i > 0 {
                assert(s[i] == s.drop_first()[i - 1]);
            }
        }
    }
}

/// The position of the first `c` at or after `from`.
pub fn find_from(x: &Vec<char>, from: usize, c: char) -> (r: usize)
    requires
        from <= x@.len(),
    ensures
        from <= r <= x@.len(),
        r == from + find_spec(x@.skip(from as int), c),
{
    let mut i: usize = from;
    while i < x.len() && x[i] != c
        invariant
            from <= i <= x@.len(),
            find_spec(x@.skip(from as int), c) == i - from + find_spec(x@.skip(i as int), c),
        decreases x@.len() - i,
    {
        assert(x@.skip(i as int).drop_first() =~= x@.skip(i + 1));
        i = i + 1;
    }
    i
}

/// A line without the carriage return that may end it.
pub open spec fn without_cr(s: Seq<char>) -> Seq<char> {
    if s.len() > 0 && s.last() == '\r' {
        s.drop_last()
    } else {
        s
    }
}

/// The lines of a text: each ends at `\n` or `\r\n`, which are not part of it;
/// a line feed at the very end opens no further line.
pub open spec fn lines_spec(s: Seq<char>) -> Seq<Seq<char>>
    decreases s.len(),
    via lines_decreases
{
    if s.len() == 0 {
        Seq::empty()
    } else {
        let k = find_spec(s, '\n');
        if k >= s.len() {
            seq![s]
        } else {
            seq![without_cr(s.take(k))] + lines_spec(s.skip(k + 1))
        }
    }
}

#[via_fn]
proof fn lines_decreases(s: Seq<char>) {
    lemma_find_range(s, '\n');
}

/// Splits a text into its lines.
pub fn lines(s: &str) -> (r: Vec<String>)
    ensures
        r.deep_view() == lines_spec(s@),
{
    let x = chars_of(s);
    let n: usize = x.len();
    let mut r: Vec<String> = Vec::new();
    let mut at: usize = 0;
    assert(s@.skip(0) =~= s@);
    assert(r.deep_view() =~= Seq::<Seq<char>>::empty());
    assert(lines_spec(s@) =~= r.deep_view() + lines_spec(s@.skip(0)));
    while at < n
        invariant
            x@ == s@,
            n == x@.len(),
            at <= n,
            lines_spec(s@) == r.deep_view() + lines_spec(s@.skip(at as int)),
        decreases n - at,
    {
        let k: usize = find_from(&x, at, '\n');
        let ghost rest = s@.skip(at as int);
        let ghost before = r.deep_view();
        proof {
            lemma_find_range(rest, '\n');
        }
        if k == n {
            let line = s.substring_char(at, n).to_owned();
            assert(line@ =~= rest);
            r.push(line);
            assert(r.deep_view() =~= before.push(rest));
            at = n;
            assert(s@.skip(at as int).len() == 0);
            assert(lines_spec(s@) =~= r.deep_view() + lines_spec(s@.skip(at as int)));
        } else {
            let end: usize = if at < k && x[k - 1] == '\r' {
                k - 1
            } else {
                k
            };
            let line = s.substring_char(at, end).to_owned();
            assert(rest.take(k - at) =~= s@.subrange(at as int, k as int));
            assert(line@ =~= without_cr(rest.take(k - at)));
            r.push(line);
            assert(r.deep_view() =~= before.push(line@));
            assert(rest.skip(k - at + 1) =~= s@.skip(k + 1));
            at = k + 1;
            assert(lines_spec(rest) == seq![line@] + lines_spec(s@.skip(at as int)));
            assert(lines_spec(s@) =~= r.deep_view() + lines_spec(s@.skip(at as int)));
        }
    }
    assert(s@.skip(at as int).len() == 0);
    assert(lines_spec(s@) =~= r.deep_view());
    r
}

/// The strings in a row, with `sep` between each two.
pub open spec fn join_spec(parts: Seq<Seq<char>>, sep: Seq<char>) -> Seq<char>
    decreases parts.len(),
{
    if parts.len() == 0 {
        Seq::empty()
    } else if parts.len() == 1 {
        parts[0]
    } else {
        join_spec(parts.drop_last(), sep) + sep + parts.last()
    }
}

/// Joins the strings with `sep` between each two.
pub fn join(parts: &Vec<String>, sep: &str) -> (r: String)
    ensures
        r@ == join_spec(parts.deep_view(), sep@),
{
    let mut r = String::new();
    for i in 0..parts.len()
        invariant
            r@ == join_spec(parts.deep_view().take(i as int), sep@),
    {
        let ghost all = parts.deep_view();
        assert(all.take(i + 1).drop_last() =~= all.take(i as int));
        assert(all.take(i + 1).last() == parts@[i as int]@);
        if i > 0 {
            r.append(sep);
        }
        r.append(parts[i].as_str());
        assert(r@ =~= join_spec(all.take(i + 1), sep@));
    }
    assert(parts.deep_view().take(parts@.len() as int) =~= parts.deep_view());
    r
}

/// Trimming takes white space off both ends, all of it and nothing else.
pub proof fn law_trim(s: Seq<char>)
    ensures
        exists|a: int, b: int|
            0 <= a <= b <= s.len() && trim_spec(s) == #[trigger] s.subrange(a, b) && (forall|i: int|
                (0 <= i < a || b <= i < s.len()) ==> is_white_space(#[trigger] s[i])),
        trim_spec(s).len() > 0 ==> !is_white_space(trim_spec(s)[0]) && !is_white_space(
            trim_spec(s).last(),
        ),
{
    let front = trim_start_spec(s);
    let a = lemma_trim_start(s);
    let n = lemma_trim_end(front);
    let b = a + n;
    assert(trim_spec(s) =~= s.subrange(a, b));
    assert forall|i: int| (0 <= i < a || b <= i < s.len()) implies is_white_space(
        #[trigger] s[i],
    ) by {
        if i >= a {
            assert(front[i - a] == s[i]);
        }
    }
    if n > 0 {
        assert(trim_spec(s)[0] == front[0]);
    }
}

proof fn lemma_trim_start(s: Seq<char>) -> (a: int)
    ensures
        0 <= a <= s.len(),
        trim_start_spec(s) == s.skip(a),
        forall|i: int| 0 <= i < a ==> is_white_space(#[trigger] s[i]),
        a < s.len() ==> !is_white_space(s[a]),
    decreases s.len(),
{
    if s.len() > 0 && is_white_space(s[0]) {
        let rest = s.drop_first();
        let b = lemma_trim_start(rest);
        assert(rest.skip(b) =~= s.skip(b + 1));
        assert forall|i: int| 0 <= i < b + 1 implies is_white_space(#[trigger] s[i]) by {
            if i > 0 {
                assert(rest[i - 1] == s[i]);
            }
        }
        if b + 1 < s.len() {
            assert(rest[b] == s[b + 1]);
        }
        b + 1
    } else {
        assert(s.skip(0) =~= s);
        0
    }
}

proof fn lemma_trim_end(s: Seq<char>) -> (n: int)
    ensures
        0 <= n <= s.len(),
        trim_end_spec(s) == s.take(n),
        forall|i: int| n <= i < s.len() ==> is_white_space(#[trigger] s[i]),
        n > 0 ==> !is_white_space(s[n - 1]),
    decreases s.len(),
{
    if s.len() > 0 && is_white_space(s.last()) {
        let rest = s.drop_last();
        let n = lemma_trim_end(rest);
        assert(rest.take(n) =~= s.take(n));
        assert forall|i: int| n <= i < s.len() implies is_white_space(#[trigger] s[i]) by {
            if i < rest.len() {
                assert(rest[i] == s[i]);
            }
        }
        if n > 0 {
            assert(rest[n - 1] == s[n - 1]);
        }
        n
    } else {
        assert(s.take(s.len() as int) =~= s);
        s.len() as int
    }
}

/// Taking a character off the end of a text takes the whole run of it, and nothing else.
pub proof fn law_trim_end_matches(s: Seq<char>, c: char)
    ensures
        ({
            let r = trim_end_matches_spec(s, c);
            &&& r.len() <= s.len()
            &&& r == s.take(r.len() as int)
            &&& forall|i: int| r.len() <= i < s.len() ==> #[trigger] s[i] == c
            &&& r.len() > 0 ==> r.last() != c
        }),
    decreases s.len(),
{
    let r = trim_end_matches_spec(s, c);
    if s.len() > 0 && s.last() == c {
        let rest = s.drop_last();
        law_trim_end_matches(rest, c);
        assert(rest.take(r.len() as int) =~= s.take(r.len() as int));
        assert forall|i: int| r.len() <= i < s.len() implies #[trigger] s[i] == c by {
            if i < rest.len() {
                assert(rest[i] == s[i]);
            }
        }
    } else {
        assert(s.take(s.len() as int) =~= s);
    }
}

/// What follows a prefix is what was put behind it; a text that does not begin so is left.
pub proof fn law_without_prefix(p: Seq<char>, rest: Seq<char>, s: Seq<char>)
    ensures
        without_prefix_spec(p + rest, p) == rest,
        (forall|t: Seq<char>| s != #[trigger] (p + t)) ==> without_prefix_spec(s, p) == s,
{
    assert(p.is_prefix_of(p + rest)) by {
        assert((p + rest).subrange(0, p.len() as int) =~= p);
    }
    assert((p + rest).skip(p.len() as int) =~= rest);
    if p.is_prefix_of(s) {
        assert(s =~= p + s.skip(p.len() as int));
    }
}

/// A character is found where it first stands, or past the end where it does not stand.
pub proof fn law_find(s: Seq<char>, c: char)
    ensures
        0 <= find_spec(s, c) <= s.len(),
        find_spec(s, c) < s.len() ==> s[find_spec(s, c)] == c,
        forall|i: int| 0 <= i < find_spec(s, c) ==> #[trigger] s[i] != c,
    decreases s.len(),
{
    if s.len() > 0 && s[0] != c {
        let rest = s.drop_first();
        law_find(rest, c);
        let k = find_spec(rest, c);
        assert forall|i: int| 0 <= i < k + 1 implies #[trigger] s[i] != c by {
            if i > 0 {
                assert(rest[i - 1] == s[i]);
            }
        }
        if k < rest.len() {
            assert(rest[k] == s[k + 1]);
        }
    }
}

/// The lines of a text without carriage returns, with line feeds between them, are the text
/// again, but for a line feed at its very end; and no line holds a line feed.
pub proof fn law_lines(s: Seq<char>)
    requires
        forall|i: int| 0 <= i < s.len() ==> #[trigger] s[i] != '\r',
    ensures
        s.len() == 0 <==> lines_spec(s).len() == 0,
        s == lines_back(lines_spec(s)) || s == lines_back(lines_spec(s)).push('\n'),
        s.len() > 0 && s.last() != '\n' ==> s == lines_back(lines_spec(s)),
        forall|i: int, j: int|
            0 <= i < lines_spec(s).len() && 0 <= j < lines_spec(s)[i].len()
                ==> #[trigger] lines_spec(s)[i][j] != '\n',
    decreases s.len(),
{
    if s.len() > 0 {
        let k = find_spec(s, '\n');
        law_find(s, '\n');
        let lines = lines_spec(s);
        if k >= s.len() {
            assert(lines =~= seq![s]);
            assert(lines.drop_first() =~= Seq::empty());
            assert(lines_back(lines) =~= s);
        } else {
            let rest = s.skip(k + 1);
            let more = lines_spec(rest);
            assert forall|i: int| 0 <= i < rest.len() implies #[trigger] rest[i] != '\r' by {
                assert(rest[i] == s[k + 1 + i]);
            }
            law_lines(rest);
            assert(without_cr(s.take(k)) == s.take(k)) by {
                if k > 0 {
                    assert(s.take(k).last() == s[k - 1]);
                }
            }
            assert(lines =~= seq![s.take(k)] + more);
            assert(lines.drop_first() =~= more);
            assert(s =~= s.take(k).push('\n') + rest);
            if rest.len() == 0 {
                assert(more =~= Seq::empty());
                assert(lines_back(lines) =~= s.take(k));
            } else {
                assert(rest.last() == s.last());
                assert(s.take(k).push('\n') + lines_back(more).push('\n') =~= (s.take(k).push(
                    '\n',
                ) + lines_back(more)).push('\n'));
            }
            assert forall|i: int, j: int| 0 <= i < lines.len() && 0 <= j < lines[i].len() implies
                #[trigger] lines[i][j] != '\n' by {
                if i == 0 {
                    assert(lines[0] == s.take(k));
                    assert(lines[0][j] == s[j]);
                } else {
                    assert(lines[i] == more[i - 1]);
                    assert(more[i - 1][j] != '\n');
                }
            }
        }
    }
}

/// Lines in a row, with a line feed between each two.
pub open spec fn lines_back(lines: Seq<Seq<char>>) -> Seq<char>
    decreases lines.len(),
{
    if lines.len() == 0 {
        Seq::empty()
    } else if lines.len() == 1 {
        lines[0]
    } else {
        lines[0].push('\n') + lines_back(lines.drop_first())
    }
}

/// Strings in a row: the first comes as it is, and every further one comes behind what there
/// was, after the separator. Nothing is lost and nothing is added.
pub proof fn law_join(parts: Seq<Seq<char>>, last: Seq<char>, sep: Seq<char>)
    ensures
        join_spec(Seq::empty(), sep).len() == 0,
        join_spec(seq![last], sep) == last,
        parts.len() > 0 ==> join_spec(parts.push(last), sep) == join_spec(parts, sep) + sep + last,
{
    assert(parts.push(last).drop_last() =~= parts);
}

/// A line ends at a line feed, and a carriage return in front of that belongs to the end, not to
/// the line. What follows are further lines. Without a line feed the whole text is one line.
pub proof fn law_line_ends(line: Seq<char>, rest: Seq<char>)
    requires
        forall|i: int| 0 <= i < line.len() ==> #[trigger] line[i] != '\n',
    ensures
        line.len() > 0 ==> lines_spec(line) == seq![line],
        line.len() == 0 || line.last() != '\r' ==> lines_spec(line.push('\n') + rest) == seq![line]
            + lines_spec(rest),
        lines_spec(line.push('\r').push('\n') + rest) == seq![line] + lines_spec(rest),
        lines_spec(Seq::empty()).len() == 0,
{
    law_find(line, '\n');
    let a = line.push('\n') + rest;
    law_find(a, '\n');
    assert(a[line.len() as int] == '\n');
    assert forall|i: int| 0 <= i < line.len() implies a[i] == #[trigger] line[i] by {}
    assert(find_spec(a, '\n') == line.len()) by {
        let k = find_spec(a, '\n');
        if k < line.len() {
            assert(a[k] == line[k]);
        }
    }
    assert(a.take(line.len() as int) =~= line);
    assert(a.skip(line.len() as int + 1) =~= rest);
    let more = line.push('\r');
    let b = more.push('\n') + rest;
    law_find(b, '\n');
    assert(b[more.len() as int] == '\n');
    assert(find_spec(b, '\n') == more.len()) by {
        let k = find_spec(b, '\n');
        if k < line.len() {
            assert(b[k] == line[k]);
        } else if k == line.len() {
            assert(b[k] == '\r');
        }
    }
    assert(b.take(more.len() as int) =~= more);
    assert(more.drop_last() =~= line);
    assert(b.skip(more.len() as int + 1) =~= rest);
}

/// White space is the space, the tab, the line feed and the other characters that Unicode counts
/// as such, and no letter, digit or sign.
pub proof fn law_white_space(c: char)
    ensures
        is_white_space(c) <==> c == ' ' || c == '\t' || c == '\n' || c == '\u{b}' || c == '\u{c}'
            || c == '\r' || c == '\u{85}' || c == '\u{a0}' || c == '\u{1680}' || '\u{2000}' <= c
            <= '\u{200a}' || c == '\u{2028}' || c == '\u{2029}' || c == '\u{202f}' || c == '\u{205f}'
            || c == '\u{3000}',
{
    vstd::utf8::char_u32_cast(c, c as u32);
}

} // verus!
