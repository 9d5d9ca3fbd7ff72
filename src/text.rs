//! Character-level primitives over `Seq<char>`: whitespace, trimming,
//! quote and bracket stripping, searching, splitting and line breaking.
use vstd::prelude::*;

verus! {

/// The Unicode `White_Space` property, the one `char::is_whitespace` uses.
pub open spec fn is_ws(c: char) -> bool {
    ('\t' <= c && c <= '\r') || c == ' ' || c == '\u{85}' || c == '\u{a0}' || c == '\u{1680}'
        || ('\u{2000}' <= c && c <= '\u{200a}') || c == '\u{2028}' || c == '\u{2029}'
        || c == '\u{202f}' || c == '\u{205f}' || c == '\u{3000}'
}

pub fn is_whitespace(c: char) -> (r: bool)
    ensures
        r == is_ws(c),
{
    ('\t' <= c && c <= '\r') || c == ' ' || c == '\u{85}' || c == '\u{a0}' || c == '\u{1680}'
        || ('\u{2000}' <= c && c <= '\u{200a}') || c == '\u{2028}' || c == '\u{2029}'
        || c == '\u{202f}' || c == '\u{205f}' || c == '\u{3000}'
}

/// First index at or after `i` whose character is not whitespace.
pub open spec fn skip_front(s: Seq<char>, i: int) -> int
    decreases s.len() - i,
{
    if 0 <= i < s.len() && is_ws(s[i]) {
        skip_front(s, i + 1)
    } else {
        i
    }
}

/// Going back from `j` towards `lo`, the end of the last character that is
/// not whitespace.
pub open spec fn skip_back(s: Seq<char>, lo: int, j: int) -> int
    decreases j - lo,
{
    if lo < j <= s.len() && is_ws(s[j - 1]) {
        skip_back(s, lo, j - 1)
    } else {
        j
    }
}

/// `s` without leading and trailing whitespace.
pub open spec fn trim(s: Seq<char>) -> Seq<char> {
    let a = skip_front(s, 0);
    s.subrange(a, skip_back(s, a, s.len() as int))
}

/// `s` without one pair of enclosing double quotes, when it starts and ends
/// with one; otherwise `s` as it is.
pub open spec fn unquote(s: Seq<char>) -> Seq<char> {
    if s.len() >= 2 && s[0] == '"' && s.last() == '"' {
        s.subrange(1, s.len() - 1)
    } else {
        s
    }
}

/// `s` without one leading `[`, where there is one, and then without one
/// trailing `]`, where there is one.
pub open spec fn unbracket(s: Seq<char>) -> Seq<char> {
    let a = if s.len() > 0 && s[0] == '[' {
        s.drop_first()
    } else {
        s
    };
    if a.len() > 0 && a.last() == ']' {
        a.drop_last()
    } else {
        a
    }
}

pub open spec fn is_blank(s: Seq<char>) -> bool {
    trim(s).len() == 0
}

/// The bounds of `trim(s)` within `s`.
pub fn trim_bounds(s: &Vec<char>) -> (r: (usize, usize))
    ensures
        r.0 <= r.1 <= s@.len(),
        s@.subrange(r.0 as int, r.1 as int) == trim(s@),
{
    let mut a: usize = 0;
    while a < s.len() && is_whitespace(s[a])
        invariant
            a <= s@.len(),
            skip_front(s@, a as int) == skip_front(s@, 0),
        decreases s@.len() - a,
    {
        a = a + 1;
    }
    let mut b: usize = s.len();
    while a < b && is_whitespace(s[b - 1])
        invariant
            a <= b <= s@.len(),
            skip_back(s@, a as int, b as int) == skip_back(s@, a as int, s@.len() as int),
        decreases b - a,
    {
        b = b - 1;
    }
    (a, b)
}

/// A copy of `s[a..b]`.
pub fn slice_chars(s: &Vec<char>, a: usize, b: usize) -> (r: Vec<char>)
    requires
        a <= b <= s@.len(),
    ensures
        r@ == s@.subrange(a as int, b as int),
{
    let mut r: Vec<char> = Vec::new();
    let mut i: usize = a;
    while i < b
        invariant
            a <= i <= b <= s@.len(),
            r@ == s@.subrange(a as int, i as int),
        decreases b - i,
    {
        r.push(s[i]);
        i = i + 1;
        assert(r@ =~= s@.subrange(a as int, i as int));
    }
    r
}

pub fn trimmed(s: &Vec<char>) -> (r: Vec<char>)
    ensures
        r@ == trim(s@),
{
    let (a, b) = trim_bounds(s);
    slice_chars(s, a, b)
}

pub fn unquoted(s: &Vec<char>) -> (r: Vec<char>)
    ensures
        r@ == unquote(s@),
{
    let n = s.len();
    if n >= 2 && s[0] == '"' && s[n - 1] == '"' {
        slice_chars(s, 1, n - 1)
    } else {
        slice_chars(s, 0, n)
    }
}

pub fn unbracketed(s: &Vec<char>) -> (r: Vec<char>)
    ensures
        r@ == unbracket(s@),
{
    let n = s.len();
    let a: usize = if n > 0 && s[0] == '[' {
        1
    } else {
        0
    };
    let b: usize = if a < n && s[n - 1] == ']' {
        n - 1
    } else {
        n
    };
    let r = slice_chars(s, a, b);
    assert(r@ =~= unbracket(s@));
    r
}

pub fn blank(s: &Vec<char>) -> (r: bool)
    ensures
        r == is_blank(s@),
{
    let (a, b) = trim_bounds(s);
    a == b
}

/// Index of the first `c` at or after `i`, or -1.
pub open spec fn find_from(s: Seq<char>, c: char, i: int) -> int
    decreases s.len() - i,
{
    if 0 <= i < s.len() {
        if s[i] == c {
            i
        } else {
            find_from(s, c, i + 1)
        }
    } else {
        -1
    }
}

/// Where the first `c` of `s` stands.
pub fn find_char(s: &Vec<char>, c: char) -> (r: Option<usize>)
    ensures
        match r {
            Some(i) => i < s@.len() && find_from(s@, c, 0) == i,
            None => find_from(s@, c, 0) == -1,
        },
{
    let mut i: usize = 0;
    while i < s.len()
        invariant
            i <= s@.len(),
            find_from(s@, c, i as int) == find_from(s@, c, 0),
        decreases s@.len() - i,
    {
        if s[i] == c {
            return Some(i);
        }
        i = i + 1;
    }
    None
}

/// The pieces of `s[start..]` between occurrences of `c`, scanning from `i`.
pub open spec fn split_from(s: Seq<char>, c: char, start: int, i: int) -> Seq<Seq<char>>
    decreases s.len() - i,
{
    if 0 <= i < s.len() {
        if s[i] == c {
            seq![s.subrange(start, i)].add(split_from(s, c, i + 1, i + 1))
        } else {
            split_from(s, c, start, i + 1)
        }
    } else {
        seq![s.subrange(start, s.len() as int)]
    }
}

/// The pieces of `s` between occurrences of `c`; never empty.
pub open spec fn split(s: Seq<char>, c: char) -> Seq<Seq<char>> {
    split_from(s, c, 0, 0)
}

pub open spec fn views(v: Seq<Vec<char>>) -> Seq<Seq<char>> {
    v.map_values(|x: Vec<char>| x@)
}

pub fn split_chars(s: &Vec<char>, c: char) -> (r: Vec<Vec<char>>)
    ensures
        views(r@) == split(s@, c),
{
    let mut r: Vec<Vec<char>> = Vec::new();
    let mut start: usize = 0;
    let mut i: usize = 0;
    while i < s.len()
        invariant
            start <= i <= s@.len(),
            views(r@) + split_from(s@, c, start as int, i as int) == split(s@, c),
        decreases s@.len() - i,
    {
        if s[i] == c {
            let piece = slice_chars(s, start, i);
            let ghost before = views(r@);
            r.push(piece);
            assert(views(r@) =~= before.push(piece@));
            assert(split_from(s@, c, start as int, i as int) == seq![piece@].add(
                split_from(s@, c, i + 1, i + 1),
            ));
            assert(before + split_from(s@, c, start as int, i as int) =~= views(r@) + split_from(
                s@,
                c,
                i + 1,
                i + 1,
            ));
            start = i + 1;
        }
        i = i + 1;
    }
    let piece = slice_chars(s, start, s.len());
    let ghost before = views(r@);
    r.push(piece);
    assert(views(r@) =~= before.push(piece@));
    assert(views(r@) =~= before + split_from(s@, c, start as int, i as int));
    r
}

/// `l` without one carriage return at its end.
pub open spec fn strip_cr(l: Seq<char>) -> Seq<char> {
    if l.len() > 0 && l.last() == '\r' {
        l.drop_last()
    } else {
        l
    }
}

/// The lines of `s[start..]`, scanning from `i`: a line ends at `\n` or
/// `\r\n`, and the last line needs no terminator.
pub open spec fn lines_from(s: Seq<char>, start: int, i: int) -> Seq<Seq<char>>
    decreases s.len() - i,
{
    if 0 <= i < s.len() {
        if s[i] == '\n' {
            seq![strip_cr(s.subrange(start, i))].add(lines_from(s, i + 1, i + 1))
        } else {
            lines_from(s, start, i + 1)
        }
    } else if start < s.len() {
        seq![s.subrange(start, s.len() as int)]
    } else {
        seq![]
    }
}

pub open spec fn lines(s: Seq<char>) -> Seq<Seq<char>> {
    lines_from(s, 0, 0)
}

pub fn split_lines(s: &Vec<char>) -> (r: Vec<Vec<char>>)
    ensures
        views(r@) == lines(s@),
{
    let mut r: Vec<Vec<char>> = Vec::new();
    let mut start: usize = 0;
    let mut i: usize = 0;
    while i < s.len()
        invariant
            start <= i <= s@.len(),
            views(r@) + lines_from(s@, start as int, i as int) == lines(s@),
        decreases s@.len() - i,
    {
        if s[i] == '\n' {
            let end: usize = if start < i && s[i - 1] == '\r' {
                i - 1
            } else {
                i
            };
            let piece = slice_chars(s, start, end);
            assert(piece@ =~= strip_cr(s@.subrange(start as int, i as int)));
            let ghost before = views(r@);
            r.push(piece);
            assert(views(r@) =~= before.push(piece@));
            assert(before + lines_from(s@, start as int, i as int) =~= views(r@) + lines_from(
                s@,
                i + 1,
                i + 1,
            ));
            start = i + 1;
        }
        i = i + 1;
    }
    if start < s.len() {
        let piece = slice_chars(s, start, s.len());
        let ghost before = views(r@);
        r.push(piece);
        assert(views(r@) =~= before.push(piece@));
        assert(views(r@) =~= before + lines_from(s@, start as int, i as int));
    } else {
        assert(views(r@) =~= views(r@) + lines_from(s@, start as int, i as int));
    }
    r
}

pub open spec fn has_prefix(s: Seq<char>, p: Seq<char>) -> bool {
    p.len() <= s.len() && s.subrange(0, p.len() as int) == p
}

pub fn starts_with(s: &Vec<char>, p: &Vec<char>) -> (r: bool)
    ensures
        r == has_prefix(s@, p@),
{
    if p.len() > s.len() {
        return false;
    }
    let mut i: usize = 0;
    while i < p.len()
        invariant
            i <= p@.len() <= s@.len(),
            forall|j: int| 0 <= j < i ==> s@[j] == p@[j],
        decreases p@.len() - i,
    {
        if s[i] != p[i] {
            assert(s@.subrange(0, p@.len() as int)[i as int] != p@[i as int]);
            return false;
        }
        i = i + 1;
    }
    assert(s@.subrange(0, p@.len() as int) =~= p@);
    true
}

pub fn same_chars(a: &Vec<char>, b: &Vec<char>) -> (r: bool)
    ensures
        r == (a@ == b@),
{
    if a.len() != b.len() {
        return false;
    }
    let mut i: usize = 0;
    while i < a.len()
        invariant
            i <= a@.len() == b@.len(),
            forall|j: int| 0 <= j < i ==> a@[j] == b@[j],
        decreases a@.len() - i,
    {
        if a[i] != b[i] {
            return false;
        }
        i = i + 1;
    }
    assert(a@ =~= b@);
    true
}

/// The characters of `s`, in order.
pub fn chars_of(s: &str) -> (r: Vec<char>)
    ensures
        r@ == s@,
{
    broadcast use vstd::string::group_string_axioms;

    let mut r: Vec<char> = Vec::new();
    for c in it: s.chars()
        invariant
            it.seq() == s@,
            r@ == s@.take(it.index() as int),
    {
        r.push(c);
        assert(r@ =~= s@.take(it.index() as int + 1));
    }
    assert(r@ =~= s@);
    r
}

/// Relies on `String`'s `FromIterator<&char>`: the string holds the
/// characters in the order given.
#[verifier::external_body]
pub(crate) fn to_string(v: &Vec<char>) -> (r: String)
    ensures
        r@ == v@,
{
    v.iter().collect()
}

/// The empty sequence is blank.
pub proof fn lemma_trim_empty()
    ensures
        is_blank(Seq::<char>::empty()),
{
    assert(trim(Seq::<char>::empty()) =~= Seq::<char>::empty());
}

/// `find_from` stops at the first `c`.
pub proof fn lemma_find_from_at(s: Seq<char>, c: char, i: int, k: int)
    requires
        0 <= i <= k < s.len(),
        s[k] == c,
        forall|j: int| i <= j < k ==> s[j] != c,
    ensures
        find_from(s, c, i) == k,
    decreases k - i,
{
    if i < k {
        lemma_find_from_at(s, c, i + 1, k);
    }
}

/// Trimming leaves alone a sequence whose ends are not whitespace.
pub proof fn lemma_trim_noop(s: Seq<char>)
    requires
        s.len() > 0 ==> !is_ws(s[0]) && !is_ws(s.last()),
    ensures
        trim(s) == s,
{
    assert(skip_front(s, 0) == 0);
    assert(skip_back(s, 0, s.len() as int) == s.len());
    assert(s.subrange(0, s.len() as int) =~= s);
}

/// Trimming drops one leading whitespace character before ends that are not
/// whitespace.
pub proof fn lemma_trim_lead(c: char, t: Seq<char>)
    requires
        is_ws(c),
        t.len() > 0,
        !is_ws(t[0]),
        !is_ws(t.last()),
    ensures
        trim(seq![c] + t) == t,
{
    let s = seq![c] + t;
    assert(s[1] == t[0]);
    assert(skip_front(s, 1) == 1);
    assert(skip_front(s, 0) == 1);
    assert(s.last() == t.last());
    assert(skip_back(s, 1, s.len() as int) == s.len());
    assert(s.subrange(1, s.len() as int) =~= t);
}

/// Unquoting a quoted value gives the value back.
pub proof fn lemma_unquote_quoted(v: Seq<char>)
    ensures
        unquote(seq!['"'] + v + seq!['"']) == v,
{
    let s = seq!['"'] + v + seq!['"'];
    assert(s[0] == '"');
    assert(s.last() == '"');
    assert(s.subrange(1, s.len() - 1) =~= v);
}

/// Unbracketing a bracketed value gives the value back.
pub proof fn lemma_unbracket_bracketed(v: Seq<char>)
    ensures
        unbracket(seq!['['] + v + seq![']']) == v,
{
    let s = seq!['['] + v + seq![']'];
    assert(s[0] == '[');
    assert(s.drop_first() =~= v + seq![']']);
    assert((v + seq![']']).last() == ']');
    assert((v + seq![']']).drop_last() =~= v);
}

pub proof fn lemma_split_shift(s: Seq<char>, c: char, k: int, start: int, i: int)
    requires
        0 <= k <= start <= i <= s.len(),
    ensures
        split_from(s, c, start, i) == split_from(s.subrange(k, s.len() as int), c, start - k, i
            - k),
    decreases s.len() - i,
{
    let t = s.subrange(k, s.len() as int);
    if i < s.len() {
        assert(t[i - k] == s[i]);
        if s[i] == c {
            lemma_split_shift(s, c, k, i + 1, i + 1);
            assert(t.subrange(start - k, i - k) =~= s.subrange(start, i));
        } else {
            lemma_split_shift(s, c, k, start, i + 1);
        }
    } else {
        assert(t.subrange(start - k, t.len() as int) =~= s.subrange(start, s.len() as int));
    }
}

proof fn lemma_split_first(s: Seq<char>, c: char, n: int, j: int)
    requires
        0 <= j <= n < s.len(),
        s[n] == c,
        forall|m: int| 0 <= m < n ==> s[m] != c,
    ensures
        split_from(s, c, 0, j) == seq![s.subrange(0, n)].add(split_from(s, c, n + 1, n + 1)),
    decreases n - j,
{
    if j < n {
        lemma_split_first(s, c, n, j + 1);
    }
}

proof fn lemma_split_none(s: Seq<char>, c: char, j: int)
    requires
        0 <= j <= s.len(),
        forall|m: int| 0 <= m < s.len() ==> s[m] != c,
    ensures
        split_from(s, c, 0, j) == seq![s],
    decreases s.len() - j,
{
    if j < s.len() {
        lemma_split_none(s, c, j + 1);
    } else {
        assert(s.subrange(0, s.len() as int) =~= s);
    }
}

/// The pieces `ps` joined by `c`.
pub open spec fn join_by(ps: Seq<Seq<char>>, c: char) -> Seq<char>
    decreases ps.len(),
{
    if ps.len() == 0 {
        seq![]
    } else if ps.len() == 1 {
        ps[0]
    } else {
        ps[0] + seq![c] + join_by(ps.drop_first(), c)
    }
}

/// Splitting at `c` undoes joining by `c`, when no piece holds `c`.
pub proof fn lemma_split_join(ps: Seq<Seq<char>>, c: char)
    requires
        ps.len() > 0,
        forall|i: int, m: int| 0 <= i < ps.len() && 0 <= m < ps[i].len() ==> ps[i][m] != c,
    ensures
        split(join_by(ps, c), c) == ps,
    decreases ps.len(),
{
    let s = join_by(ps, c);
    if ps.len() == 1 {
        lemma_split_none(s, c, 0);
        assert(seq![s] =~= ps);
    } else {
        let rest = ps.drop_first();
        lemma_split_join(rest, c);
        let n = ps[0].len() as int;
        assert(s[n] == c);
        assert forall|m: int| 0 <= m < n implies s[m] != c by {
            assert(s[m] == ps[0][m]);
        }
        lemma_split_first(s, c, n, 0);
        lemma_split_shift(s, c, n + 1, n + 1, n + 1);
        assert(s.subrange(n + 1, s.len() as int) =~= join_by(rest, c));
        assert(s.subrange(0, n) =~= ps[0]);
        assert(seq![ps[0]].add(rest) =~= ps);
    }
}

/// A join by `c` holds no `d` that no piece holds, unless `d` is `c`.
pub proof fn lemma_join_excludes(ps: Seq<Seq<char>>, c: char, d: char)
    requires
        c != d,
        forall|i: int, m: int| 0 <= i < ps.len() && 0 <= m < ps[i].len() ==> ps[i][m] != d,
    ensures
        forall|m: int| 0 <= m < join_by(ps, c).len() ==> join_by(ps, c)[m] != d,
    decreases ps.len(),
{
    if ps.len() > 1 {
        let rest = ps.drop_first();
        assert forall|i: int, m: int| 0 <= i < rest.len() && 0 <= m < rest[i].len() implies rest[i][m]
            != d by {
            assert(rest[i] == ps[i + 1]);
        }
        lemma_join_excludes(rest, c, d);
        let s = join_by(ps, c);
        let n = ps[0].len() as int;
        assert forall|m: int| 0 <= m < s.len() implies s[m] != d by {
            if m < n {
                assert(s[m] == ps[0][m]);
            } else if m > n {
                assert(s[m] == join_by(rest, c)[m - n - 1]);
            }
        }
    } else if ps.len() == 1 {
        assert forall|m: int| 0 <= m < join_by(ps, c).len() implies join_by(ps, c)[m] != d by {
            assert(join_by(ps, c)[m] == ps[0][m]);
        }
    }
}

pub proof fn lemma_lines_shift(s: Seq<char>, k: int, start: int, i: int)
    requires
        0 <= k <= start <= i <= s.len(),
    ensures
        lines_from(s, start, i) == lines_from(s.subrange(k, s.len() as int), start - k, i - k),
    decreases s.len() - i,
{
    let t = s.subrange(k, s.len() as int);
    if i < s.len() {
        assert(t[i - k] == s[i]);
        if s[i] == '\n' {
            lemma_lines_shift(s, k, i + 1, i + 1);
            assert(t.subrange(start - k, i - k) =~= s.subrange(start, i));
        } else {
            lemma_lines_shift(s, k, start, i + 1);
        }
    } else {
        assert(t.subrange(start - k, t.len() as int) =~= s.subrange(start, s.len() as int));
    }
}

proof fn lemma_lines_first(s: Seq<char>, n: int, j: int)
    requires
        0 <= j <= n < s.len(),
        s[n] == '\n',
        forall|m: int| 0 <= m < n ==> s[m] != '\n',
    ensures
        lines_from(s, 0, j) == seq![strip_cr(s.subrange(0, n))].add(lines_from(s, n + 1, n + 1)),
    decreases n - j,
{
    if j < n {
        lemma_lines_first(s, n, j + 1);
    }
}

/// The lines `ls`, each followed by a newline.
pub open spec fn join_lines(ls: Seq<Seq<char>>) -> Seq<char>
    decreases ls.len(),
{
    if ls.len() == 0 {
        seq![]
    } else {
        ls[0].push('\n') + join_lines(ls.drop_first())
    }
}

pub proof fn lemma_join_lines_push(ls: Seq<Seq<char>>, l: Seq<char>)
    ensures
        join_lines(ls.push(l)) == join_lines(ls) + l.push('\n'),
    decreases ls.len(),
{
    if ls.len() == 0 {
        assert(ls.push(l).drop_first() =~= ls);
        assert(join_lines(ls.push(l)) =~= join_lines(ls) + l.push('\n'));
    } else {
        assert(ls.push(l).drop_first() =~= ls.drop_first().push(l));
        lemma_join_lines_push(ls.drop_first(), l);
        assert(join_lines(ls.push(l)) =~= join_lines(ls) + l.push('\n'));
    }
}

/// A line that splitting gives back as it is: no newline in it, and no
/// carriage return at its end.
pub open spec fn is_plain_line(l: Seq<char>) -> bool {
    (forall|m: int| 0 <= m < l.len() ==> l[m] != '\n') && (l.len() > 0 ==> l.last() != '\r')
}

/// Breaking into lines undoes joining plain lines.
pub proof fn lemma_lines_join(ls: Seq<Seq<char>>)
    requires
        forall|i: int| 0 <= i < ls.len() ==> is_plain_line(#[trigger] ls[i]),
    ensures
        lines(join_lines(ls)) == ls,
    decreases ls.len(),
{
    let s = join_lines(ls);
    if ls.len() == 0 {
        assert(lines(s) =~= ls);
    } else {
        let rest = ls.drop_first();
        assert forall|i: int| 0 <= i < rest.len() implies is_plain_line(#[trigger] rest[i]) by {
            assert(rest[i] == ls[i + 1]);
        }
        lemma_lines_join(rest);
        let n = ls[0].len() as int;
        assert(is_plain_line(ls[0]));
        assert(s[n] == '\n');
        assert forall|m: int| 0 <= m < n implies s[m] != '\n' by {
            assert(s[m] == ls[0][m]);
        }
        lemma_lines_first(s, n, 0);
        lemma_lines_shift(s, n + 1, n + 1, n + 1);
        assert(s.subrange(n + 1, s.len() as int) =~= join_lines(rest));
        assert(s.subrange(0, n) =~= ls[0]);
        assert(strip_cr(ls[0]) == ls[0]);
        assert(seq![ls[0]].add(rest) =~= ls);
    }
}

pub proof fn lemma_skip_front_bounds(s: Seq<char>, i: int)
    requires
        0 <= i <= s.len(),
    ensures
        i <= skip_front(s, i) <= s.len(),
    decreases s.len() - i,
{
    if i < s.len() && is_ws(s[i]) {
        lemma_skip_front_bounds(s, i + 1);
    }
}

pub proof fn lemma_skip_back_bounds(s: Seq<char>, lo: int, j: int)
    requires
        0 <= lo <= j <= s.len(),
    ensures
        lo <= skip_back(s, lo, j) <= j,
    decreases j - lo,
{
    if lo < j && is_ws(s[j - 1]) {
        lemma_skip_back_bounds(s, lo, j - 1);
    }
}

/// `trim(s)` is a stretch of `s`.
pub proof fn lemma_trim_within(s: Seq<char>)
    ensures
        0 <= skip_front(s, 0) <= skip_back(s, skip_front(s, 0), s.len() as int) <= s.len(),
{
    lemma_skip_front_bounds(s, 0);
    lemma_skip_back_bounds(s, skip_front(s, 0), s.len() as int);
}

pub proof fn lemma_find_from_bounds(s: Seq<char>, c: char, i: int)
    requires
        0 <= i,
    ensures
        find_from(s, c, i) == -1 || i <= find_from(s, c, i) < s.len(),
    decreases s.len() - i,
{
    if i < s.len() && s[i] != c {
        lemma_find_from_bounds(s, c, i + 1);
    }
}

proof fn lemma_lines_from_no_newline(s: Seq<char>, start: int, i: int)
    requires
        0 <= start <= i <= s.len(),
        forall|j: int| start <= j < i ==> s[j] != '\n',
    ensures
        forall|k: int| 0 <= k < lines_from(s, start, i).len() ==> one_line(
            #[trigger] lines_from(s, start, i)[k],
        ),
    decreases s.len() - i,
{
    let r = lines_from(s, start, i);
    if i < s.len() {
        if s[i] == '\n' {
            lemma_lines_from_no_newline(s, i + 1, i + 1);
            let first = strip_cr(s.subrange(start, i));
            assert(one_line(first));
            assert(r[0] == first);
            assert forall|k: int| 0 <= k < r.len() implies one_line(#[trigger] r[k]) by {
                if k == 0 {
                    assert(r[k] == first);
                } else {
                    assert(r[k] == lines_from(s, i + 1, i + 1)[k - 1]);
                }
            }
        } else {
            lemma_lines_from_no_newline(s, start, i + 1);
            assert(r == lines_from(s, start, i + 1));
        }
    } else if start < s.len() {
        assert(one_line(s.subrange(start, s.len() as int)));
        assert(r[0] == s.subrange(start, s.len() as int));
    }
}

pub open spec fn one_line(l: Seq<char>) -> bool {
    forall|m: int| 0 <= m < l.len() ==> l[m] != '\n'
}

/// No line holds a newline.
pub proof fn lemma_lines_no_newline(s: Seq<char>)
    ensures
        forall|k: int| 0 <= k < lines(s).len() ==> one_line(#[trigger] lines(s)[k]),
{
    lemma_lines_from_no_newline(s, 0, 0);
}

} // verus!
