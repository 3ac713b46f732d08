//! Character sequences: the vocabulary in which every other module states what it
//! reads and writes, and the executable functions that compute it.
//!
//! A string is modelled by its view, a `Seq<char>`.  The executable functions work on
//! `&[char]`, so that positions in the model and positions in the code are the same.
use vstd::prelude::*;
use vstd::slice::slice_subrange;

verus! {

/// `String::push`: the character goes to the end of the string.
pub assume_specification[ String::push ](s: &mut String, c: char)
    ensures
        final(s)@ == old(s)@.push(c),
;

// ── characters ─────────────────────────────────────────────

/// The Unicode property `White_Space`.
pub open spec fn is_white_space(c: char) -> bool {
    ||| '\t' <= c <= '\r'
    ||| c == ' '
    ||| c == '\u{85}'
    ||| c == '\u{a0}'
    ||| c == '\u{1680}'
    ||| '\u{2000}' <= c <= '\u{200a}'
    ||| c == '\u{2028}'
    ||| c == '\u{2029}'
    ||| c == '\u{202f}'
    ||| c == '\u{205f}'
    ||| c == '\u{3000}'
}

/// Tests a character for [`is_white_space`].
pub fn white_space(c: char) -> (r: bool)
    ensures
        r == is_white_space(c),
{
    ('\t' <= c && c <= '\r') || c == ' ' || c == '\u{85}' || c == '\u{a0}' || c == '\u{1680}' || (
    '\u{2000}' <= c && c <= '\u{200a}') || c == '\u{2028}' || c == '\u{2029}' || c == '\u{202f}'
        || c == '\u{205f}' || c == '\u{3000}'
}

/// The ASCII decimal digits.
pub open spec fn is_digit(c: char) -> bool {
    '0' <= c <= '9'
}

// ── conversions ────────────────────────────────────────────

/// The characters of a string, in order.
pub fn chars_of(s: &str) -> (r: Vec<char>)
    ensures
        r@ == s@,
{
    let mut r: Vec<char> = Vec::new();
    for c in it: s.chars()
        invariant
            r@ == it.seq().take(it.index() as int),
            it.seq() == s@,
    {
        r.push(c);
    }
    r
}

/// The string that holds the given characters.
pub fn string_of(v: &[char]) -> (r: String)
    ensures
        r@ == v@,
{
    let mut r = String::new();
    append_chars(&mut r, v);
    r
}

/// Appends characters to a string.
pub fn append_chars(out: &mut String, v: &[char])
    ensures
        final(out)@ == old(out)@ + v@,
{
    for i in 0..v.len()
        invariant
            out@ == old(out)@ + v@.take(i as int),
    {
        out.push(v[i]);
    }
}

/// The character sequences that a list of slices shows.
pub open spec fn texts(v: Seq<&[char]>) -> Seq<Seq<char>> {
    v.map_values(|x: &[char]| x@)
}

/// The character sequences that a list of strings shows.
pub open spec fn string_views(v: Seq<String>) -> Seq<Seq<char>> {
    v.map_values(|x: String| x@)
}

/// What an optional string shows.
pub open spec fn opt_view(s: Option<String>) -> Option<Seq<char>> {
    match s {
        Some(x) => Some(x@),
        None => None,
    }
}

/// What an optional string slice shows.
pub open spec fn str_opt_view(s: Option<&str>) -> Option<Seq<char>> {
    match s {
        Some(x) => Some(x@),
        None => None,
    }
}

/// Copies an optional string.
pub fn opt_clone(s: &Option<String>) -> (r: Option<String>)
    ensures
        opt_view(r) == opt_view(*s),
{
    match s {
        Some(x) => Some(x.clone()),
        None => None,
    }
}

/// Concatenation is associative.
pub broadcast proof fn concat_assoc<A>(a: Seq<A>, b: Seq<A>, c: Seq<A>)
    ensures
        #[trigger] (a + (b + c)) == a + b + c,
{
    assert(a + (b + c) =~= a + b + c);
}

// ── comparing ──────────────────────────────────────────────

/// `s` starts with `pat`.
pub open spec fn begins(s: Seq<char>, pat: Seq<char>) -> bool {
    &&& pat.len() <= s.len()
    &&& s.take(pat.len() as int) == pat
}

/// `pat` stands in `s` at position `i`.
pub open spec fn occurs_at(s: Seq<char>, pat: Seq<char>, i: int) -> bool {
    &&& 0 <= i
    &&& i + pat.len() <= s.len()
    &&& s.subrange(i, i + pat.len()) == pat
}

/// `pat` stands somewhere in `s`.
pub open spec fn occurs(s: Seq<char>, pat: Seq<char>) -> bool {
    exists|i: int| occurs_at(s, pat, i)
}

/// Compares two character sequences.
pub fn same(a: &[char], b: &[char]) -> (r: bool)
    ensures
        r == (a@ == b@),
{
    if a.len() != b.len() {
        return false;
    }
    for i in 0..a.len()
        invariant
            a@.len() == b@.len(),
            forall|j: int| 0 <= j < i ==> a@[j] == b@[j],
    {
        if a[i] != b[i] {
            assert(a@[i as int] != b@[i as int]);
            return false;
        }
    }
    assert(a@ =~= b@);
    true
}

/// Compares two strings.
pub fn same_str(a: &str, b: &str) -> (r: bool)
    ensures
        r == (a@ == b@),
{
    let x = chars_of(a);
    let y = chars_of(b);
    same(&x, &y)
}

/// Tests whether `s` starts with `pat`.
pub fn starts_with(s: &[char], pat: &str) -> (r: bool)
    ensures
        r == begins(s@, pat@),
{
    let p = chars_of(pat);
    if p.len() > s.len() {
        return false;
    }
    same(slice_subrange(s, 0, p.len()), &p)
}

/// The first position at which `pat` stands in `s`.
pub open spec fn first_occurrence(s: Seq<char>, pat: Seq<char>) -> Option<int>
    decreases s.len(),
{
    if begins(s, pat) {
        Some(0)
    } else if s.len() == 0 {
        None
    } else {
        match first_occurrence(s.drop_first(), pat) {
            Some(k) => Some(k + 1),
            None => None,
        }
    }
}

/// [`first_occurrence`] is an occurrence, the first one, and misses none.
pub proof fn lemma_first_occurrence(s: Seq<char>, pat: Seq<char>)
    ensures
        match first_occurrence(s, pat) {
            Some(k) => occurs_at(s, pat, k) && forall|i: int| 0 <= i < k ==> !occurs_at(s, pat, i),
            None => !occurs(s, pat),
        },
    decreases s.len(),
{
    if begins(s, pat) {
        assert(s.subrange(0, pat.len() as int) =~= s.take(pat.len() as int));
        assert(occurs_at(s, pat, 0));
    } else {
        if occurs_at(s, pat, 0) {
            assert(s.subrange(0, pat.len() as int) =~= s.take(pat.len() as int));
        }
        if s.len() > 0 {
            let t = s.drop_first();
            lemma_first_occurrence(t, pat);
            assert forall|i: int| i > 0 implies occurs_at(s, pat, i) == occurs_at(t, pat, i - 1) by {
                if i + pat.len() <= s.len() {
                    assert(s.subrange(i, i + pat.len()) =~= t.subrange(i - 1, i - 1 + pat.len()));
                }
            }
            match first_occurrence(t, pat) {
                Some(k) => {
                    assert(occurs_at(s, pat, k + 1));
                },
                None => {
                    assert forall|i: int| !occurs_at(s, pat, i) by {
                        if i > 0 {
                            assert(!occurs_at(t, pat, i - 1));
                        }
                    }
                },
            }
        } else {
            assert forall|i: int| !occurs_at(s, pat, i) by {
                if occurs_at(s, pat, i) {
                    assert(i == 0);
                }
            }
        }
    }
}

/// Finds the first position at which `pat` stands in `s`.
pub fn find(s: &[char], pat: &str) -> (r: Option<usize>)
    ensures
        match r {
            Some(k) => first_occurrence(s@, pat@) == Some(k as int) && k + pat@.len() <= s@.len(),
            None => first_occurrence(s@, pat@) is None,
        },
{
    let p = chars_of(pat);
    proof {
        lemma_first_occurrence(s@, pat@);
    }
    if p.len() > s.len() {
        return None;
    }
    let last: usize = s.len() - p.len();
    let mut i: usize = 0;
    while i <= last
        invariant
            p@ == pat@,
            last == s@.len() - p@.len(),
            i <= last + 1,
            s@.len() <= usize::MAX,
            forall|j: int| 0 <= j < i ==> !occurs_at(s@, pat@, j),
        decreases last + 1 - i,
    {
        if same(slice_subrange(s, i, i + p.len()), &p) {
            assert(occurs_at(s@, pat@, i as int));
            proof {
                lemma_first_occurrence(s@, pat@);
            }
            return Some(i);
        }
        if i == last {
            proof {
                lemma_first_occurrence(s@, pat@);
                assert forall|j: int| !occurs_at(s@, pat@, j) by {
                    if 0 <= j <= last {
                    }
                }
            }
            return None;
        }
        i = i + 1;
    }
    None
}

/// Tests whether `pat` stands somewhere in `s`.
pub fn contains(s: &[char], pat: &str) -> (r: bool)
    ensures
        r == occurs(s@, pat@),
{
    proof {
        lemma_first_occurrence(s@, pat@);
    }
    find(s, pat).is_some()
}

// ── splitting ──────────────────────────────────────────────

/// The position of the first `c` in `s`, or the length of `s` where there is none.
pub open spec fn first_index(s: Seq<char>, c: char) -> int
    decreases s.len(),
{
    if s.len() == 0 || s[0] == c {
        0
    } else {
        1 + first_index(s.drop_first(), c)
    }
}

/// [`first_index`] points at `c` or past the end, and no `c` stands before it.
pub proof fn lemma_first_index(s: Seq<char>, c: char)
    ensures
        0 <= first_index(s, c) <= s.len(),
        first_index(s, c) < s.len() ==> s[first_index(s, c)] == c,
        forall|j: int| 0 <= j < first_index(s, c) ==> s[j] != c,
    decreases s.len(),
{
    if s.len() == 0 || s[0] == c {
    } else {
        let t = s.drop_first();
        lemma_first_index(t, c);
        assert forall|j: int| 0 <= j < first_index(s, c) implies s[j] != c by {
            if j > 0 {
                assert(t[j - 1] == s[j]);
            }
        }
    }
}

/// A position with the property of the first `c` is the first `c`.
pub proof fn lemma_first_index_is(s: Seq<char>, c: char, k: int)
    requires
        0 <= k <= s.len(),
        forall|j: int| 0 <= j < k ==> s[j] != c,
        k < s.len() ==> s[k] == c,
    ensures
        first_index(s, c) == k,
{
    lemma_first_index(s, c);
    let f = first_index(s, c);
    if f < k {
        assert(s[f] != c);
    } else if k < f {
        assert(s[k] != c);
    }
}

/// The first `c` at or after `from`, or the end.
pub fn find_char(s: &[char], from: usize, c: char) -> (r: usize)
    requires
        from <= s@.len(),
    ensures
        from <= r <= s@.len(),
        r == from + first_index(s@.skip(from as int), c),
{
    let mut i: usize = from;
    while i < s.len() && s[i] != c
        invariant
            from <= i <= s@.len(),
            forall|j: int| from <= j < i ==> s@[j] != c,
        decreases s@.len() - i,
    {
        i = i + 1;
    }
    proof {
        let t = s@.skip(from as int);
        assert forall|j: int| 0 <= j < i - from implies t[j] != c by {
            assert(t[j] == s@[from + j]);
        }
        lemma_first_index_is(t, c, i - from);
    }
    i
}

/// The pieces of `s` between the occurrences of `c`.
pub open spec fn split(s: Seq<char>, c: char) -> Seq<Seq<char>>
    decreases s.len(),
{
    let k = first_index(s, c);
    if 0 <= k < s.len() {
        seq![s.take(k)] + split(s.skip(k + 1), c)
    } else {
        seq![s]
    }
}

/// `s` without a carriage return at its end.
pub open spec fn strip_cr(s: Seq<char>) -> Seq<char> {
    if s.len() > 0 && s.last() == '\r' {
        s.drop_last()
    } else {
        s
    }
}

/// The lines of a text.  A line ends at a line feed, or at a carriage return and a line
/// feed; the last line needs no ending.
pub open spec fn lines(s: Seq<char>) -> Seq<Seq<char>>
    decreases s.len(),
{
    if s.len() == 0 {
        Seq::empty()
    } else {
        let k = first_index(s, '\n');
        if 0 <= k < s.len() {
            seq![strip_cr(s.take(k))] + lines(s.skip(k + 1))
        } else {
            seq![s]
        }
    }
}

/// The text made of the given lines, each ended by a line feed.
pub open spec fn unlines(ls: Seq<Seq<char>>) -> Seq<char>
    decreases ls.len(),
{
    if ls.len() == 0 {
        Seq::empty()
    } else {
        unlines(ls.drop_last()) + ls.last().push('\n')
    }
}

/// The pieces one after the other, with `sep` between two of them.
pub open spec fn join(parts: Seq<Seq<char>>, sep: Seq<char>) -> Seq<char>
    decreases parts.len(),
{
    if parts.len() == 0 {
        Seq::empty()
    } else if parts.len() == 1 {
        parts[0]
    } else {
        join(parts.drop_last(), sep) + sep + parts.last()
    }
}

/// Splits at every `c`.
pub fn split_at_char<'a>(s: &'a [char], c: char) -> (r: Vec<&'a [char]>)
    ensures
        texts(r@) == split(s@, c),
{
    let mut out: Vec<&'a [char]> = Vec::new();
    let mut pos: usize = 0;
    assert(s@.skip(0) =~= s@);
    assert(texts(out@) + split(s@, c) =~= split(s@, c));
    loop
        invariant
            pos <= s@.len(),
            split(s@, c) == texts(out@) + split(s@.skip(pos as int), c),
        decreases s@.len() - pos,
    {
        let k = find_char(s, pos, c);
        let ghost rest = s@.skip(pos as int);
        let ghost before = out@;
        if k < s.len() {
            out.push(slice_subrange(s, pos, k));
            proof {
                assert(s@.subrange(pos as int, k as int) =~= rest.take(k - pos));
                assert(rest.skip(k - pos + 1) =~= s@.skip(k + 1));
                assert(texts(out@) =~= texts(before).push(rest.take(k - pos)));
                assert(texts(before) + (seq![rest.take(k - pos)] + split(s@.skip(k + 1), c))
                    =~= texts(out@) + split(s@.skip(k + 1), c));
            }
            pos = k + 1;
        } else {
            out.push(slice_subrange(s, pos, s.len()));
            proof {
                assert(s@.subrange(pos as int, s@.len() as int) =~= rest);
                assert(texts(out@) =~= texts(before).push(rest));
                assert(texts(before) + seq![rest] =~= texts(out@));
            }
            return out;
        }
    }
}

/// Splits a text into its lines.
pub fn split_lines<'a>(s: &'a [char]) -> (r: Vec<&'a [char]>)
    ensures
        texts(r@) == lines(s@),
{
    let mut out: Vec<&'a [char]> = Vec::new();
    let mut pos: usize = 0;
    assert(s@.skip(0) =~= s@);
    assert(texts(out@) + lines(s@) =~= lines(s@));
    while pos < s.len()
        invariant
            pos <= s@.len(),
            lines(s@) == texts(out@) + lines(s@.skip(pos as int)),
        decreases s@.len() - pos,
    {
        let k = find_char(s, pos, '\n');
        let ghost rest = s@.skip(pos as int);
        let ghost before = out@;
        if k < s.len() {
            let end: usize = if k > pos && s[k - 1] == '\r' {
                k - 1
            } else {
                k
            };
            out.push(slice_subrange(s, pos, end));
            proof {
                let line = rest.take(k - pos);
                assert(s@.subrange(pos as int, end as int) =~= strip_cr(line));
                assert(rest.skip(k - pos + 1) =~= s@.skip(k + 1));
                assert(texts(out@) =~= texts(before).push(strip_cr(line)));
                assert(texts(before) + (seq![strip_cr(line)] + lines(s@.skip(k + 1))) =~= texts(out@)
                    + lines(s@.skip(k + 1)));
            }
            pos = k + 1;
        } else {
            out.push(slice_subrange(s, pos, s.len()));
            proof {
                assert(s@.subrange(pos as int, s@.len() as int) =~= rest);
                assert(texts(out@) =~= texts(before).push(rest));
                assert(texts(before) + seq![rest] =~= texts(out@));
                assert(s@.skip(s@.len() as int) =~= Seq::<char>::empty());
                assert(texts(out@) + Seq::<Seq<char>>::empty() =~= texts(out@));
            }
            pos = s.len();
        }
    }
    assert(s@.skip(s@.len() as int) =~= Seq::<char>::empty());
    assert(texts(out@) + Seq::<Seq<char>>::empty() =~= texts(out@));
    out
}

/// No line feed stands in the sequence.
pub open spec fn one_line(s: Seq<char>) -> bool {
    forall|i: int| 0 <= i < s.len() ==> #[trigger] s[i] != '\n'
}

/// No line of a text holds a line feed.
pub proof fn lemma_lines_are_single(s: Seq<char>)
    ensures
        forall|i: int| 0 <= i < lines(s).len() ==> one_line(#[trigger] lines(s)[i]),
    decreases s.len(),
{
    if s.len() > 0 {
        let k = first_index(s, '\n');
        lemma_first_index(s, '\n');
        if k < s.len() {
            let t = s.skip(k + 1);
            lemma_lines_are_single(t);
            assert forall|i: int| 0 <= i < lines(s).len() implies one_line(
                #[trigger] lines(s)[i],
            ) by {
                if i > 0 {
                    assert(lines(s)[i] == lines(t)[i - 1]);
                }
            }
        }
    }
}

/// Where the first text is empty or ends in a line feed, the lines of two texts one after
/// the other are the lines of the first and the lines of the second.
pub proof fn lemma_lines_concat(a: Seq<char>, b: Seq<char>)
    requires
        a.len() > 0 ==> a.last() == '\n',
    ensures
        lines(a + b) == lines(a) + lines(b),
    decreases a.len(),
{
    if a.len() == 0 {
        assert(a + b =~= b);
        assert(lines(a) + lines(b) =~= lines(b));
    } else {
        let k = first_index(a, '\n');
        lemma_first_index(a, '\n');
        if k == a.len() {
            assert(a[a.len() - 1] != '\n');
        }
        lemma_first_index_is(a + b, '\n', k);
        let t = a.skip(k + 1);
        assert((a + b).take(k) =~= a.take(k));
        assert((a + b).skip(k + 1) =~= t + b);
        lemma_lines_concat(t, b);
        assert(seq![strip_cr(a.take(k))] + (lines(t) + lines(b)) =~= seq![strip_cr(a.take(k))]
            + lines(t) + lines(b));
    }
}

/// A text that is made of lines is empty or ends in a line feed.
pub proof fn lemma_unlines_ends(ls: Seq<Seq<char>>)
    ensures
        unlines(ls).len() > 0 ==> unlines(ls).last() == '\n',
{
}

/// The lines of a text that is made of lines are those lines, but for carriage returns at
/// their ends.
pub proof fn lemma_lines_unlines(ls: Seq<Seq<char>>)
    requires
        forall|i: int| 0 <= i < ls.len() ==> one_line(#[trigger] ls[i]),
    ensures
        lines(unlines(ls)) == ls.map_values(|l: Seq<char>| strip_cr(l)),
    decreases ls.len(),
{
    if ls.len() == 0 {
        assert(ls.map_values(|l: Seq<char>| strip_cr(l)) =~= Seq::empty());
    } else {
        let front = ls.drop_last();
        let l = ls.last();
        let row = l.push('\n');
        assert forall|i: int| 0 <= i < front.len() implies one_line(#[trigger] front[i]) by {
            assert(front[i] == ls[i]);
        }
        lemma_lines_unlines(front);
        lemma_unlines_ends(front);
        lemma_lines_concat(unlines(front), row);
        assert(one_line(ls[ls.len() - 1]));
        lemma_first_index_is(row, '\n', l.len() as int);
        assert(row.take(l.len() as int) =~= l);
        assert(row.skip(l.len() as int + 1) =~= Seq::empty());
        assert(lines(row.skip(l.len() as int + 1)) == Seq::<Seq<char>>::empty());
        assert(lines(row) =~= seq![strip_cr(l)]);
        assert(ls.map_values(|l: Seq<char>| strip_cr(l)) =~= front.map_values(
            |l: Seq<char>| strip_cr(l),
        ) + seq![strip_cr(l)]);
    }
}

// ── trimming ───────────────────────────────────────────────

/// `s` without the white space at its start.
pub open spec fn trim_start(s: Seq<char>) -> Seq<char>
    decreases s.len(),
{
    if s.len() > 0 && is_white_space(s[0]) {
        trim_start(s.drop_first())
    } else {
        s
    }
}

/// `s` without the white space at its end.
pub open spec fn trim_end(s: Seq<char>) -> Seq<char>
    decreases s.len(),
{
    if s.len() > 0 && is_white_space(s.last()) {
        trim_end(s.drop_last())
    } else {
        s
    }
}

/// `s` without the white space at its ends.
pub open spec fn trim(s: Seq<char>) -> Seq<char> {
    trim_end(trim_start(s))
}

/// Removes the white space at the start.
pub fn trimmed_start<'a>(s: &'a [char]) -> (r: &'a [char])
    ensures
        r@ == trim_start(s@),
{
    let mut i: usize = 0;
    assert(s@.skip(0) =~= s@);
    while i < s.len() && white_space(s[i])
        invariant
            i <= s@.len(),
            trim_start(s@) == trim_start(s@.skip(i as int)),
        decreases s@.len() - i,
    {
        assert(s@.skip(i as int).drop_first() =~= s@.skip(i + 1));
        i = i + 1;
    }
    assert(s@.subrange(i as int, s@.len() as int) =~= s@.skip(i as int));
    slice_subrange(s, i, s.len())
}

/// Removes the white space at the end.
pub fn trimmed_end<'a>(s: &'a [char]) -> (r: &'a [char])
    ensures
        r@ == trim_end(s@),
{
    let mut i: usize = s.len();
    assert(s@.take(s@.len() as int) =~= s@);
    while i > 0 && white_space(s[i - 1])
        invariant
            i <= s@.len(),
            trim_end(s@) == trim_end(s@.take(i as int)),
        decreases i,
    {
        assert(s@.take(i as int).drop_last() =~= s@.take(i - 1));
        i = i - 1;
    }
    assert(s@.subrange(0, i as int) =~= s@.take(i as int));
    slice_subrange(s, 0, i)
}

/// Removes the white space at both ends.
pub fn trimmed<'a>(s: &'a [char]) -> (r: &'a [char])
    ensures
        r@ == trim(s@),
{
    trimmed_end(trimmed_start(s))
}

// ── numbers ────────────────────────────────────────────────

/// The digit of value `d`, for `d` below sixteen.
pub open spec fn digit(d: int) -> char {
    if d < 10 {
        (48 + d) as char
    } else {
        (87 + d) as char
    }
}

/// The numeral of `n` in a base between two and sixteen, without leading zeros.
pub open spec fn numeral(n: nat, base: nat) -> Seq<char>
    decreases n,
{
    if n < base || base < 2 {
        seq![digit(n as int)]
    } else {
        proof {
            assert(n / base < n) by (nonlinear_arith)
                requires
                    n >= base,
                    base >= 2,
            ;
        }
        numeral(n / base, base).push(digit((n % base) as int))
    }
}

/// The decimal numeral of `n`.
pub open spec fn dec(n: nat) -> Seq<char> {
    numeral(n, 10)
}

/// The hexadecimal numeral of `n`, in lower case.
pub open spec fn hex(n: nat) -> Seq<char> {
    numeral(n, 16)
}

/// `s` filled up to `width` characters by copies of `c` on its left.
pub open spec fn pad_left(s: Seq<char>, width: nat, c: char) -> Seq<char> {
    if s.len() >= width {
        s
    } else {
        Seq::new((width - s.len()) as nat, |i: int| c) + s
    }
}

fn digit_of(d: u128) -> (r: char)
    requires
        d < 16,
    ensures
        r == digit(d as int),
{
    if d < 10 {
        (48u8 + d as u8) as char
    } else {
        (87u8 + d as u8) as char
    }
}

/// Writes a number in the given base.
pub fn to_numeral(n: u128, base: u128) -> (r: Vec<char>)
    requires
        2 <= base <= 16,
    ensures
        r@ == numeral(n as nat, base as nat),
    decreases n,
{
    if n < base {
        let mut r: Vec<char> = Vec::new();
        r.push(digit_of(n));
        assert(r@ =~= seq![digit(n as int)]);
        r
    } else {
        assert(n / base < n) by (nonlinear_arith)
            requires
                n >= base,
                base >= 2,
        ;
        let mut r = to_numeral(n / base, base);
        r.push(digit_of(n % base));
        r
    }
}

/// Writes a number in decimal.
pub fn to_dec(n: u128) -> (r: Vec<char>)
    ensures
        r@ == dec(n as nat),
{
    to_numeral(n, 10)
}

/// Writes a number in hexadecimal.
pub fn to_hex(n: u128) -> (r: Vec<char>)
    ensures
        r@ == hex(n as nat),
{
    to_numeral(n, 16)
}

/// Fills up on the left.
pub fn padded(s: &[char], width: usize, c: char) -> (r: Vec<char>)
    ensures
        r@ == pad_left(s@, width as nat, c),
{
    let mut r: Vec<char> = Vec::new();
    if s.len() < width {
        let missing: usize = width - s.len();
        for i in 0..missing
            invariant
                r@ == Seq::new(i as nat, |j: int| c),
        {
            r.push(c);
        }
    }
    let ghost fill = r@;
    for i in 0..s.len()
        invariant
            r@ == fill + s@.take(i as int),
    {
        r.push(s[i]);
    }
    assert(s@.take(s@.len() as int) =~= s@);
    assert(s@.len() >= width ==> fill + s@ =~= s@);
    r
}

/// The value of a string of decimal digits.
pub open spec fn dec_value(s: Seq<char>) -> nat
    decreases s.len(),
{
    if s.len() == 0 {
        0
    } else {
        (dec_value(s.drop_last()) * 10 + (s.last() as int - '0' as int)) as nat
    }
}

/// Every character of `s` is a digit.
pub open spec fn all_digits(s: Seq<char>) -> bool {
    forall|i: int| 0 <= i < s.len() ==> is_digit(#[trigger] s[i])
}

/// The number that `s` spells: decimal digits, at least one, with or without a plus sign
/// before them, of a value that fits in 128 bits.
pub open spec fn wide_value(s: Seq<char>) -> Option<u128> {
    let d = if s.len() > 0 && s[0] == '+' {
        s.skip(1)
    } else {
        s
    };
    if d.len() > 0 && all_digits(d) && dec_value(d) <= u128::MAX {
        Some(dec_value(d) as u128)
    } else {
        None
    }
}

/// The machine word that `s` spells.
pub open spec fn word_value(s: Seq<char>) -> Option<usize> {
    match wide_value(s) {
        Some(v) if v <= usize::MAX => Some(v as usize),
        _ => None,
    }
}

/// Reads a number.
pub fn parse_wide(s: &[char]) -> (r: Option<u128>)
    ensures
        r == wide_value(s@),
{
    let start: usize = if s.len() > 0 && s[0] == '+' {
        1
    } else {
        0
    };
    let d = slice_subrange(s, start, s.len());
    assert(start == 0 ==> d@ =~= s@);
    assert(start == 1 ==> d@ =~= s@.skip(1));
    if d.len() == 0 {
        return None;
    }
    let mut v: u128 = 0;
    let mut big = false;
    for i in 0..d.len()
        invariant
            forall|j: int| 0 <= j < i ==> is_digit(#[trigger] d@[j]),
            !big ==> v == dec_value(d@.take(i as int)),
            big ==> dec_value(d@.take(i as int)) > u128::MAX,
            d@.len() > 0,
            start == 0 ==> d@ == s@ && !(s@.len() > 0 && s@[0] == '+'),
            start == 1 ==> d@ == s@.skip(1) && s@.len() > 0 && s@[0] == '+',
            start == 0 || start == 1,
    {
        let c = d[i];
        if !('0' <= c && c <= '9') {
            assert(!is_digit(d@[i as int]));
            return None;
        }
        assert(d@.take(i + 1).drop_last() =~= d@.take(i as int));
        let x: u128 = (c as u32 - 48) as u128;
        if !big {
            match v.checked_mul(10) {
                Some(t) => {
                    match t.checked_add(x) {
                        Some(w) => {
                            v = w;
                        },
                        None => {
                            big = true;
                        },
                    }
                },
                None => {
                    big = true;
                },
            }
        }
    }
    assert(d@.take(d@.len() as int) =~= d@);
    if big {
        None
    } else {
        Some(v)
    }
}

/// Reads a machine word.
pub fn parse_word(s: &[char]) -> (r: Option<usize>)
    ensures
        r == word_value(s@),
{
    match parse_wide(s) {
        Some(v) => {
            if v <= usize::MAX as u128 {
                Some(v as usize)
            } else {
                None
            }
        },
        None => None,
    }
}

/// A decimal numeral is made of digits, at least one, and has the value that it spells.
pub proof fn lemma_dec(n: nat)
    ensures
        dec(n).len() > 0,
        all_digits(dec(n)),
        dec_value(dec(n)) == n,
    decreases n,
{
    if n < 10 {
        let d = seq![digit(n as int)];
        assert(dec(n) =~= d);
        assert(d.drop_last() =~= Seq::empty());
        assert(dec_value(d.drop_last()) == 0);
    } else {
        let t = dec(n / 10);
        lemma_dec(n / 10);
        assert(dec(n) =~= t.push(digit((n % 10) as int)));
        assert(dec(n).drop_last() =~= t);
        assert forall|i: int| 0 <= i < dec(n).len() implies is_digit(#[trigger] dec(n)[i]) by {
            if i < t.len() {
                assert(dec(n)[i] == t[i]);
            }
        }
    }
}

/// A number that is written in digits is read back.
pub proof fn law_numerals_are_read_back(n: u128)
    ensures
        wide_value(dec(n as nat)) == Some(n),
        n <= usize::MAX ==> word_value(dec(n as nat)) == Some(n as usize),
{
    lemma_dec(n as nat);
    assert(is_digit(dec(n as nat)[0]));
}

/// Every character is white space.
pub open spec fn all_white(s: Seq<char>) -> bool {
    forall|i: int| 0 <= i < s.len() ==> is_white_space(#[trigger] s[i])
}

pub proof fn lemma_trim_start(s: Seq<char>)
    ensures
        trim_start(s).len() <= s.len(),
        trim_start(s) == s.skip(s.len() - trim_start(s).len()),
        all_white(s.take(s.len() - trim_start(s).len())),
        trim_start(s).len() > 0 ==> !is_white_space(trim_start(s)[0]),
    decreases s.len(),
{
    if s.len() > 0 && is_white_space(s[0]) {
        let t = s.drop_first();
        lemma_trim_start(t);
        let n = s.len() - trim_start(s).len();
        assert(t.skip(n - 1) =~= s.skip(n));
        assert forall|i: int| 0 <= i < n implies is_white_space(#[trigger] s.take(n)[i]) by {
            if i > 0 {
                assert(s.take(n)[i] == t.take(n - 1)[i - 1]);
            }
        }
    } else {
        assert(s.skip(0) =~= s);
    }
}

proof fn lemma_trim_end(s: Seq<char>)
    ensures
        trim_end(s).len() <= s.len(),
        trim_end(s) == s.take(trim_end(s).len() as int),
        all_white(s.skip(trim_end(s).len() as int)),
        trim_end(s).len() > 0 ==> !is_white_space(trim_end(s).last()),
    decreases s.len(),
{
    if s.len() > 0 && is_white_space(s.last()) {
        let t = s.drop_last();
        lemma_trim_end(t);
        let n = trim_end(s).len() as int;
        assert(t.take(n) =~= s.take(n));
        assert forall|i: int| 0 <= i < s.skip(n).len() implies is_white_space(
            #[trigger] s.skip(n)[i],
        ) by {
            if n + i < t.len() {
                assert(s.skip(n)[i] == t.skip(n)[i]);
            }
        }
    } else {
        assert(s.take(s.len() as int) =~= s);
        assert(s.skip(s.len() as int) =~= Seq::empty());
    }
}

/// Trimming takes white space off both ends of a text, all of it, and nothing else.
pub proof fn law_trimming_takes_white_space_off(s: Seq<char>)
    ensures
        exists|a: Seq<char>, b: Seq<char>| #[trigger]
            all_white(a) && #[trigger] all_white(b) && s == a + trim(s) + b,
        trim(s).len() > 0 ==> !is_white_space(trim(s)[0]) && !is_white_space(trim(s).last()),
{
    let t = trim_start(s);
    lemma_trim_start(s);
    lemma_trim_end(t);
    let a = s.take(s.len() - t.len());
    let b = t.skip(trim_end(t).len() as int);
    assert(s =~= a + t);
    assert(t =~= trim_end(t) + b);
    assert(a + trim_end(t) + b =~= s);
    assert(all_white(a) && all_white(b));
    assert(trim(s) == trim_end(t));
    if trim(s).len() > 0 {
        assert(trim_end(t)[0] == t[0]);
    }
}

/// A text begins with another if and only if it is that one with something behind it.
pub proof fn law_beginnings(s: Seq<char>, pat: Seq<char>, rest: Seq<char>)
    ensures
        begins(pat + rest, pat),
        begins(s, pat) ==> s == pat + s.skip(pat.len() as int),
{
    assert((pat + rest).take(pat.len() as int) =~= pat);
    if begins(s, pat) {
        assert(s =~= s.take(pat.len() as int) + s.skip(pat.len() as int));
    }
}

/// A text stands in another if and only if that one is it with something before and behind it.
pub proof fn law_occurrences(s: Seq<char>, pat: Seq<char>, a: Seq<char>, b: Seq<char>)
    ensures
        occurs(a + pat + b, pat),
        occurs(s, pat) ==> exists|x: Seq<char>, y: Seq<char>| s == #[trigger] (x + pat + y),
{
    let t = a + pat + b;
    let k = a.len() as int;
    assert(t.subrange(k, k + pat.len()) =~= pat);
    assert(occurs_at(t, pat, k));
    if occurs(s, pat) {
        let i = choose|i: int| #[trigger] occurs_at(s, pat, i);
        let x = s.take(i);
        let y = s.skip(i + pat.len());
        assert(s =~= x + pat + y);
    }
}

/// Lines that were put together are found again, each without a carriage return at its end.
pub proof fn law_lines_are_found_again(ls: Seq<Seq<char>>, i: int)
    requires
        forall|k: int| 0 <= k < ls.len() ==> one_line(#[trigger] ls[k]),
        0 <= i < ls.len(),
    ensures
        lines(unlines(ls)).len() == ls.len(),
        ls[i].len() > 0 && ls[i].last() != '\r' ==> lines(unlines(ls))[i] == ls[i],
        ls[i].len() == 0 ==> lines(unlines(ls))[i] == ls[i],
{
    lemma_lines_unlines(ls);
}

/// A padded text ends in the text, is as wide as asked for or as the text, and has nothing but the
/// filling before it.
pub proof fn law_padding_goes_in_front(s: Seq<char>, width: nat, c: char)
    ensures
        pad_left(s, width, c).len() >= width,
        pad_left(s, width, c).len() >= s.len(),
        s.len() >= width ==> pad_left(s, width, c) == s,
        s.len() < width ==> pad_left(s, width, c).len() == width,
        pad_left(s, width, c).skip(pad_left(s, width, c).len() - s.len()) == s,
        forall|i: int|
            0 <= i < pad_left(s, width, c).len() - s.len() ==> #[trigger] pad_left(s, width, c)[i]
                == c,
{
    let p = pad_left(s, width, c);
    assert(p.skip(p.len() - s.len()) =~= s);
}

} // verus!
