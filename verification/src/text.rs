//! Character-level text handling: whitespace, trimming, splitting.

use vstd::prelude::*;

verus! {

/// The characters with the Unicode `White_Space` property, which is what
/// `char::is_whitespace` tests.
pub open spec fn is_ws(c: char) -> bool {
    let u = c as u32;
    ||| 0x09 <= u <= 0x0D
    ||| u == 0x20
    ||| u == 0x85
    ||| u == 0xA0
    ||| u == 0x1680
    ||| 0x2000 <= u <= 0x200A
    ||| u == 0x2028
    ||| u == 0x2029
    ||| u == 0x202F
    ||| u == 0x205F
    ||| u == 0x3000
}

pub fn is_whitespace(c: char) -> (b: bool)
    ensures
        b == is_ws(c),
{
    let u = c as u32;
    (0x09 <= u && u <= 0x0D) || u == 0x20 || u == 0x85 || u == 0xA0 || u == 0x1680 || (0x2000
        <= u && u <= 0x200A) || u == 0x2028 || u == 0x2029 || u == 0x202F || u == 0x205F || u
        == 0x3000
}

/// The characters of a string, in order.
pub fn chars_of(s: &str) -> (v: Vec<char>)
    ensures
        v@ == s@,
{
    let mut v: Vec<char> = Vec::new();
    for c in it: s.chars()
        invariant
            v@ == it.seq().take(it.index() as int),
            it.seq() == s@,
    {
        v.push(c);
    }
    v
}

} // verus!

verus! {

/// `String::push`: appends one character at the end.
#[verifier::external_body]
fn push_char(s: &mut String, c: char)
    ensures
        final(s)@ == old(s)@.push(c),
{
    s.push(c);
}

/// A `String` holding exactly the given characters.
pub fn string_from_chars(v: &[char]) -> (s: String)
    ensures
        s@ == v@,
{
    let mut s = String::new();
    let n = v.len();
    for i in 0..n
        invariant
            n == v@.len(),
            s@ == v@.take(i as int),
    {
        push_char(&mut s, v[i]);
        assert(v@.take(i + 1) == v@.take(i as int).push(v@[i as int]));
    }
    assert(v@.take(n as int) == v@);
    s
}

/// `s` without its leading whitespace.
pub open spec fn trim_start(s: Seq<char>) -> Seq<char>
    decreases s.len(),
{
    if s.len() > 0 && is_ws(s[0]) {
        trim_start(s.drop_first())
    } else {
        s
    }
}

/// `s` without its trailing whitespace.
pub open spec fn trim_end(s: Seq<char>) -> Seq<char>
    decreases s.len(),
{
    if s.len() > 0 && is_ws(s.last()) {
        trim_end(s.drop_last())
    } else {
        s
    }
}

/// `s` without leading and trailing whitespace, as `str::trim` gives it.
pub open spec fn trim(s: Seq<char>) -> Seq<char> {
    trim_end(trim_start(s))
}

/// A text that neither starts nor ends with whitespace is its own trim.
pub proof fn lemma_trim_unchanged(s: Seq<char>)
    requires
        s.len() > 0 ==> !is_ws(s[0]) && !is_ws(s.last()),
    ensures
        trim(s) == s,
{
}

proof fn lemma_trim_start_ends(s: Seq<char>)
    ensures
        trim_start(s).len() > 0 ==> !is_ws(trim_start(s)[0]),
        trim_start(s).len() > 0 ==> trim_start(s).last() == s.last(),
    decreases s.len(),
{
    if s.len() > 0 && is_ws(s[0]) {
        lemma_trim_start_ends(s.drop_first());
    }
}

proof fn lemma_trim_end_prefix(s: Seq<char>)
    ensures
        trim_end(s).len() <= s.len(),
        trim_end(s) == s.take(trim_end(s).len() as int),
        trim_end(s).len() > 0 ==> !is_ws(trim_end(s).last()),
    decreases s.len(),
{
    if s.len() > 0 && is_ws(s.last()) {
        lemma_trim_end_prefix(s.drop_last());
        assert(s.drop_last().take(trim_end(s).len() as int) =~= s.take(trim_end(s).len() as int));
    } else {
        assert(s.take(s.len() as int) =~= s);
    }
}

/// A trimmed text is empty or neither starts nor ends with whitespace.
pub proof fn lemma_trim_ends(s: Seq<char>)
    ensures
        trim(s).len() > 0 ==> !is_ws(trim(s)[0]) && !is_ws(trim(s).last()),
{
    lemma_trim_start_ends(s);
    lemma_trim_end_prefix(trim_start(s));
    if trim(s).len() > 0 {
        assert(trim(s)[0] == trim_start(s)[0]);
    }
}

/// Trimming twice is trimming once.
pub proof fn lemma_trim_idempotent(s: Seq<char>)
    ensures
        trim(trim(s)) == trim(s),
{
    lemma_trim_ends(s);
    lemma_trim_unchanged(trim(s));
}

/// The bounds `lo..hi` of the trimmed part of `v`.
pub fn trim_bounds(v: &[char]) -> (r: (usize, usize))
    ensures
        r.0 <= r.1 <= v@.len(),
        v@.subrange(r.0 as int, r.1 as int) == trim(v@),
{
    let n = v.len();
    let mut lo: usize = 0;
    assert(v@.subrange(0, n as int) == v@);
    while lo < n && is_whitespace(v[lo])
        invariant
            lo <= n == v@.len(),
            trim_start(v@) == trim_start(v@.subrange(lo as int, n as int)),
        decreases n - lo,
    {
        assert(v@.subrange(lo as int, n as int).drop_first() == v@.subrange(lo + 1, n as int));
        lo = lo + 1;
    }
    let ghost t = v@.subrange(lo as int, n as int);
    assert(trim_start(t) == t);
    let mut hi: usize = n;
    while hi > lo && is_whitespace(v[hi - 1])
        invariant
            lo <= hi <= n == v@.len(),
            t == v@.subrange(lo as int, n as int),
            trim_end(t) == trim_end(v@.subrange(lo as int, hi as int)),
        decreases hi,
    {
        assert(v@.subrange(lo as int, hi as int).drop_last() == v@.subrange(lo as int, hi - 1));
        hi = hi - 1;
    }
    (lo, hi)
}

/// `str::trim`.
pub fn trim_str(s: &str) -> (r: String)
    ensures
        r@ == trim(s@),
{
    let v = chars_of(s);
    let (lo, hi) = trim_bounds(v.as_slice());
    string_from_chars(&v.as_slice()[lo..hi])
}

} // verus!

verus! {

/// The whitespace-separated words of `s`, as `str::split_whitespace` yields
/// them, defined by reading `s` from left to right.
pub open spec fn split_ws(s: Seq<char>) -> Seq<Seq<char>>
    decreases s.len(),
{
    if s.len() == 0 {
        Seq::empty()
    } else {
        let prev = split_ws(s.drop_last());
        let c = s.last();
        if is_ws(c) {
            prev
        } else if s.len() >= 2 && !is_ws(s[s.len() - 2]) {
            prev.update(prev.len() - 1, prev.last().push(c))
        } else {
            prev.push(seq![c])
        }
    }
}

/// A string ending in a non-whitespace character has at least one word.
pub proof fn lemma_split_ws_nonempty(s: Seq<char>)
    requires
        s.len() > 0,
        !is_ws(s.last()),
    ensures
        split_ws(s).len() > 0,
    decreases s.len(),
{
    if s.len() >= 2 && !is_ws(s[s.len() - 2]) {
        lemma_split_ws_nonempty(s.drop_last());
    }
}

/// After text ending in whitespace, the words of what follows are words of
/// their own.
pub proof fn lemma_split_ws_concat(p: Seq<char>, t: Seq<char>)
    requires
        p.len() > 0,
        is_ws(p.last()),
    ensures
        split_ws(p + t) == split_ws(p) + split_ws(t),
    decreases t.len(),
{
    if t.len() == 0 {
        assert(p + t =~= p);
        assert(split_ws(p) + split_ws(t) =~= split_ws(p));
    } else {
        let s = p + t;
        lemma_split_ws_concat(p, t.drop_last());
        assert(s.drop_last() =~= p + t.drop_last());
        assert(s.last() == t.last());
        let c = t.last();
        if is_ws(c) {
        } else if t.len() >= 2 && !is_ws(t[t.len() - 2]) {
            assert(s[s.len() - 2] == t[t.len() - 2]);
            lemma_split_ws_nonempty(t.drop_last());
            assert(split_ws(s) =~= split_ws(p) + split_ws(t));
        } else {
            if t.len() >= 2 {
                assert(s[s.len() - 2] == t[t.len() - 2]);
            } else {
                assert(s[s.len() - 2] == p.last());
            }
            assert(split_ws(s) =~= split_ws(p) + split_ws(t));
        }
    }
}

/// The character sequences held by a vector of character vectors.
pub open spec fn char_vecs(ws: Seq<Vec<char>>) -> Seq<Seq<char>> {
    ws.map_values(|w: Vec<char>| w@)
}

/// The words of `v`, each as its characters.
pub fn split_ws_chars(v: &[char]) -> (r: Vec<Vec<char>>)
    ensures
        char_vecs(r@) == split_ws(v@),
{
    let n = v.len();
    let mut words: Vec<Vec<char>> = Vec::new();
    for i in 0..n
        invariant
            n == v@.len(),
            char_vecs(words@) == split_ws(v@.take(i as int)),
    {
        let c = v[i];
        let ghost p = v@.take(i + 1);
        let ghost prev = split_ws(v@.take(i as int));
        assert(p.drop_last() == v@.take(i as int));
        assert(p.last() == c);
        if is_whitespace(c) {
        } else if i >= 1 && !is_whitespace(v[i - 1]) {
            proof {
                lemma_split_ws_nonempty(v@.take(i as int));
            }
            assert(p[p.len() - 2] == v@[i - 1]);
            let ghost before = words@;
            let mut last = words.pop().unwrap();
            last.push(c);
            words.push(last);
            assert(char_vecs(words@) =~= prev.update(prev.len() - 1, prev.last().push(c)));
        } else {
            let mut w: Vec<char> = Vec::new();
            w.push(c);
            words.push(w);
            assert(char_vecs(words@) =~= prev.push(seq![c]));
        }
    }
    assert(v@.take(n as int) == v@);
    words
}

} // verus!

verus! {

/// The decimal digit for `d` (`0 <= d < 10`).
pub open spec fn digit_char(d: nat) -> char {
    if d == 0 { '0' }
    else if d == 1 { '1' }
    else if d == 2 { '2' }
    else if d == 3 { '3' }
    else if d == 4 { '4' }
    else if d == 5 { '5' }
    else if d == 6 { '6' }
    else if d == 7 { '7' }
    else if d == 8 { '8' }
    else { '9' }
}

/// The decimal digits of `n`, most significant first, without leading zeros.
pub open spec fn nat_digits(n: nat) -> Seq<char>
    decreases n,
{
    if n < 10 {
        seq![digit_char(n)]
    } else {
        nat_digits(n / 10).push(digit_char(n % 10))
    }
}

/// How `Display` writes an integer: a `-` for negative numbers, then the
/// decimal digits.
pub open spec fn dec(n: int) -> Seq<char> {
    if n < 0 {
        seq!['-'] + nat_digits((-n) as nat)
    } else {
        nat_digits(n as nat)
    }
}

fn digit(d: u64) -> (c: char)
    requires
        d < 10,
    ensures
        c == digit_char(d as nat),
{
    if d == 0 { '0' }
    else if d == 1 { '1' }
    else if d == 2 { '2' }
    else if d == 3 { '3' }
    else if d == 4 { '4' }
    else if d == 5 { '5' }
    else if d == 6 { '6' }
    else if d == 7 { '7' }
    else if d == 8 { '8' }
    else { '9' }
}

fn push_digits(out: &mut String, m: u64)
    ensures
        final(out)@ == old(out)@ + nat_digits(m as nat),
    decreases m,
{
    if m >= 10 {
        push_digits(out, m / 10);
        push_char(out, digit(m % 10));
    } else {
        push_char(out, digit(m));
    }
}

/// Appends the decimal text of `n` to `out`.
pub fn push_dec(out: &mut String, n: i64)
    ensures
        final(out)@ == old(out)@ + dec(n as int),
{
    if n < 0 {
        push_char(out, '-');
        let m: u64 = if n == i64::MIN {
            9223372036854775808u64
        } else {
            (-n) as u64
        };
        push_digits(out, m);
        assert(old(out)@.push('-') + nat_digits(m as nat) == old(out)@ + (seq!['-']
            + nat_digits(m as nat)));
    } else {
        push_digits(out, n as u64);
    }
}

/// `pat` occurs in `s` at position `i`.
pub open spec fn occurs_at(s: Seq<char>, pat: Seq<char>, i: int) -> bool {
    0 <= i && i + pat.len() <= s.len() && s.subrange(i, i + pat.len()) == pat
}

/// `pat` occurs somewhere in `s`, as `str::contains` tests it.
pub open spec fn contains_seq(s: Seq<char>, pat: Seq<char>) -> bool {
    exists|i: int| occurs_at(s, pat, i)
}

fn matches_at(s: &[char], pat: &[char], i: usize) -> (b: bool)
    requires
        i + pat@.len() <= s@.len(),
    ensures
        b == (s@.subrange(i as int, i + pat@.len()) == pat@),
{
    let m = pat.len();
    let sl = s.len();
    for k in 0..m
        invariant
            m == pat@.len(),
            sl == s@.len(),
            i + m <= s@.len(),
            forall|j: int| 0 <= j < k ==> s@[i + j] == pat@[j],
    {
        if s[i + k] != pat[k] {
            assert(s@.subrange(i as int, i + pat@.len())[k as int] != pat@[k as int]);
            return false;
        }
    }
    assert(s@.subrange(i as int, i + pat@.len()) =~= pat@);
    true
}

/// `str::contains` for a pattern string.
pub fn contains_chars(s: &[char], pat: &[char]) -> (b: bool)
    ensures
        b == contains_seq(s@, pat@),
{
    let n = s.len();
    let m = pat.len();
    if m > n {
        return false;
    }
    if m == 0 {
        assert(s@.subrange(0, 0) =~= pat@);
        assert(occurs_at(s@, pat@, 0));
        return true;
    }
    let mut i: usize = 0;
    while i < n - m + 1
        invariant
            n == s@.len(),
            m == pat@.len(),
            1 <= m <= n,
            i <= n - m + 1,
            forall|j: int| 0 <= j < i ==> !occurs_at(s@, pat@, j),
        decreases n - m + 1 - i,
    {
        if matches_at(s, pat, i) {
            assert(occurs_at(s@, pat@, i as int));
            return true;
        }
        i = i + 1;
    }
    false
}

} // verus!

verus! {

/// Whether two strings hold the same characters.
pub fn str_eq(a: &str, b: &str) -> (r: bool)
    ensures
        r == (a@ == b@),
{
    let x = chars_of(a);
    let y = chars_of(b);
    if x.len() != y.len() {
        return false;
    }
    let n = x.len();
    for i in 0..n
        invariant
            n == x@.len() == y@.len(),
            x@ == a@,
            y@ == b@,
            forall|j: int| 0 <= j < i ==> x@[j] == y@[j],
    {
        if x[i] != y[i] {
            assert(a@[i as int] != b@[i as int]);
            return false;
        }
    }
    assert(x@ =~= y@);
    true
}

/// Whether `s` is empty once trimmed (`s.trim().is_empty()`).
pub fn is_blank(s: &str) -> (r: bool)
    ensures
        r == (trim(s@).len() == 0),
{
    let v = chars_of(s);
    let (lo, hi) = trim_bounds(v.as_slice());
    lo == hi
}

/// `str::contains` with a string pattern.
pub fn str_contains(s: &str, pat: &str) -> (r: bool)
    ensures
        r == contains_seq(s@, pat@),
{
    let x = chars_of(s);
    let y = chars_of(pat);
    contains_chars(x.as_slice(), y.as_slice())
}

/// `a` followed by `b`.
pub fn concat_str(a: &str, b: &str) -> (r: String)
    ensures
        r@ == a@ + b@,
{
    let mut s = String::from_str(a);
    s.append(b);
    s
}

} // verus!

verus! {

/// The pieces of `s` between occurrences of `sep` (one more piece than there
/// are separators), defined by reading `s` from left to right.
pub open spec fn split_char(s: Seq<char>, sep: char) -> Seq<Seq<char>>
    decreases s.len(),
{
    if s.len() == 0 {
        seq![Seq::<char>::empty()]
    } else {
        let p = split_char(s.drop_last(), sep);
        if s.last() == sep {
            p.push(Seq::<char>::empty())
        } else {
            p.update(p.len() - 1, p.last().push(s.last()))
        }
    }
}

pub proof fn lemma_split_char_nonempty(s: Seq<char>, sep: char)
    ensures
        split_char(s, sep).len() >= 1,
    decreases s.len(),
{
    if s.len() > 0 {
        lemma_split_char_nonempty(s.drop_last(), sep);
    }
}

/// Splitting a text with no separator in it gives the text itself.
pub proof fn lemma_split_char_none(s: Seq<char>, sep: char)
    requires
        forall|i: int| 0 <= i < s.len() ==> s[i] != sep,
    ensures
        split_char(s, sep) == seq![s],
    decreases s.len(),
{
    if s.len() > 0 {
        lemma_split_char_none(s.drop_last(), sep);
        assert(s.drop_last().push(s.last()) =~= s);
        assert(split_char(s, sep) =~= seq![s]);
    } else {
        assert(s =~= Seq::<char>::empty());
    }
}

/// Splitting `a`, a separator, then `b` gives the pieces of `a` followed by
/// the pieces of `b`.
pub proof fn lemma_split_char_concat(a: Seq<char>, b: Seq<char>, sep: char)
    ensures
        split_char(a + seq![sep] + b, sep) == split_char(a, sep) + split_char(b, sep),
    decreases b.len(),
{
    let s = a + seq![sep] + b;
    lemma_split_char_nonempty(a, sep);
    if b.len() == 0 {
        assert(s.drop_last() =~= a);
        assert(split_char(s, sep) =~= split_char(a, sep) + split_char(b, sep));
    } else {
        lemma_split_char_concat(a, b.drop_last(), sep);
        lemma_split_char_nonempty(b.drop_last(), sep);
        assert(s.drop_last() =~= a + seq![sep] + b.drop_last());
        assert(s.last() == b.last());
        assert(split_char(s, sep) =~= split_char(a, sep) + split_char(b, sep));
    }
}

/// `l` without one trailing carriage return.
pub open spec fn strip_cr(l: Seq<char>) -> Seq<char> {
    if l.len() > 0 && l.last() == '\r' {
        l.drop_last()
    } else {
        l
    }
}

/// The lines of `s`, as `str::lines` yields them: split at `\n`, a `\r` just
/// before a `\n` dropped, and no empty line after a final `\n`.
pub open spec fn lines(s: Seq<char>) -> Seq<Seq<char>> {
    let p = split_char(s, '\n');
    let n = p.len();
    let kept = if p.last().len() == 0 {
        (n - 1) as nat
    } else {
        n
    };
    Seq::new(kept, |i: int| if i < n - 1 { strip_cr(p[i]) } else { p[i] })
}

/// Splits `v` at every `sep`.
pub fn split_char_chars(v: &[char], sep: char) -> (r: Vec<Vec<char>>)
    ensures
        char_vecs(r@) == split_char(v@, sep),
{
    let n = v.len();
    let mut pieces: Vec<Vec<char>> = Vec::new();
    pieces.push(Vec::new());
    assert(char_vecs(pieces@) =~= split_char(v@.take(0), sep));
    for i in 0..n
        invariant
            n == v@.len(),
            char_vecs(pieces@) == split_char(v@.take(i as int), sep),
    {
        let c = v[i];
        let ghost p = v@.take(i + 1);
        let ghost prev = split_char(v@.take(i as int), sep);
        assert(p.drop_last() == v@.take(i as int));
        assert(p.last() == c);
        proof {
            lemma_split_char_nonempty(v@.take(i as int), sep);
        }
        if c == sep {
            pieces.push(Vec::new());
            assert(char_vecs(pieces@) =~= prev.push(Seq::<char>::empty()));
        } else {
            let mut last = pieces.pop().unwrap();
            last.push(c);
            pieces.push(last);
            assert(char_vecs(pieces@) =~= prev.update(prev.len() - 1, prev.last().push(c)));
        }
    }
    assert(v@.take(n as int) == v@);
    pieces
}

/// The lines of `s` (`str::lines`).
pub fn lines_of(s: &str) -> (r: Vec<Vec<char>>)
    ensures
        char_vecs(r@) == lines(s@),
{
    let v = chars_of(s);
    let pieces = split_char_chars(v.as_slice(), '\n');
    let ghost p = split_char(s@, '\n');
    proof {
        lemma_split_char_nonempty(s@, '\n');
    }
    let n = pieces.len();
    let kept = if pieces[n - 1].len() == 0 {
        n - 1
    } else {
        n
    };
    let mut out: Vec<Vec<char>> = Vec::new();
    for i in 0..kept
        invariant
            kept <= n,
            n == p.len(),
            p == split_char(s@, '\n'),
            char_vecs(pieces@) == p,
            kept == (if p.last().len() == 0 { (n - 1) as nat } else { n as nat }),
            char_vecs(out@) == lines(s@).take(i as int),
    {
        assert(char_vecs(pieces@)[i as int] == pieces@[i as int]@);
        assert(p == split_char(s@, '\n'));
        assert(lines(s@).len() == kept);
        assert(lines(s@)[i as int] == (if i < n - 1 { strip_cr(p[i as int]) } else { p[i as int] }));
        let mut line: Vec<char> = pieces[i].clone();
        assert(line@ == p[i as int]);
        if i < n - 1 {
            let len = line.len();
            if len > 0 && line[len - 1] == '\r' {
                line.pop();
                assert(line@ == strip_cr(p[i as int]));
            } else {
                assert(line@ == strip_cr(p[i as int]));
            }
        }
        let ghost prev = out@;
        let ghost lv = line@;
        out.push(line);
        proof {
            assert(i < n - 1 ==> lv == strip_cr(p[i as int]));
            assert(i >= n - 1 ==> lv == p[i as int]);
            assert(lines(s@)[i as int] == lv);
            assert(char_vecs(prev).len() == prev.len());
            assert(prev.len() == i);
            assert(out@ == prev.push(out@[i as int]));
            assert forall|j: int| 0 <= j < i + 1 implies char_vecs(out@)[j] == lines(s@).take(i + 1)[j] by {
                if j < i {
                    assert(out@[j] == prev[j]);
                    assert(char_vecs(prev)[j] == prev[j]@);
                }
            }
            assert(char_vecs(out@) =~= lines(s@).take(i + 1));
        }
    }
    assert(lines(s@).take(kept as int) =~= lines(s@));
    out
}

/// Where `s` is split by its first `sep`, as `str::split_once` does: the part
/// before and the part after.
pub open spec fn split_once(s: Seq<char>, sep: char) -> Option<(Seq<char>, Seq<char>)> {
    if exists|i: int| 0 <= i < s.len() && s[i] == sep {
        let i = choose|i: int| 0 <= i < s.len() && s[i] == sep && forall|j: int| 0 <= j < i ==> s[j] != sep;
        Some((s.take(i), s.skip(i + 1)))
    } else {
        None
    }
}

/// The position of the first `sep` in `v`, if any.
pub fn find_char(v: &[char], sep: char) -> (r: Option<usize>)
    ensures
        match r {
            Some(i) => i < v@.len() && v@[i as int] == sep && forall|j: int| 0 <= j < i ==> v@[j] != sep,
            None => forall|j: int| 0 <= j < v@.len() ==> v@[j] != sep,
        },
{
    let n = v.len();
    for i in 0..n
        invariant
            n == v@.len(),
            forall|j: int| 0 <= j < i ==> v@[j] != sep,
    {
        if v[i] == sep {
            return Some(i);
        }
    }
    None
}

/// The first `sep` of `v` found by `find_char` is where `split_once` splits.
pub proof fn lemma_split_once_at(s: Seq<char>, sep: char, i: int)
    requires
        0 <= i < s.len(),
        s[i] == sep,
        forall|j: int| 0 <= j < i ==> s[j] != sep,
    ensures
        split_once(s, sep) == Some((s.take(i), s.skip(i + 1))),
{
    let k = choose|k: int| 0 <= k < s.len() && s[k] == sep && forall|j: int| 0 <= j < k ==> s[j] != sep;
    assert(0 <= k < s.len() && s[k] == sep && forall|j: int| 0 <= j < k ==> s[j] != sep);
    if k < i {
        assert(s[k] != sep);
    } else if i < k {
        assert(s[i] != sep);
    }
}

} // verus!

verus! {

/// An ASCII decimal digit.
pub open spec fn is_digit(c: char) -> bool {
    '0' <= c <= '9'
}

/// The value of an ASCII decimal digit.
pub open spec fn digit_value(c: char) -> int {
    c as int - '0' as int
}

/// The value of a run of decimal digits.
pub open spec fn digits_value(s: Seq<char>) -> int
    decreases s.len(),
{
    if s.len() == 0 {
        0
    } else {
        digits_value(s.drop_last()) * 10 + digit_value(s.last())
    }
}

/// One or more decimal digits.
pub open spec fn all_digits(s: Seq<char>) -> bool {
    s.len() > 0 && forall|i: int| 0 <= i < s.len() ==> is_digit(#[trigger] s[i])
}

/// The integer a text denotes, as integer `FromStr` reads it: an optional `+`
/// or `-`, then one or more decimal digits, nothing else.
pub open spec fn int_text_value(s: Seq<char>) -> Option<int> {
    if s.len() > 0 && (s[0] == '+' || s[0] == '-') {
        if all_digits(s.drop_first()) {
            if s[0] == '-' {
                Some(-digits_value(s.drop_first()))
            } else {
                Some(digits_value(s.drop_first()))
            }
        } else {
            None
        }
    } else if all_digits(s) {
        Some(digits_value(s))
    } else {
        None
    }
}

/// What `str::parse::<i64>` gives: the value when the text denotes one in range.
pub open spec fn parsed_i64(s: Seq<char>) -> Option<i64> {
    match int_text_value(s) {
        Some(v) => if i64::MIN <= v <= i64::MAX {
            Some(v as i64)
        } else {
            None
        },
        None => None,
    }
}

/// What `str::parse::<i32>` gives: the value when the text denotes one in range.
pub open spec fn parsed_i32(s: Seq<char>) -> Option<i32> {
    match int_text_value(s) {
        Some(v) => if i32::MIN <= v <= i32::MAX {
            Some(v as i32)
        } else {
            None
        },
        None => None,
    }
}

/// A longer run of digits is worth at least as much as its prefix.
pub proof fn lemma_digits_value_monotone(s: Seq<char>, i: int)
    requires
        0 <= i <= s.len(),
        forall|k: int| 0 <= k < s.len() ==> is_digit(#[trigger] s[k]),
    ensures
        digits_value(s.take(i)) <= digits_value(s),
        0 <= digits_value(s.take(i)),
    decreases s.len() - i,
{
    if i < s.len() {
        lemma_digits_value_monotone(s, i + 1);
        assert(s.take(i + 1).drop_last() =~= s.take(i));
    } else {
        assert(s.take(i) =~= s);
    }
    lemma_digits_value_nonneg(s.take(i));
}

pub proof fn lemma_digits_value_nonneg(s: Seq<char>)
    requires
        forall|k: int| 0 <= k < s.len() ==> is_digit(#[trigger] s[k]),
    ensures
        0 <= digits_value(s),
    decreases s.len(),
{
    if s.len() > 0 {
        lemma_digits_value_nonneg(s.drop_last());
    }
}

/// The value of the digit run `v[start..]`, if it is one that does not exceed
/// 2^63; `None` when a character is not a digit, the run is empty, or the
/// value exceeds 2^63.
fn digit_run_value(v: &[char], start: usize) -> (r: Option<u64>)
    requires
        start <= v@.len(),
    ensures
        match r {
            Some(x) => all_digits(v@.skip(start as int)) && x == digits_value(v@.skip(start as int))
                && x <= 9223372036854775808u64,
            None => !all_digits(v@.skip(start as int)) || digits_value(v@.skip(start as int))
                > 9223372036854775808u64,
        },
{
    let n = v.len();
    let ghost d = v@.skip(start as int);
    if start == n {
        return None;
    }
    let mut acc: u64 = 0;
    let mut i: usize = start;
    assert(d.take(0) =~= Seq::<char>::empty());
    while i < n
        invariant
            start <= i <= n == v@.len(),
            d == v@.skip(start as int),
            forall|k: int| 0 <= k < i - start ==> is_digit(#[trigger] d[k]),
            acc == digits_value(d.take(i - start)),
            acc <= 9223372036854775808u64,
        decreases n - i,
    {
        let c = v[i];
        if !('0' <= c && c <= '9') {
            assert(!is_digit(d[i - start]));
            return None;
        }
        let dv = (c as u64) - ('0' as u64);
        assert(d.take(i - start + 1).drop_last() =~= d.take(i - start));
        assert(d.take(i - start + 1).last() == c);
        if acc > 922337203685477580u64 || (acc == 922337203685477580u64 && dv > 8) {
            proof {
                let k = (i - start + 1) as int;
                assert(digits_value(d.take(k)) > 9223372036854775808u64);
                if all_digits(d) {
                    lemma_digits_value_monotone(d, k);
                }
            }
            return None;
        }
        acc = acc * 10 + dv;
        i = i + 1;
    }
    assert(d.take(n - start) =~= d);
    Some(acc)
}

/// `str::parse::<i64>`.
pub fn parse_i64(s: &str) -> (r: Option<i64>)
    ensures
        r == parsed_i64(s@),
{
    let v = chars_of(s);
    let n = v.len();
    if n > 0 && (v[0] == '+' || v[0] == '-') {
        let neg = v[0] == '-';
        assert(v@.skip(1) =~= s@.drop_first());
        match digit_run_value(v.as_slice(), 1) {
            None => None,
            Some(x) => {
                if neg {
                    if x == 9223372036854775808u64 {
                        Some(i64::MIN)
                    } else {
                        Some(-(x as i64))
                    }
                } else if x <= 9223372036854775807u64 {
                    Some(x as i64)
                } else {
                    None
                }
            },
        }
    } else {
        assert(v@.skip(0) =~= s@);
        match digit_run_value(v.as_slice(), 0) {
            None => None,
            Some(x) => {
                if x <= 9223372036854775807u64 {
                    Some(x as i64)
                } else {
                    None
                }
            },
        }
    }
}

/// `str::parse::<i32>`.
pub fn parse_i32(s: &str) -> (r: Option<i32>)
    ensures
        r == parsed_i32(s@),
{
    match parse_i64(s) {
        None => {
            proof {
                if let Some(v) = int_text_value(s@) {
                    assert(!(i64::MIN <= v <= i64::MAX));
                }
            }
            None
        },
        Some(x) => {
            if x >= -2147483648i64 && x <= 2147483647i64 {
                Some(x as i32)
            } else {
                None
            }
        },
    }
}

} // verus!
