use vstd::prelude::*;
use vstd::string::StringExecFns;

verus! {

// ---------------------------------------------------------------------------
// Mathematical model of text: a string is its sequence of chars.
// ---------------------------------------------------------------------------

/// The view of an optional string.
pub open spec fn opt_view(o: Option<String>) -> Option<Seq<char>> {
    match o {
        Some(s) => Some(s@),
        None => None,
    }
}

/// `char::is_whitespace`: the Unicode `White_Space` property.
pub open spec fn is_ws(c: char) -> bool {
    ||| ('\u{9}' <= c && c <= '\u{d}')
    ||| c == ' '
    ||| c == '\u{85}'
    ||| c == '\u{a0}'
    ||| c == '\u{1680}'
    ||| ('\u{2000}' <= c && c <= '\u{200a}')
    ||| c == '\u{2028}'
    ||| c == '\u{2029}'
    ||| c == '\u{202f}'
    ||| c == '\u{205f}'
    ||| c == '\u{3000}'
}

/// `s` with its leading whitespace removed.
pub open spec fn trim_start(s: Seq<char>) -> Seq<char>
    decreases s.len(),
{
    if s.len() > 0 && is_ws(s[0]) {
        trim_start(s.drop_first())
    } else {
        s
    }
}

/// `s` with its trailing whitespace removed.
pub open spec fn trim_end(s: Seq<char>) -> Seq<char>
    decreases s.len(),
{
    if s.len() > 0 && is_ws(s.last()) {
        trim_end(s.drop_last())
    } else {
        s
    }
}

/// `str::trim`.
pub open spec fn trim(s: Seq<char>) -> Seq<char> {
    trim_end(trim_start(s))
}

/// `s` begins with `p`.
pub open spec fn starts_with(s: Seq<char>, p: Seq<char>) -> bool {
    p.len() <= s.len() && s.take(p.len() as int) == p
}

/// `p` occurs in `s` at position `i`.
pub open spec fn occurs_at(s: Seq<char>, p: Seq<char>, i: int) -> bool {
    0 <= i && i + p.len() <= s.len() && s.subrange(i, i + p.len()) == p
}

/// `p` occurs somewhere in `s`.
pub open spec fn contains(s: Seq<char>, p: Seq<char>) -> bool {
    exists|i: int| occurs_at(s, p, i)
}

/// `str::split` on one char: the pieces between the separators, left to right.
pub open spec fn split(s: Seq<char>, c: char) -> Seq<Seq<char>>
    decreases s.len(),
{
    if s.len() == 0 {
        seq![Seq::<char>::empty()]
    } else {
        let prev = split(s.drop_last(), c);
        if s.last() == c {
            prev.push(Seq::<char>::empty())
        } else {
            prev.update(prev.len() - 1, prev.last().push(s.last()))
        }
    }
}


/// `str::split` with a non-empty string pattern: the pieces between the
/// leftmost non-overlapping occurrences of `p`.
pub open spec fn split_pat(s: Seq<char>, p: Seq<char>) -> Seq<Seq<char>>
    decreases s.len(),
{
    if p.len() == 0 || s.len() < p.len() {
        seq![s]
    } else if s.take(p.len() as int) == p {
        seq![Seq::<char>::empty()] + split_pat(s.skip(p.len() as int), p)
    } else {
        let rest = split_pat(s.drop_first(), p);
        rest.update(0, seq![s[0]] + rest[0])
    }
}

/// `xs` with `c` put in front of its first piece.
pub open spec fn prepend_first(c: Seq<char>, xs: Seq<Seq<char>>) -> Seq<Seq<char>> {
    xs.update(0, c + xs[0])
}

/// The non-empty trimmed lines of a text.
pub open spec fn nonempty_lines(s: Seq<char>) -> Seq<Seq<char>> {
    drop_empty(split(s, '\n').map_values(|l: Seq<char>| trim(l)))
}

/// The pieces that are not empty.
pub open spec fn drop_empty(s: Seq<Seq<char>>) -> Seq<Seq<char>>
    decreases s.len(),
{
    if s.len() == 0 {
        s
    } else if s.last().len() == 0 {
        drop_empty(s.drop_last())
    } else {
        drop_empty(s.drop_last()).push(s.last())
    }
}

/// A line without the `\r` of a `\r\n` ending.
pub open spec fn strip_cr(l: Seq<char>) -> Seq<char> {
    if l.len() > 0 && l.last() == '\r' {
        l.drop_last()
    } else {
        l
    }
}

/// `str::lines`: the pieces between `\n` (or `\r\n`) endings, the final
/// ending being optional.
pub open spec fn lines_of(s: Seq<char>) -> Seq<Seq<char>> {
    let p = split(s, '\n');
    let ended = p.drop_last().map_values(|l: Seq<char>| strip_cr(l));
    if s.len() == 0 || s.last() == '\n' {
        ended
    } else {
        ended.push(p.last())
    }
}

/// The pieces laid end to end.
pub open spec fn concat(parts: Seq<Seq<char>>) -> Seq<char>
    decreases parts.len(),
{
    if parts.len() == 0 {
        Seq::<char>::empty()
    } else {
        concat(parts.drop_last()) + parts.last()
    }
}

/// `str::replace` with a non-empty pattern: every leftmost, non-overlapping
/// occurrence of `p` in `s` replaced by `r`.
pub open spec fn replace(s: Seq<char>, p: Seq<char>, r: Seq<char>) -> Seq<char>
    decreases s.len(),
{
    if p.len() == 0 || s.len() < p.len() {
        s
    } else if s.take(p.len() as int) == p {
        r + replace(s.skip(p.len() as int), p, r)
    } else {
        seq![s[0]] + replace(s.drop_first(), p, r)
    }
}

/// The decimal digit for `d < 10`.
pub open spec fn digit_char(d: nat) -> char {
    if d == 0 { '0' }
    else if d == 1 { '1' }
    else if d == 2 { '2' }
    else if d == 3 { '3' }
    else if d == 4 { '4' }
    else if d == 5 { '5' }
    else if d == 6 { '6' }
    else if d == 7 { '7' }
    else if d == 8 { '8' }
    else { '9' }
}

/// The value of an ASCII decimal digit.
pub open spec fn digit_value(c: char) -> nat {
    (c as nat - '0' as nat) as nat
}

pub open spec fn is_digit(c: char) -> bool {
    '0' <= c && c <= '9'
}

/// `n` written in decimal, as `Display` writes it.
pub open spec fn decimal(n: nat) -> Seq<char>
    decreases n,
{
    if n < 10 {
        seq![digit_char(n)]
    } else {
        decimal(n / 10).push(digit_char(n % 10))
    }
}

/// A signed integer written in decimal, as `Display` writes it.
pub open spec fn signed_decimal(i: int) -> Seq<char> {
    if i < 0 {
        seq!['-'] + decimal((-i) as nat)
    } else {
        decimal(i as nat)
    }
}

/// The value of a non-empty run of ASCII digits.
pub open spec fn digits_value(s: Seq<char>) -> nat
    decreases s.len(),
{
    if s.len() == 0 {
        0
    } else {
        digits_value(s.drop_last()) * 10 + digit_value(s.last())
    }
}

pub open spec fn all_digits(s: Seq<char>) -> bool {
    forall|i: int| 0 <= i < s.len() ==> is_digit(#[trigger] s[i])
}

/// `str::parse::<usize>`: an optional `+` and at least one ASCII digit,
/// with a value that fits.
pub open spec fn parse_usize(s: Seq<char>) -> Option<usize> {
    let body = if s.len() > 0 && s[0] == '+' { s.drop_first() } else { s };
    if body.len() > 0 && all_digits(body) && digits_value(body) <= usize::MAX {
        Some(digits_value(body) as usize)
    } else {
        None
    }
}

/// `str::parse::<i64>`: an optional `+` or `-` and at least one ASCII
/// digit, with a value that fits.
pub open spec fn parse_i64(s: Seq<char>) -> Option<i64> {
    let neg = s.len() > 0 && s[0] == '-';
    let body = if s.len() > 0 && (s[0] == '+' || s[0] == '-') { s.drop_first() } else { s };
    let v: int = if neg { -(digits_value(body) as int) } else { digits_value(body) as int };
    if body.len() > 0 && all_digits(body) && i64::MIN <= v <= i64::MAX {
        Some(v as i64)
    } else {
        None
    }
}

// ---------------------------------------------------------------------------
// Lemmas about the model.
// ---------------------------------------------------------------------------

pub proof fn lemma_split_nonempty(s: Seq<char>, c: char)
    ensures
        split(s, c).len() >= 1,
    decreases s.len(),
{
    if s.len() > 0 {
        lemma_split_nonempty(s.drop_last(), c);
    }
}


pub proof fn lemma_split_pat_nonempty(s: Seq<char>, p: Seq<char>)
    ensures
        split_pat(s, p).len() >= 1,
    decreases s.len(),
{
    if p.len() > 0 && s.len() >= p.len() {
        if s.take(p.len() as int) == p {
            lemma_split_pat_nonempty(s.skip(p.len() as int), p);
        } else {
            lemma_split_pat_nonempty(s.drop_first(), p);
        }
    }
}


pub proof fn lemma_split_last_empty(s: Seq<char>, c: char)
    requires
        s.len() > 0,
        s.last() == c,
    ensures
        split(s, c).last().len() == 0,
        split(s, c).len() >= 2,
{
    lemma_split_nonempty(s.drop_last(), c);
}

/// Splitting text that follows a separator (or nothing) continues the
/// pieces of what came before.
pub proof fn lemma_split_append(s: Seq<char>, t: Seq<char>, c: char)
    requires
        s.len() == 0 || s.last() == c,
    ensures
        split(s + t, c) == split(s, c).drop_last() + split(t, c),
    decreases t.len(),
{
    lemma_split_nonempty(s, c);
    if t.len() == 0 {
        assert(s + t =~= s);
        if s.len() > 0 {
            lemma_split_last_empty(s, c);
        }
        assert(split(s, c).drop_last() + split(t, c) =~= split(s, c));
    } else {
        lemma_split_append(s, t.drop_last(), c);
        assert((s + t).drop_last() =~= s + t.drop_last());
        assert((s + t).last() == t.last());
        lemma_split_nonempty(t.drop_last(), c);
        let a = split(s, c).drop_last();
        let b = split(t.drop_last(), c);
        if t.last() == c {
            assert(split(s + t, c) =~= a + b.push(Seq::<char>::empty()));
        } else {
            assert((a + b).update((a + b).len() - 1, (a + b).last().push(t.last())) =~= a + b.update(
                b.len() - 1,
                b.last().push(t.last()),
            ));
        }
    }
}

/// Text without the separator is one piece.
pub proof fn lemma_split_plain(l: Seq<char>, c: char)
    requires
        forall|i: int| 0 <= i < l.len() ==> #[trigger] l[i] != c,
    ensures
        split(l, c) == seq![l],
    decreases l.len(),
{
    if l.len() > 0 {
        assert forall|i: int| 0 <= i < l.drop_last().len() implies #[trigger] l.drop_last()[i] != c by {
            assert(l.drop_last()[i] == l[i]);
        }
        lemma_split_plain(l.drop_last(), c);
        assert(l[l.len() - 1] != c);
        assert(l.drop_last().push(l.last()) =~= l);
        assert(seq![l.drop_last()].update(0, l.drop_last().push(l.last())) =~= seq![l]);
    } else {
        assert(l =~= Seq::<char>::empty());
    }
}

/// Appending one ended line to text that ends a line (or is empty) adds
/// that line to its lines.
pub proof fn lemma_lines_append(s: Seq<char>, l: Seq<char>)
    requires
        s.len() == 0 || s.last() == '\n',
        forall|i: int| 0 <= i < l.len() ==> #[trigger] l[i] != '\n',
        l.len() == 0 || l.last() != '\r',
    ensures
        lines_of(s + l + seq!['\n']) == lines_of(s).push(l),
{
    let t = l + seq!['\n'];
    assert(s + l + seq!['\n'] =~= s + t);
    lemma_split_append(s, t, '\n');
    lemma_split_plain(l, '\n');
    assert(t.drop_last() =~= l);
    assert(split(t, '\n') =~= seq![l, Seq::<char>::empty()]);
    let a = split(s, '\n').drop_last();
    assert(split(s + t, '\n') =~= a + seq![l, Seq::<char>::empty()]);
    assert(split(s + t, '\n').drop_last() =~= a.push(l));
    assert((s + t).last() == '\n');
    assert(strip_cr(l) == l);
    assert(a.push(l).map_values(|x: Seq<char>| strip_cr(x)) =~= a.map_values(|x: Seq<char>| strip_cr(x)).push(l));
}

pub proof fn lemma_trim_start_skip(s: Seq<char>, i: int)
    requires
        0 <= i <= s.len(),
        forall|j: int| 0 <= j < i ==> is_ws(#[trigger] s[j]),
    ensures
        trim_start(s) == trim_start(s.skip(i)),
    decreases i,
{
    if i > 0 {
        assert(s.skip(1) =~= s.drop_first());
        lemma_trim_start_skip(s.drop_first(), i - 1);
        assert(s.drop_first().skip(i - 1) =~= s.skip(i));
    } else {
        assert(s.skip(0) =~= s);
    }
}

pub proof fn lemma_trim_end_take(s: Seq<char>, j: int)
    requires
        0 <= j <= s.len(),
        forall|k: int| j <= k < s.len() ==> is_ws(#[trigger] s[k]),
    ensures
        trim_end(s) == trim_end(s.take(j)),
    decreases s.len() - j,
{
    if j < s.len() {
        assert(s.drop_last() =~= s.take(s.len() - 1));
        lemma_trim_end_take(s.drop_last(), j);
        assert(s.drop_last().take(j) =~= s.take(j));
    } else {
        assert(s.take(j) =~= s);
    }
}


// ---------------------------------------------------------------------------
// std operations on String whose behaviour vstd leaves unstated.
// ---------------------------------------------------------------------------

/// `String::push`: appends one char.
#[verifier::external_body]
pub(crate) fn push_char(s: &mut String, c: char)
    ensures
        final(s)@ == old(s)@.push(c),
{
    s.push(c)
}

/// Appends a string.
pub fn push_str(s: &mut String, t: &str)
    ensures
        final(s)@ == old(s)@ + t@,
{
    s.append(t)
}

// ---------------------------------------------------------------------------
// Executable text operations, proved against the model.
// ---------------------------------------------------------------------------

/// The characters of a string, in order.
pub fn to_chars(s: &str) -> (r: Vec<char>)
    ensures
        r@ == s@,
{
    let mut out: Vec<char> = Vec::new();
    for c in it: s.chars()
        invariant
            out@ == it.seq().take(it.index() as int),
    {
        out.push(c);
    }
    out
}

/// A string made of the given chars.
pub fn from_chars(v: &[char]) -> (r: String)
    ensures
        r@ == v@,
{
    let mut out = String::new();
    let n = v.len();
    for i in 0..n
        invariant
            n == v@.len(),
            out@ == v@.take(i as int),
    {
        push_char(&mut out, v[i]);
        assert(v@.take(i + 1) =~= v@.take(i as int).push(v@[i as int]));
    }
    assert(v@.take(n as int) =~= v@);
    out
}

/// A copy of the string.
pub fn copy_str(s: &str) -> (r: String)
    ensures
        r@ == s@,
{
    let mut out = String::new();
    push_str(&mut out, s);
    assert(out@ =~= s@);
    out
}

/// Two strings of the same chars.
pub fn str_eq(a: &str, b: &str) -> (r: bool)
    ensures
        r == (a@ == b@),
{
    let x = to_chars(a);
    let y = to_chars(b);
    chars_eq(x.as_slice(), y.as_slice())
}

/// Two char sequences equal.
pub fn chars_eq(a: &[char], b: &[char]) -> (r: bool)
    ensures
        r == (a@ == b@),
{
    if a.len() != b.len() {
        return false;
    }
    let n = a.len();
    for i in 0..n
        invariant
            n == a@.len(),
            n == b@.len(),
            forall|j: int| 0 <= j < i ==> a@[j] == b@[j],
    {
        if a[i] != b[i] {
            return false;
        }
    }
    assert(a@ =~= b@);
    true
}

/// Two byte sequences equal.
pub fn bytes_eq(a: &[u8], b: &[u8]) -> (r: bool)
    ensures
        r == (a@ == b@),
{
    if a.len() != b.len() {
        return false;
    }
    let n = a.len();
    for i in 0..n
        invariant
            n == a@.len(),
            n == b@.len(),
            forall|j: int| 0 <= j < i ==> a@[j] == b@[j],
    {
        if a[i] != b[i] {
            return false;
        }
    }
    assert(a@ =~= b@);
    true
}

/// Whether `p` occurs in `s` at position `i`.
pub fn occurs_at_exec(s: &[char], p: &[char], i: usize) -> (r: bool)
    ensures
        r == occurs_at(s@, p@, i as int),
{
    if i > s.len() || p.len() > s.len() - i {
        return false;
    }
    let n = p.len();
    let sl = s.len();
    for k in 0..n
        invariant
            n == p@.len(),
            sl == s@.len(),
            i + n <= sl,
            forall|j: int| 0 <= j < k ==> s@[i + j] == p@[j],
    {
        assert(i + k < s@.len());
        if s[i + k] != p[k] {
            assert(s@.subrange(i as int, i + n)[k as int] != p@[k as int]);
            return false;
        }
    }
    assert(s@.subrange(i as int, i + n) =~= p@);
    true
}

/// Whether `p` occurs somewhere in `s`.
pub fn contains_chars(s: &[char], p: &[char]) -> (r: bool)
    ensures
        r == contains(s@, p@),
{
    if p.len() > s.len() {
        assert forall|i: int| !occurs_at(s@, p@, i) by {}
        return false;
    }
    let last = s.len() - p.len();
    let mut i: usize = 0;
    loop
        invariant
            last == s@.len() - p@.len(),
            i <= last,
            forall|j: int| 0 <= j < i ==> !occurs_at(s@, p@, j),
        decreases last - i,
    {
        if occurs_at_exec(s, p, i) {
            return true;
        }
        if i == last {
            assert forall|j: int| !occurs_at(s@, p@, j) by {
                if 0 <= j < i {
                }
            }
            return false;
        }
        i = i + 1;
    }
}

/// Whether the string `p` occurs in the string `s`.
pub fn str_contains(s: &str, p: &str) -> (r: bool)
    ensures
        r == contains(s@, p@),
{
    let x = to_chars(s);
    let y = to_chars(p);
    contains_chars(x.as_slice(), y.as_slice())
}

/// Whether `s` begins with `p`.
pub fn starts_with_chars(s: &[char], p: &[char]) -> (r: bool)
    ensures
        r == starts_with(s@, p@),
{
    let r = occurs_at_exec(s, p, 0);
    assert(s@.subrange(0, p@.len() as int) =~= s@.take(p@.len() as int));
    r
}

/// The index of the first char of `s` that is not whitespace (or its length).
fn first_non_ws(s: &[char]) -> (i: usize)
    ensures
        i <= s@.len(),
        forall|j: int| 0 <= j < i ==> is_ws(#[trigger] s@[j]),
        i < s@.len() ==> !is_ws(s@[i as int]),
{
    let mut i: usize = 0;
    while i < s.len() && is_ws_exec(s[i])
        invariant
            i <= s@.len(),
            forall|j: int| 0 <= j < i ==> is_ws(#[trigger] s@[j]),
        decreases s@.len() - i,
    {
        i = i + 1;
    }
    i
}

/// `char::is_whitespace`.
pub fn is_ws_exec(c: char) -> (r: bool)
    ensures
        r == is_ws(c),
{
    ('\u{9}' <= c && c <= '\u{d}') || c == ' ' || c == '\u{85}' || c == '\u{a0}' || c == '\u{1680}'
        || ('\u{2000}' <= c && c <= '\u{200a}') || c == '\u{2028}' || c == '\u{2029}' || c
        == '\u{202f}' || c == '\u{205f}' || c == '\u{3000}'
}

/// `str::trim` on chars.
pub fn trim_chars(s: &[char]) -> (r: Vec<char>)
    ensures
        r@ == trim(s@),
{
    let i = first_non_ws(s);
    let mut j: usize = s.len();
    while j > i && is_ws_exec(s[j - 1])
        invariant
            i <= j <= s@.len(),
            forall|k: int| j <= k < s@.len() ==> is_ws(#[trigger] s@[k]),
        decreases j,
    {
        j = j - 1;
    }
    proof {
        lemma_trim_start_skip(s@, i as int);
        let t = s@.skip(i as int);
        if i < s@.len() {
            assert(trim_start(t) == t);
        } else {
            assert(t.len() == 0);
        }
        assert forall|k: int| j - i <= k < t.len() implies is_ws(#[trigger] t[k]) by {
            assert(t[k] == s@[i + k]);
        }
        lemma_trim_end_take(t, j - i);
        let u = t.take(j - i);
        if j > i {
            assert(u.last() == s@[j - 1]);
            assert(trim_end(u) == u);
        }
        assert(u =~= s@.subrange(i as int, j as int));
    }
    let mut out: Vec<char> = Vec::new();
    let mut k = i;
    while k < j
        invariant
            i <= k <= j,
            j <= s@.len(),
            out@ == s@.subrange(i as int, k as int),
        decreases j - k,
    {
        out.push(s[k]);
        assert(s@.subrange(i as int, k + 1) =~= s@.subrange(i as int, k as int).push(s@[k as int]));
        k = k + 1;
    }
    out
}

/// `str::trim`, giving a new string.
pub fn trim_str(s: &str) -> (r: String)
    ensures
        r@ == trim(s@),
{
    let x = to_chars(s);
    let t = trim_chars(x.as_slice());
    from_chars(t.as_slice())
}

/// `str::split` on one char.
pub fn split_chars(s: &[char], c: char) -> (r: Vec<Vec<char>>)
    ensures
        r@.len() == split(s@, c).len(),
        forall|i: int| 0 <= i < r@.len() ==> #[trigger] r@[i]@ == split(s@, c)[i],
{
    let mut pieces: Vec<Vec<char>> = Vec::new();
    let mut cur: Vec<char> = Vec::new();
    let n = s.len();
    for i in 0..n
        invariant
            n == s@.len(),
            pieces@.len() + 1 == split(s@.take(i as int), c).len(),
            forall|k: int|
                0 <= k < pieces@.len() ==> #[trigger] pieces@[k]@ == split(s@.take(i as int), c)[k],
            cur@ == split(s@.take(i as int), c).last(),
    {
        proof {
            assert(s@.take(i + 1).drop_last() =~= s@.take(i as int));
            assert(s@.take(i + 1).last() == s@[i as int]);
            lemma_split_nonempty(s@.take(i as int), c);
        }
        if s[i] == c {
            pieces.push(cur);
            cur = Vec::new();
        } else {
            cur.push(s[i]);
        }
    }
    pieces.push(cur);
    proof {
        assert(s@.take(n as int) =~= s@);
    }
    pieces
}

/// `str::split` on one char, giving strings.
pub fn split_str(s: &str, c: char) -> (r: Vec<String>)
    ensures
        r@.len() == split(s@, c).len(),
        forall|i: int| 0 <= i < r@.len() ==> #[trigger] r@[i]@ == split(s@, c)[i],
{
    let x = to_chars(s);
    let parts = split_chars(x.as_slice(), c);
    let mut out: Vec<String> = Vec::new();
    let n = parts.len();
    for i in 0..n
        invariant
            n == parts@.len(),
            n == split(s@, c).len(),
            forall|k: int| 0 <= k < n ==> #[trigger] parts@[k]@ == split(s@, c)[k],
            out@.len() == i,
            forall|k: int| 0 <= k < i ==> #[trigger] out@[k]@ == split(s@, c)[k],
    {
        let p = from_chars(parts[i].as_slice());
        out.push(p);
    }
    out
}


/// `str::split` with a non-empty string pattern.
pub fn split_pat_chars(s: &[char], p: &[char]) -> (r: Vec<Vec<char>>)
    requires
        p@.len() > 0,
    ensures
        r@.len() == split_pat(s@, p@).len(),
        forall|i: int| 0 <= i < r@.len() ==> #[trigger] r@[i]@ == split_pat(s@, p@)[i],
{
    let mut pieces: Vec<Vec<char>> = Vec::new();
    let mut cur: Vec<char> = Vec::new();
    let n = s.len();
    let mut i: usize = 0;
    assert(s@.skip(0) =~= s@);
    proof {
        lemma_split_pat_nonempty(s@, p@);
        assert(prepend_first(cur@, split_pat(s@, p@)) =~= split_pat(s@, p@));
    }
    while i < n
        invariant
            n == s@.len(),
            i <= n,
            p@.len() > 0,
            split_pat(s@.skip(i as int), p@).len() >= 1,
            forall|k: int| 0 <= k < pieces@.len() ==> #[trigger] pieces@[k]@ == split_pat(s@, p@)[k],
            pieces@.len() + split_pat(s@.skip(i as int), p@).len() == split_pat(s@, p@).len(),
            forall|k: int|
                0 <= k < split_pat(s@.skip(i as int), p@).len() ==> #[trigger] prepend_first(
                    cur@,
                    split_pat(s@.skip(i as int), p@),
                )[k] == split_pat(s@, p@)[pieces@.len() + k],
        decreases n - i,
    {
        let ghost rest = s@.skip(i as int);
        let ghost old_pieces = pieces@;
        let ghost old_cur = cur@;
        if p.len() <= n - i && occurs_at_exec(s, p, i) {
            proof {
                assert(rest.take(p@.len() as int) =~= s@.subrange(i as int, i + p@.len()));
                assert(rest.skip(p@.len() as int) =~= s@.skip(i + p@.len()));
                lemma_split_pat_nonempty(s@.skip(i + p@.len()), p@);
                let tail = split_pat(s@.skip(i + p@.len()), p@);
                assert(split_pat(rest, p@) =~= seq![Seq::<char>::empty()] + tail);
                assert(prepend_first(old_cur, split_pat(rest, p@))[0] =~= old_cur);
                assert forall|k: int| 0 <= k < tail.len() implies #[trigger] prepend_first(
                    Seq::<char>::empty(),
                    tail,
                )[k] == split_pat(s@, p@)[old_pieces.len() + 1 + k] by {
                    assert(prepend_first(old_cur, split_pat(rest, p@))[k + 1] == tail[k]);
                    if k == 0 {
                        assert(prepend_first(Seq::<char>::empty(), tail)[0] =~= tail[0]);
                    }
                }
            }
            pieces.push(cur);
            cur = Vec::new();
            i = i + p.len();
        } else {
            proof {
                let rest1 = s@.skip(i + 1);
                assert(rest.drop_first() =~= rest1);
                lemma_split_pat_nonempty(rest1, p@);
                if p@.len() <= rest.len() {
                    assert(rest.take(p@.len() as int) =~= s@.subrange(i as int, i + p@.len()));
                    assert(split_pat(rest, p@) == split_pat(rest1, p@).update(
                        0,
                        seq![s@[i as int]] + split_pat(rest1, p@)[0],
                    ));
                    assert forall|k: int| 0 <= k < split_pat(rest1, p@).len() implies #[trigger] prepend_first(
                        old_cur.push(s@[i as int]),
                        split_pat(rest1, p@),
                    )[k] == split_pat(s@, p@)[old_pieces.len() + k] by {
                        assert(prepend_first(old_cur, split_pat(rest, p@))[k] == split_pat(s@, p@)[old_pieces.len() + k]);
                        if k == 0 {
                            assert(old_cur.push(s@[i as int]) + split_pat(rest1, p@)[0] =~= old_cur + (seq![s@[i as int]] + split_pat(rest1, p@)[0]));
                        }
                    }
                } else {
                    assert(split_pat(rest, p@) == seq![rest]);
                    assert(split_pat(rest1, p@) == seq![rest1]);
                    assert(prepend_first(old_cur.push(s@[i as int]), split_pat(rest1, p@))[0] =~= prepend_first(old_cur, split_pat(rest, p@))[0]);
                }
            }
            cur.push(s[i]);
            i = i + 1;
        }
    }
    proof {
        assert(s@.skip(n as int) =~= Seq::<char>::empty());
        assert(split_pat(Seq::<char>::empty(), p@) == seq![Seq::<char>::empty()]);
        assert(prepend_first(cur@, seq![Seq::<char>::empty()])[0] =~= cur@);
    }
    pieces.push(cur);
    pieces
}

/// `str::split` with a non-empty string pattern, giving strings.
pub fn split_pat_str(s: &str, p: &str) -> (r: Vec<String>)
    requires
        p@.len() > 0,
    ensures
        r@.len() == split_pat(s@, p@).len(),
        r@.len() >= 1,
        forall|i: int| 0 <= i < r@.len() ==> #[trigger] r@[i]@ == split_pat(s@, p@)[i],
{
    let x = to_chars(s);
    let y = to_chars(p);
    let parts = split_pat_chars(x.as_slice(), y.as_slice());
    proof {
        lemma_split_pat_nonempty(s@, p@);
    }
    let mut out: Vec<String> = Vec::new();
    let n = parts.len();
    for i in 0..n
        invariant
            n == parts@.len(),
            n == split_pat(s@, p@).len(),
            forall|k: int| 0 <= k < n ==> #[trigger] parts@[k]@ == split_pat(s@, p@)[k],
            out@.len() == i,
            forall|k: int| 0 <= k < i ==> #[trigger] out@[k]@ == split_pat(s@, p@)[k],
    {
        out.push(from_chars(parts[i].as_slice()));
    }
    out
}

/// `str::lines`.
pub fn lines_str(s: &str) -> (r: Vec<String>)
    ensures
        r.deep_view() == lines_of(s@),
{
    let p = split_str(s, '\n');
    proof {
        lemma_split_nonempty(s@, '\n');
    }
    let ghost pv = split(s@, '\n');
    let n = p.len();
    let mut out: Vec<String> = Vec::new();
    for i in 0..n - 1
        invariant
            n == p@.len(),
            n >= 1,
            pv == split(s@, '\n'),
            n == pv.len(),
            forall|k: int| 0 <= k < n ==> #[trigger] p@[k]@ == pv[k],
            out@.len() == i,
            forall|k: int| 0 <= k < i ==> #[trigger] out@[k]@ == strip_cr(pv[k]),
    {
        let v = to_chars(p[i].as_str());
        if v.len() > 0 && v[v.len() - 1] == '\r' {
            let mut w: Vec<char> = Vec::new();
            let m = v.len() - 1;
            for j in 0..m
                invariant
                    m == v@.len() - 1,
                    w@ == v@.take(j as int),
            {
                w.push(v[j]);
                assert(v@.take(j + 1) =~= v@.take(j as int).push(v@[j as int]));
            }
            assert(v@.take(m as int) =~= v@.drop_last());
            out.push(from_chars(w.as_slice()));
        } else {
            out.push(copy_str(p[i].as_str()));
        }
    }
    let sv = to_chars(s);
    let ended = sv.len() == 0 || sv[sv.len() - 1] == '\n';
    if !ended {
        out.push(copy_str(p[n - 1].as_str()));
    }
    assert(out.deep_view() =~= lines_of(s@));
    out
}

/// The pieces laid end to end.
pub fn concat_strs(parts: &Vec<String>) -> (r: String)
    ensures
        r@ == concat(parts.deep_view()),
{
    let mut out = String::new();
    let n = parts.len();
    for i in 0..n
        invariant
            n == parts@.len(),
            out@ == concat(parts.deep_view().take(i as int)),
    {
        proof {
            let dv = parts.deep_view();
            assert(dv.take(i + 1).drop_last() =~= dv.take(i as int));
            assert(dv.take(i + 1).last() == parts@[i as int]@);
        }
        push_str(&mut out, parts[i].as_str());
    }
    proof {
        assert(parts.deep_view().take(n as int) =~= parts.deep_view());
    }
    out
}

/// `str::replace` with a non-empty pattern.
pub fn replace_chars(s: &[char], p: &[char], r: &[char]) -> (out: Vec<char>)
    requires
        p@.len() > 0,
    ensures
        out@ == replace(s@, p@, r@),
{
    let mut out: Vec<char> = Vec::new();
    let mut i: usize = 0;
    let n = s.len();
    assert(s@.skip(0) =~= s@);
    while i < n
        invariant
            n == s@.len(),
            i <= n,
            p@.len() > 0,
            out@ + replace(s@.skip(i as int), p@, r@) == replace(s@, p@, r@),
        decreases n - i,
    {
        let ghost rest = s@.skip(i as int);
        if p.len() <= n - i && occurs_at_exec(s, p, i) {
            proof {
                assert(rest.take(p@.len() as int) =~= s@.subrange(i as int, i + p@.len()));
                assert(rest.skip(p@.len() as int) =~= s@.skip(i + p@.len()));
            }
            let mut k: usize = 0;
            let m = r.len();
            let ghost before = out@;
            while k < m
                invariant
                    m == r@.len(),
                    k <= m,
                    out@ == before + r@.take(k as int),
                decreases m - k,
            {
                out.push(r[k]);
                assert(r@.take(k + 1) =~= r@.take(k as int).push(r@[k as int]));
                k = k + 1;
            }
            proof {
                assert(r@.take(m as int) =~= r@);
                assert(before + (r@ + replace(s@.skip(i + p@.len()), p@, r@)) =~= (before + r@)
                    + replace(s@.skip(i + p@.len()), p@, r@));
            }
            i = i + p.len();
        } else {
            proof {
                if p@.len() <= rest.len() {
                    assert(rest.take(p@.len() as int) =~= s@.subrange(i as int, i + p@.len()));
                    assert(rest.take(p@.len() as int) != p@);
                    assert(rest.drop_first() =~= s@.skip(i + 1));
                    assert(out@ + (seq![s@[i as int]] + replace(s@.skip(i + 1), p@, r@)) =~= out@.push(
                        s@[i as int],
                    ) + replace(s@.skip(i + 1), p@, r@));
                } else {
                    // the rest is too short to hold the pattern: it is kept as it is
                    assert(replace(rest, p@, r@) == rest);
                    let rest1 = s@.skip(i + 1);
                    assert(rest1.len() < p@.len());
                    assert(replace(rest1, p@, r@) == rest1);
                    assert(out@ + rest =~= out@.push(s@[i as int]) + rest1);
                }
            }
            out.push(s[i]);
            i = i + 1;
        }
    }
    proof {
        assert(s@.skip(n as int) =~= Seq::<char>::empty());
        assert(out@ + Seq::<char>::empty() =~= out@);
    }
    out
}

/// `str::replace` with a non-empty pattern, on strings.
pub fn replace_str(s: &str, p: &str, r: &str) -> (out: String)
    requires
        p@.len() > 0,
    ensures
        out@ == replace(s@, p@, r@),
{
    let x = to_chars(s);
    let y = to_chars(p);
    let z = to_chars(r);
    let o = replace_chars(x.as_slice(), y.as_slice(), z.as_slice());
    from_chars(o.as_slice())
}

/// The decimal form of a `usize`.
pub fn decimal_string(n: usize) -> (r: String)
    ensures
        r@ == decimal(n as nat),
{
    let v = decimal_chars(n);
    from_chars(v.as_slice())
}

fn digit_char_exec(d: usize) -> (c: char)
    requires
        d < 10,
    ensures
        c == digit_char(d as nat),
{
    if d == 0 { '0' }
    else if d == 1 { '1' }
    else if d == 2 { '2' }
    else if d == 3 { '3' }
    else if d == 4 { '4' }
    else if d == 5 { '5' }
    else if d == 6 { '6' }
    else if d == 7 { '7' }
    else if d == 8 { '8' }
    else { '9' }
}

/// The decimal digits of `n`.
pub fn decimal_chars(n: usize) -> (r: Vec<char>)
    ensures
        r@ == decimal(n as nat),
    decreases n,
{
    if n < 10 {
        let mut v: Vec<char> = Vec::new();
        v.push(digit_char_exec(n));
        assert(v@ =~= seq![digit_char(n as nat)]);
        v
    } else {
        let mut v = decimal_chars(n / 10);
        v.push(digit_char_exec(n % 10));
        v
    }
}

/// The decimal form of an `i32`, with a minus sign when negative.
pub fn signed_decimal_string(i: i32) -> (r: String)
    ensures
        r@ == signed_decimal(i as int),
{
    if i < 0 {
        let m: u32 = if i == i32::MIN { 2147483648u32 } else { (-i) as u32 };
        let d = decimal_chars(m as usize);
        let mut v: Vec<char> = Vec::new();
        v.push('-');
        let mut k: usize = 0;
        let ghost first = v@;
        while k < d.len()
            invariant
                first == seq!['-'],
                k <= d@.len(),
                v@ == first + d@.take(k as int),
            decreases d@.len() - k,
        {
            v.push(d[k]);
            assert(d@.take(k + 1) =~= d@.take(k as int).push(d@[k as int]));
            k = k + 1;
        }
        assert(d@.take(d@.len() as int) =~= d@);
        from_chars(v.as_slice())
    } else {
        decimal_string(i as usize)
    }
}

/// `str::parse::<usize>`.
pub fn parse_usize_chars(s: &[char]) -> (r: Option<usize>)
    ensures
        r == parse_usize(s@),
{
    let start: usize = if s.len() > 0 && s[0] == '+' { 1 } else { 0 };
    let ghost body = if s@.len() > 0 && s@[0] == '+' { s@.drop_first() } else { s@ };
    assert(body =~= s@.skip(start as int));
    if start >= s.len() {
        return None;
    }
    let mut acc: usize = 0;
    let mut i = start;
    while i < s.len()
        invariant
            start <= i <= s@.len(),
            body == s@.skip(start as int),
            body == (if s@.len() > 0 && s@[0] == '+' { s@.drop_first() } else { s@ }),
            all_digits(s@.subrange(start as int, i as int)),
            acc == digits_value(s@.subrange(start as int, i as int)),
        decreases s@.len() - i,
    {
        let c = s[i];
        let ghost pre = s@.subrange(start as int, i as int);
        let ghost next = s@.subrange(start as int, i + 1);
        assert(next.drop_last() =~= pre);
        assert(next.last() == c);
        if !('0' <= c && c <= '9') {
            proof {
                assert(body[i - start] == c);
                assert(!is_digit(body[i - start]));
                assert(!all_digits(body));
            }
            return None;
        }
        let d = ((c as u32) - ('0' as u32)) as usize;
        if acc > (usize::MAX - d) / 10 {
            proof {
                assert forall|j: int| 0 <= j < next.len() implies is_digit(#[trigger] next[j]) by {
                    if j < pre.len() {
                        assert(next[j] == pre[j]);
                    }
                }
                assert(body.take(i + 1 - start) =~= next);
                lemma_digits_value_prefix_le(body, i + 1 - start);
                assert(body.take(i + 1 - start) =~= next);
                assert(digits_value(next) == acc * 10 + d);
                assert(acc * 10 + d > usize::MAX) by (nonlinear_arith)
                    requires
                        acc > (usize::MAX - d) / 10,
                        d < 10,
                ;
            }
            return None;
        }
        assert(acc * 10 + d <= usize::MAX) by (nonlinear_arith)
            requires
                acc <= (usize::MAX - d) / 10,
                d < 10,
        ;
        acc = acc * 10 + d;
        i = i + 1;
    }
    assert(s@.subrange(start as int, s@.len() as int) =~= body);
    Some(acc)
}

/// A prefix of a digit run is worth no more than the whole run.
pub proof fn lemma_digits_value_prefix_le(s: Seq<char>, k: int)
    requires
        0 <= k <= s.len(),
        all_digits(s) || all_digits(s.take(k)),
    ensures
        all_digits(s) ==> digits_value(s.take(k)) <= digits_value(s),
    decreases s.len() - k,
{
    if all_digits(s) && k < s.len() {
        assert(s.drop_last() =~= s.take(s.len() - 1));
        assert(all_digits(s.drop_last()));
        lemma_digits_value_prefix_le(s.drop_last(), k);
        assert(s.drop_last().take(k) =~= s.take(k));
        assert(digits_value(s) == digits_value(s.drop_last()) * 10 + digit_value(s.last()));
        assert(digits_value(s.drop_last()) <= digits_value(s)) by (nonlinear_arith)
            requires
                digits_value(s) == digits_value(s.drop_last()) * 10 + digit_value(s.last()),
        ;
    } else if k == s.len() {
        assert(s.take(k) =~= s);
    }
}

/// The value of the digits from `start` on, where they are a non-empty
/// run of ASCII digits worth no more than `bound`.
fn digits_up_to(s: &[char], start: usize, bound: u64) -> (r: Option<u64>)
    requires
        start <= s@.len(),
    ensures
        r == (if s@.skip(start as int).len() > 0 && all_digits(s@.skip(start as int)) && digits_value(
            s@.skip(start as int),
        ) <= bound {
            Some(digits_value(s@.skip(start as int)) as u64)
        } else {
            None::<u64>
        }),
{
    let ghost body = s@.skip(start as int);
    if start >= s.len() {
        return None;
    }
    let mut acc: u64 = 0;
    let mut i = start;
    while i < s.len()
        invariant
            start <= i <= s@.len(),
            body == s@.skip(start as int),
            all_digits(s@.subrange(start as int, i as int)),
            acc == digits_value(s@.subrange(start as int, i as int)),
            acc <= bound,
        decreases s@.len() - i,
    {
        let c = s[i];
        let ghost pre = s@.subrange(start as int, i as int);
        let ghost next = s@.subrange(start as int, i + 1);
        assert(next.drop_last() =~= pre);
        assert(next.last() == c);
        if !('0' <= c && c <= '9') {
            proof {
                assert(body[i - start] == c);
                assert(!is_digit(body[i - start]));
                assert(!all_digits(body));
            }
            return None;
        }
        let d = ((c as u32) - ('0' as u32)) as u64;
        if d > bound || acc > (bound - d) / 10 {
            proof {
                assert forall|j: int| 0 <= j < next.len() implies is_digit(#[trigger] next[j]) by {
                    if j < pre.len() {
                        assert(next[j] == pre[j]);
                    }
                }
                assert(digits_value(next) == acc * 10 + d);
                if all_digits(body) {
                    assert(body.take(i + 1 - start) =~= next);
                    lemma_digits_value_prefix_le(body, i + 1 - start);
                }
                if d <= bound {
                    assert(acc * 10 + d > bound) by (nonlinear_arith)
                        requires
                            acc > (bound - d) / 10,
                            d <= bound,
                    ;
                } else {
                    assert(acc * 10 + d > bound) by (nonlinear_arith)
                        requires
                            d > bound,
                            acc >= 0,
                    ;
                }
            }
            return None;
        }
        assert(acc * 10 + d <= bound) by (nonlinear_arith)
            requires
                acc <= (bound - d) / 10,
                d <= bound,
        ;
        proof {
            assert forall|j: int| 0 <= j < next.len() implies is_digit(#[trigger] next[j]) by {
                if j < pre.len() {
                    assert(next[j] == pre[j]);
                }
            }
        }
        acc = acc * 10 + d;
        i = i + 1;
    }
    assert(s@.subrange(start as int, s@.len() as int) =~= body);
    Some(acc)
}

/// `str::parse::<i64>`.
pub fn parse_i64_chars(s: &[char]) -> (r: Option<i64>)
    ensures
        r == parse_i64(s@),
{
    let neg = s.len() > 0 && s[0] == '-';
    let start: usize = if s.len() > 0 && (s[0] == '+' || s[0] == '-') { 1 } else { 0 };
    let ghost body = if s@.len() > 0 && (s@[0] == '+' || s@[0] == '-') { s@.drop_first() } else { s@ };
    assert(body =~= s@.skip(start as int));
    let bound: u64 = if neg { 9223372036854775808 } else { 9223372036854775807 };
    match digits_up_to(s, start, bound) {
        None => None,
        Some(m) => {
            if neg {
                if m == 9223372036854775808 {
                    Some(i64::MIN)
                } else {
                    let v = m as i64;
                    Some(-v)
                }
            } else {
                Some(m as i64)
            }
        },
    }
}

} // verus!
