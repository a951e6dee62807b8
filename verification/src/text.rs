//! Character-sequence toolkit shared by the installer's text handling:
//! matching, replacement, trimming, line splitting and decimal numbers.
//! Every executable function here is specified over `Seq<char>`.
use vstd::prelude::*;

verus! {

// ---------------------------------------------------------------------
// Specifications
// ---------------------------------------------------------------------

/// `p` occurs in `s` starting at index `i`.
pub open spec fn matches_at(s: Seq<char>, i: int, p: Seq<char>) -> bool {
    0 <= i && i + p.len() <= s.len() && s.subrange(i, i + p.len()) == p
}

pub open spec fn starts_with(s: Seq<char>, p: Seq<char>) -> bool {
    matches_at(s, 0, p)
}

pub open spec fn ends_with(s: Seq<char>, p: Seq<char>) -> bool {
    matches_at(s, s.len() - p.len(), p)
}

/// `p` occurs somewhere in `s` (the empty pattern occurs in every string).
pub open spec fn contains(s: Seq<char>, p: Seq<char>) -> bool {
    exists|i: int| matches_at(s, i, p)
}

/// Left-to-right, non-overlapping replacement of every occurrence of a
/// non-empty pattern `from` by `to`.
pub open spec fn replace_all(s: Seq<char>, from: Seq<char>, to: Seq<char>) -> Seq<char>
    recommends
        from.len() > 0,
    decreases s.len(),
{
    if from.len() == 0 || s.len() == 0 {
        s
    } else if matches_at(s, 0, from) {
        to + replace_all(s.skip(from.len() as int), from, to)
    } else {
        seq![s[0]] + replace_all(s.drop_first(), from, to)
    }
}

/// Unicode `White_Space`, the set that `char::is_whitespace` accepts.
pub open spec fn is_ws(c: char) -> bool {
    ||| c == '\t'
    ||| c == '\n'
    ||| c == '\u{0B}'
    ||| c == '\u{0C}'
    ||| c == '\r'
    ||| c == ' '
    ||| c == '\u{85}'
    ||| c == '\u{A0}'
    ||| c == '\u{1680}'
    ||| ('\u{2000}' <= c && c <= '\u{200A}')
    ||| c == '\u{2028}'
    ||| c == '\u{2029}'
    ||| c == '\u{202F}'
    ||| c == '\u{205F}'
    ||| c == '\u{3000}'
}

pub open spec fn trim_start(s: Seq<char>) -> Seq<char>
    decreases s.len(),
{
    if s.len() > 0 && is_ws(s[0]) {
        trim_start(s.drop_first())
    } else {
        s
    }
}

pub open spec fn trim_end(s: Seq<char>) -> Seq<char>
    decreases s.len(),
{
    if s.len() > 0 && is_ws(s.last()) {
        trim_end(s.drop_last())
    } else {
        s
    }
}

/// What `str::trim` keeps: the string without leading and trailing whitespace.
pub open spec fn trim(s: Seq<char>) -> Seq<char> {
    trim_end(trim_start(s))
}

/// Index of the first `c` in `s`, or `s.len()` when there is none.
pub open spec fn index_of_char(s: Seq<char>, c: char) -> int
    decreases s.len(),
{
    if s.len() == 0 {
        0
    } else if s[0] == c {
        0
    } else {
        1 + index_of_char(s.drop_first(), c)
    }
}

/// A line's text without the `\r` of a `\r\n` ending.
pub open spec fn strip_cr(line: Seq<char>) -> Seq<char> {
    if line.len() > 0 && line.last() == '\r' {
        line.drop_last()
    } else {
        line
    }
}

/// The lines of `s` as `str::lines` yields them: split at `\n`, a `\r`
/// before the `\n` removed, no empty last line after a final `\n`.
pub open spec fn lines(s: Seq<char>) -> Seq<Seq<char>>
    decreases s.len(),
{
    if s.len() == 0 {
        seq![]
    } else {
        let k = index_of_char(s, '\n');
        proof {
            lemma_index_of_char_bounds(s, '\n');
        }
        if k >= s.len() {
            seq![s]
        } else {
            seq![strip_cr(s.take(k))] + lines(s.skip(k + 1))
        }
    }
}

pub open spec fn digit_char(d: nat) -> char {
    if d == 0 {
        '0'
    } else if d == 1 {
        '1'
    } else if d == 2 {
        '2'
    } else if d == 3 {
        '3'
    } else if d == 4 {
        '4'
    } else if d == 5 {
        '5'
    } else if d == 6 {
        '6'
    } else if d == 7 {
        '7'
    } else if d == 8 {
        '8'
    } else {
        '9'
    }
}

/// Decimal representation of `n`, without leading zeros.
pub open spec fn dec(n: nat) -> Seq<char>
    decreases n,
{
    if n < 10 {
        seq![digit_char(n)]
    } else {
        dec(n / 10).push(digit_char(n % 10))
    }
}

pub open spec fn is_digit(c: char) -> bool {
    '0' <= c && c <= '9'
}

pub open spec fn digit_value(c: char) -> nat {
    (c as u32 - '0' as u32) as nat
}

pub open spec fn all_digits(s: Seq<char>) -> bool {
    forall|i: int| 0 <= i < s.len() ==> is_digit(#[trigger] s[i])
}

/// Value of a string of decimal digits.
pub open spec fn digits_value(s: Seq<char>) -> nat
    decreases s.len(),
{
    if s.len() == 0 {
        0
    } else {
        digits_value(s.drop_last()) * 10 + digit_value(s.last())
    }
}

/// What `str::parse::<u64>` accepts: an optional `+`, then one or more
/// decimal digits whose value fits in 64 bits.
pub open spec fn parse_u64_spec(s: Seq<char>) -> Option<u64> {
    let body = if s.len() > 0 && s[0] == '+' {
        s.drop_first()
    } else {
        s
    };
    if body.len() == 0 || !all_digits(body) || digits_value(body) > u64::MAX {
        None
    } else {
        Some(digits_value(body) as u64)
    }
}

/// Code point of `c` after ASCII lowercasing.
pub open spec fn ascii_lower(c: char) -> u32 {
    if 'A' <= c && c <= 'Z' {
        ((c as u32) + 32) as u32
    } else {
        c as u32
    }
}

/// `str::eq_ignore_ascii_case`.
pub open spec fn eq_ignore_ascii_case(a: Seq<char>, b: Seq<char>) -> bool {
    a.len() == b.len() && forall|i: int| 0 <= i < a.len() ==> ascii_lower(a[i]) == ascii_lower(
        b[i],
    )
}

/// The characters of an outcome's text on either side.
pub open spec fn res_view(r: Result<String, String>) -> Result<Seq<char>, Seq<char>> {
    match r {
        Ok(s) => Ok(s@),
        Err(e) => Err(e@),
    }
}

/// The characters of each string, in order.
pub open spec fn strings_view(v: Seq<String>) -> Seq<Seq<char>> {
    Seq::new(v.len(), |i: int| v[i]@)
}

/// The trimmed, non-empty items of a comma-separated list: what
/// `s.split(',').map(str::trim).filter(|x| !x.is_empty())` yields.
pub open spec fn csv_items(s: Seq<char>) -> Seq<Seq<char>>
    decreases s.len(),
{
    let k = index_of_char(s, ',');
    let item = trim(s.take(k));
    let head = if item.len() > 0 {
        seq![item]
    } else {
        Seq::<Seq<char>>::empty()
    };
    if k >= s.len() {
        head
    } else {
        proof {
            lemma_index_of_char_bounds(s, ',');
        }
        head + csv_items(s.skip(k + 1))
    }
}

/// The characters of each vector, in order.
pub open spec fn seqs_of(v: Seq<Vec<char>>) -> Seq<Seq<char>> {
    Seq::new(v.len(), |i: int| v[i]@)
}

// ---------------------------------------------------------------------
// Lemmas
// ---------------------------------------------------------------------

pub proof fn lemma_index_of_char_bounds(s: Seq<char>, c: char)
    ensures
        0 <= index_of_char(s, c) <= s.len(),
        index_of_char(s, c) < s.len() ==> s[index_of_char(s, c)] == c,
        forall|j: int| 0 <= j < index_of_char(s, c) ==> s[j] != c,
    decreases s.len(),
{
    if s.len() > 0 && s[0] != c {
        lemma_index_of_char_bounds(s.drop_first(), c);
        assert forall|j: int| 0 <= j < index_of_char(s, c) implies s[j] != c by {
            if j > 0 {
                assert(s[j] == s.drop_first()[j - 1]);
            }
        }
    }
}

/// The first `c` in `s` is at `k` when `s[k]` is `c` and no earlier
/// character is.
proof fn lemma_index_of_first(s: Seq<char>, c: char, k: int)
    requires
        0 <= k < s.len(),
        s[k] == c,
        forall|j: int| 0 <= j < k ==> s[j] != c,
    ensures
        index_of_char(s, c) == k,
{
    lemma_index_of_char_bounds(s, c);
}

/// `s` holds no `c`.
pub open spec fn no_char(s: Seq<char>, c: char) -> bool {
    forall|i: int| 0 <= i < s.len() ==> s[i] != c
}

/// A line that can be written back as it was read: no `\n`, no `\r`.
pub open spec fn plain_line(x: Seq<char>) -> bool {
    no_char(x, '\n') && no_char(x, '\r')
}

/// Lines, each followed by `\n`, concatenated.
pub open spec fn unlines(xs: Seq<Seq<char>>) -> Seq<char>
    decreases xs.len(),
{
    if xs.len() == 0 {
        Seq::empty()
    } else {
        unlines(xs.drop_last()) + xs.last() + "\n"@
    }
}

proof fn lemma_unlines_front(xs: Seq<Seq<char>>)
    requires
        xs.len() > 0,
    ensures
        unlines(xs) == xs[0] + "\n"@ + unlines(xs.drop_first()),
    decreases xs.len(),
{
    if xs.len() == 1 {
        assert(xs.drop_last() =~= Seq::<Seq<char>>::empty());
        assert(xs.drop_first() =~= Seq::<Seq<char>>::empty());
        assert(unlines(xs.drop_last()) == Seq::<char>::empty());
        assert(unlines(xs.drop_first()) == Seq::<char>::empty());
        assert(unlines(xs) =~= xs[0] + "\n"@ + unlines(xs.drop_first()));
    } else {
        lemma_unlines_front(xs.drop_last());
        assert(xs.drop_last()[0] == xs[0]);
        assert(xs.drop_last().drop_first() =~= xs.drop_first().drop_last());
        assert(xs.drop_first().last() == xs.last());
        assert(unlines(xs) =~= xs[0] + "\n"@ + unlines(xs.drop_first()));
    }
}

/// Reading back lines written one per `\n` gives the same lines.
pub proof fn lemma_lines_unlines(xs: Seq<Seq<char>>)
    requires
        forall|i: int| 0 <= i < xs.len() ==> plain_line(#[trigger] xs[i]),
    ensures
        lines(unlines(xs)) == xs,
    decreases xs.len(),
{
    if xs.len() == 0 {
        assert(lines(unlines(xs)) =~= xs);
    } else {
        lemma_unlines_front(xs);
        let s = unlines(xs);
        let x0 = xs[0];
        let rest = xs.drop_first();
        assert(plain_line(x0));
        reveal_strlit("\n");
        assert(s[x0.len() as int] == '\n');
        assert forall|j: int| 0 <= j < x0.len() implies s[j] != '\n' by {
            assert(s[j] == x0[j]);
        }
        lemma_index_of_first(s, '\n', x0.len() as int);
        assert(s.take(x0.len() as int) =~= x0);
        assert(s.skip(x0.len() as int + 1) =~= unlines(rest));
        if x0.len() > 0 {
            assert(x0[x0.len() - 1] != '\r');
        }
        assert(strip_cr(x0) == x0);
        assert forall|i: int| 0 <= i < rest.len() implies plain_line(#[trigger] rest[i]) by {
            assert(rest[i] == xs[i + 1]);
        }
        lemma_lines_unlines(rest);
        assert(lines(s) =~= xs);
    }
}

/// Text without `\r` that is empty or ends in `\n` is its lines, each
/// written back with its `\n`; and each of its lines is plain.
pub proof fn lemma_unlines_lines(s: Seq<char>)
    requires
        no_char(s, '\r'),
        s.len() == 0 || s.last() == '\n',
    ensures
        unlines(lines(s)) == s,
        forall|i: int| 0 <= i < lines(s).len() ==> plain_line(#[trigger] lines(s)[i]),
    decreases s.len(),
{
    if s.len() > 0 {
        let k = index_of_char(s, '\n');
        lemma_index_of_char_bounds(s, '\n');
        if k >= s.len() {
            assert(s[s.len() - 1] != '\n');
        }
        let x0 = s.take(k);
        let rest = s.skip(k + 1);
        if x0.len() > 0 {
            assert(x0[x0.len() - 1] == s[k - 1]);
        }
        assert(strip_cr(x0) == x0);
        assert(no_char(rest, '\r')) by {
            assert forall|i: int| 0 <= i < rest.len() implies rest[i] != '\r' by {
                assert(rest[i] == s[k + 1 + i]);
            }
        }
        if rest.len() > 0 {
            assert(rest.last() == s.last());
        }
        lemma_unlines_lines(rest);
        assert(lines(s) == seq![x0] + lines(rest));
        lemma_unlines_front(lines(s));
        assert(lines(s)[0] == x0);
        assert(lines(s).drop_first() =~= lines(rest));
        reveal_strlit("\n");
        assert(unlines(lines(s)) =~= s);
        assert forall|i: int| 0 <= i < lines(s).len() implies plain_line(#[trigger] lines(s)[i]) by {
            if i == 0 {
                assert forall|j: int| 0 <= j < x0.len() implies x0[j] != '\n' && x0[j] != '\r' by {
                    assert(x0[j] == s[j]);
                }
            } else {
                assert(lines(s)[i] == lines(rest)[i - 1]);
            }
        }
    } else {
        assert(lines(s) =~= Seq::<Seq<char>>::empty());
    }
}

/// Replacing a pattern that does not occur changes nothing.
pub proof fn lemma_replace_absent(s: Seq<char>, from: Seq<char>, to: Seq<char>)
    requires
        from.len() > 0,
        !contains(s, from),
    ensures
        replace_all(s, from, to) == s,
    decreases s.len(),
{
    if s.len() > 0 {
        assert(!matches_at(s, 0, from));
        assert(!contains(s.drop_first(), from)) by {
            if contains(s.drop_first(), from) {
                let i = choose|i: int| matches_at(s.drop_first(), i, from);
                assert(s.subrange(i + 1, i + 1 + from.len()) == s.drop_first().subrange(
                    i,
                    i + from.len(),
                ));
                assert(matches_at(s, i + 1, from));
            }
        }
        lemma_replace_absent(s.drop_first(), from, to);
        assert(seq![s[0]] + s.drop_first() == s);
    }
}

proof fn lemma_skip_skip(s: Seq<char>, a: int, b: int)
    requires
        0 <= a,
        0 <= b,
        a + b <= s.len(),
    ensures
        s.skip(a).skip(b) == s.skip(a + b),
{
    assert(s.skip(a).skip(b) =~= s.skip(a + b));
}

pub proof fn lemma_dec_nonempty(n: nat)
    ensures
        dec(n).len() > 0,
    decreases n,
{
    if n >= 10 {
        lemma_dec_nonempty(n / 10);
    }
}

/// Lexicographic order by code point: the order `String`'s `Ord` gives,
/// since UTF-8 keeps code-point order byte for byte.
pub open spec fn lex_le(a: Seq<char>, b: Seq<char>) -> bool
    decreases a.len(),
{
    if a.len() == 0 {
        true
    } else if b.len() == 0 {
        false
    } else if a[0] != b[0] {
        a[0] < b[0]
    } else {
        lex_le(a.drop_first(), b.drop_first())
    }
}

pub open spec fn sorted(s: Seq<Seq<char>>) -> bool {
    forall|i: int, j: int| 0 <= i < j < s.len() ==> lex_le(s[i], s[j])
}

pub proof fn lemma_lex_total(a: Seq<char>, b: Seq<char>)
    ensures
        lex_le(a, b) || lex_le(b, a),
    decreases a.len(),
{
    if a.len() > 0 && b.len() > 0 && a[0] == b[0] {
        lemma_lex_total(a.drop_first(), b.drop_first());
    }
}

pub proof fn lemma_lex_trans(a: Seq<char>, b: Seq<char>, c: Seq<char>)
    requires
        lex_le(a, b),
        lex_le(b, c),
    ensures
        lex_le(a, c),
    decreases a.len(),
{
    if a.len() > 0 && b.len() > 0 && c.len() > 0 && a[0] == b[0] && b[0] == c[0] {
        lemma_lex_trans(a.drop_first(), b.drop_first(), c.drop_first());
    }
}

pub proof fn lemma_lex_antisym(a: Seq<char>, b: Seq<char>)
    requires
        lex_le(a, b),
        lex_le(b, a),
    ensures
        a == b,
    decreases a.len(),
{
    if a.len() > 0 && b.len() > 0 {
        lemma_lex_antisym(a.drop_first(), b.drop_first());
        assert(a =~= seq![a[0]] + a.drop_first());
        assert(b =~= seq![b[0]] + b.drop_first());
    } else {
        assert(a =~= b);
    }
}

// ---------------------------------------------------------------------
// Executable functions
// ---------------------------------------------------------------------

/// `String::push`: afterwards the string is what it was with `c`
/// appended.
#[verifier::external_body]
pub(crate) fn push_char(s: &mut String, c: char)
    ensures
        final(s)@ == old(s)@.push(c),
{
    s.push(c);
}

/// The characters of `s`.
pub fn to_chars(s: &str) -> (v: Vec<char>)
    ensures
        v@ == s@,
{
    let mut v: Vec<char> = Vec::new();
    for c in it: s.chars()
        invariant
            v@ == it.seq().take(it.index() as int),
            it.seq() == s@,
    {
        v.push(c);
    }
    v
}

/// A `String` holding exactly the characters `v`.
pub fn from_chars(v: &[char]) -> (s: String)
    ensures
        s@ == v@,
{
    let mut s = String::new();
    let mut i: usize = 0;
    while i < v.len()
        invariant
            i <= v.len(),
            s@ == v@.take(i as int),
        decreases v.len() - i,
    {
        push_char(&mut s, v[i]);
        i += 1;
        assert(s@ == v@.take(i as int));
    }
    assert(v@.take(v.len() as int) == v@);
    s
}

/// An owned copy of `s`.
pub fn owned(s: &str) -> (r: String)
    ensures
        r@ == s@,
{
    let mut r = String::new();
    r.append(s);
    r
}

/// Appends `t` to `v`.
pub fn extend_chars(v: &mut Vec<char>, t: &[char])
    ensures
        final(v)@ == old(v)@ + t@,
{
    let mut i: usize = 0;
    while i < t.len()
        invariant
            i <= t.len(),
            v@ == old(v)@ + t@.take(i as int),
        decreases t.len() - i,
    {
        v.push(t[i]);
        i += 1;
        assert(v@ == old(v)@ + t@.take(i as int));
    }
    assert(t@.take(t.len() as int) == t@);
}

/// Appends the characters of `t` to `v`.
pub fn extend_str(v: &mut Vec<char>, t: &str)
    ensures
        final(v)@ == old(v)@ + t@,
{
    let c = to_chars(t);
    extend_chars(v, &c);
}

/// Character-wise equality.
pub fn chars_eq(a: &[char], b: &[char]) -> (r: bool)
    ensures
        r == (a@ == b@),
{
    if a.len() != b.len() {
        return false;
    }
    let mut i: usize = 0;
    while i < a.len()
        invariant
            i <= a.len(),
            a.len() == b.len(),
            forall|j: int| 0 <= j < i ==> a@[j] == b@[j],
        decreases a.len() - i,
    {
        if a[i] != b[i] {
            return false;
        }
        i += 1;
    }
    assert(a@ =~= b@);
    true
}

/// String equality.
pub fn str_eq(a: &str, b: &str) -> (r: bool)
    ensures
        r == (a@ == b@),
{
    let ca = to_chars(a);
    let cb = to_chars(b);
    chars_eq(&ca, &cb)
}

/// Whether `p` occurs in `s` at index `i`.
pub fn matches_at_exec(s: &[char], i: usize, p: &[char]) -> (r: bool)
    ensures
        r == matches_at(s@, i as int, p@),
{
    if i > s.len() || p.len() > s.len() - i {
        return false;
    }
    let mut j: usize = 0;
    while j < p.len()
        invariant
            j <= p.len(),
            i + p.len() <= s.len(),
            forall|k: int| 0 <= k < j ==> s@[i + k] == p@[k],
        decreases p.len() - j,
    {
        if s[i + j] != p[j] {
            assert(s@.subrange(i as int, i + p.len())[j as int] != p@[j as int]);
            return false;
        }
        j += 1;
    }
    assert(s@.subrange(i as int, i + p.len()) =~= p@);
    true
}

pub fn starts_with_exec(s: &[char], p: &[char]) -> (r: bool)
    ensures
        r == starts_with(s@, p@),
{
    matches_at_exec(s, 0, p)
}

pub fn ends_with_exec(s: &[char], p: &[char]) -> (r: bool)
    ensures
        r == ends_with(s@, p@),
{
    if p.len() > s.len() {
        return false;
    }
    matches_at_exec(s, s.len() - p.len(), p)
}

/// Whether `p` occurs anywhere in `s`.
pub fn contains_exec(s: &[char], p: &[char]) -> (r: bool)
    ensures
        r == contains(s@, p@),
{
    if p.len() > s.len() {
        assert(!contains(s@, p@));
        return false;
    }
    if p.len() == 0 {
        assert(s@.subrange(0, 0) =~= p@);
        assert(matches_at(s@, 0, p@));
        return true;
    }
    let last = s.len() - p.len();
    let mut i: usize = 0;
    while i <= last
        invariant
            last + p.len() == s.len(),
            last < s.len(),
            i <= last + 1,
            forall|k: int| 0 <= k < i ==> !matches_at(s@, k, p@),
        decreases last + 1 - i,
    {
        if matches_at_exec(s, i, p) {
            return true;
        }
        i += 1;
    }
    assert forall|k: int| !matches_at(s@, k, p@) by {
        if 0 <= k < i {
        }
    }
    false
}

/// `str::replace` for a non-empty pattern.
pub fn replace_all_exec(s: &[char], from: &[char], to: &[char]) -> (r: Vec<char>)
    requires
        from@.len() > 0,
    ensures
        r@ == replace_all(s@, from@, to@),
{
    let mut out: Vec<char> = Vec::new();
    let mut i: usize = 0;
    assert(s@.skip(0) == s@);
    while i < s.len()
        invariant
            i <= s.len(),
            from@.len() > 0,
            out@ + replace_all(s@.skip(i as int), from@, to@) == replace_all(s@, from@, to@),
        decreases s.len() - i,
    {
        let ghost rest = s@.skip(i as int);
        if matches_at_exec(s, i, from) {
            assert(rest.subrange(0, from@.len() as int) =~= s@.subrange(
                i as int,
                i + from@.len(),
            ));
            assert(matches_at(rest, 0, from@));
            proof {
                lemma_skip_skip(s@, i as int, from@.len() as int);
            }
            extend_chars(&mut out, to);
            i += from.len();
            assert(out@ + replace_all(s@.skip(i as int), from@, to@) == replace_all(
                s@,
                from@,
                to@,
            ));
        } else {
            assert(!matches_at(rest, 0, from@)) by {
                if matches_at(rest, 0, from@) {
                    assert(rest.subrange(0, from@.len() as int) =~= s@.subrange(
                        i as int,
                        i + from@.len(),
                    ));
                }
            }
            proof {
                lemma_skip_skip(s@, i as int, 1);
            }
            assert(rest.drop_first() == s@.skip(i + 1));
            out.push(s[i]);
            i += 1;
            assert(out@ + replace_all(s@.skip(i as int), from@, to@) == replace_all(
                s@,
                from@,
                to@,
            ));
        }
    }
    assert(replace_all(s@.skip(i as int), from@, to@) == Seq::<char>::empty());
    assert(out@ + Seq::<char>::empty() == out@);
    out
}

pub fn is_ws_exec(c: char) -> (r: bool)
    ensures
        r == is_ws(c),
{
    c == '\t' || c == '\n' || c == '\u{0B}' || c == '\u{0C}' || c == '\r' || c == ' ' || c
        == '\u{85}' || c == '\u{A0}' || c == '\u{1680}' || ('\u{2000}' <= c && c <= '\u{200A}')
        || c == '\u{2028}' || c == '\u{2029}' || c == '\u{202F}' || c == '\u{205F}' || c
        == '\u{3000}'
}

/// `str::trim`.
pub fn trim_exec(s: &[char]) -> (r: Vec<char>)
    ensures
        r@ == trim(s@),
{
    let mut a: usize = 0;
    assert(s@.skip(0) == s@);
    while a < s.len() && is_ws_exec(s[a])
        invariant
            a <= s.len(),
            trim_start(s@) == trim_start(s@.skip(a as int)),
        decreases s.len() - a,
    {
        assert(s@.skip(a as int).drop_first() == s@.skip(a + 1));
        a += 1;
    }
    let ghost st = s@.skip(a as int);
    assert(trim_start(s@) == st);
    let mut b: usize = s.len();
    assert(st == s@.subrange(a as int, b as int));
    while b > a && is_ws_exec(s[b - 1])
        invariant
            a <= b <= s.len(),
            trim_end(st) == trim_end(s@.subrange(a as int, b as int)),
        decreases b - a,
    {
        assert(s@.subrange(a as int, b as int).drop_last() == s@.subrange(a as int, b - 1));
        b -= 1;
    }
    let mut out: Vec<char> = Vec::new();
    let mut k: usize = a;
    while k < b
        invariant
            a <= k <= b,
            b <= s.len(),
            out@ == s@.subrange(a as int, k as int),
        decreases b - k,
    {
        out.push(s[k]);
        k += 1;
        assert(out@ == s@.subrange(a as int, k as int));
    }
    out
}

/// Index of the first `c` in `s` at or after `from`, or `s.len()`.
fn find_char_from(s: &[char], from: usize, c: char) -> (k: usize)
    requires
        from <= s.len(),
    ensures
        from <= k <= s.len(),
        k - from == index_of_char(s@.skip(from as int), c),
{
    let mut k = from;
    while k < s.len() && s[k] != c
        invariant
            from <= k <= s.len(),
            index_of_char(s@.skip(from as int), c) == (k - from) + index_of_char(
                s@.skip(k as int),
                c,
            ),
        decreases s.len() - k,
    {
        assert(s@.skip(k as int).drop_first() == s@.skip(k + 1));
        k += 1;
    }
    k
}

/// `str::lines`.
pub fn lines_exec(s: &[char]) -> (r: Vec<Vec<char>>)
    ensures
        seqs_of(r@) == lines(s@),
{
    let mut out: Vec<Vec<char>> = Vec::new();
    let mut start: usize = 0;
    assert(s@.skip(0) == s@);
    while start < s.len()
        invariant
            start <= s.len(),
            seqs_of(out@) + lines(s@.skip(start as int)) == lines(s@),
        decreases s.len() - start,
    {
        let ghost rest = s@.skip(start as int);
        let k = find_char_from(s, start, '\n');
        let mut line: Vec<char> = Vec::new();
        let mut j = start;
        while j < k
            invariant
                start <= j <= k,
                k <= s.len(),
                line@ == s@.subrange(start as int, j as int),
            decreases k - j,
        {
            line.push(s[j]);
            j += 1;
            assert(line@ == s@.subrange(start as int, j as int));
        }
        assert(rest.take(k - start) == line@);
        let ghost old_out = seqs_of(out@);
        if k >= s.len() {
            assert(lines(rest) == seq![line@]);
            out.push(line);
            assert(seqs_of(out@) =~= old_out.push(line@));
            start = s.len();
            assert(lines(s@.skip(start as int)) == Seq::<Seq<char>>::empty());
            assert(seqs_of(out@) =~= old_out.push(line@));
            assert(seqs_of(out@) + lines(s@.skip(start as int)) =~= old_out + lines(rest));
        } else {
            if line.len() > 0 && line[line.len() - 1] == '\r' {
                line.pop();
            }
            assert(line@ == strip_cr(rest.take(k - start)));
            assert(rest.skip(k - start + 1) == s@.skip(k + 1)) by {
                lemma_skip_skip(s@, start as int, k - start + 1);
            }
            out.push(line);
            start = k + 1;
            assert(seqs_of(out@) =~= old_out.push(line@));
            assert(seqs_of(out@) + lines(s@.skip(start as int)) =~= old_out + lines(rest));
        }
    }
    assert(lines(s@.skip(start as int)) == Seq::<Seq<char>>::empty());
    assert(seqs_of(out@) + Seq::<Seq<char>>::empty() == seqs_of(out@));
    out
}

/// The trimmed, non-empty items of the comma-separated list `s`.
pub fn csv_items_exec(s: &str) -> (r: Vec<String>)
    ensures
        strings_view(r@) == csv_items(s@),
{
    let c = to_chars(s);
    let mut out: Vec<String> = Vec::new();
    let mut start: usize = 0;
    assert(c@.skip(0) == c@);
    loop
        invariant
            start <= c.len(),
            c@ == s@,
            strings_view(out@) + csv_items(c@.skip(start as int)) == csv_items(s@),
        decreases c.len() - start,
    {
        let ghost rest = c@.skip(start as int);
        let k = find_char_from(&c, start, ',');
        let mut piece: Vec<char> = Vec::new();
        let mut j = start;
        while j < k
            invariant
                start <= j <= k,
                k <= c.len(),
                piece@ == c@.subrange(start as int, j as int),
            decreases k - j,
        {
            piece.push(c[j]);
            j += 1;
            assert(piece@ == c@.subrange(start as int, j as int));
        }
        assert(rest.take(k - start) == piece@);
        let item = trim_exec(&piece);
        let ghost old_out = strings_view(out@);
        if item.len() > 0 {
            out.push(from_chars(&item));
            assert(strings_view(out@) =~= old_out.push(item@));
        } else {
            assert(strings_view(out@) =~= old_out);
        }
        if k >= c.len() {
            assert(strings_view(out@) =~= old_out + csv_items(rest));
            return out;
        }
        assert(rest.skip(k - start + 1) == c@.skip(k + 1)) by {
            lemma_skip_skip(c@, start as int, k - start + 1);
        }
        start = k + 1;
        assert(strings_view(out@) + csv_items(c@.skip(start as int)) =~= old_out + csv_items(
            rest,
        ));
    }
}

/// Whether `a` comes no later than `b` in lexicographic order.
pub fn lex_le_exec(a: &[char], b: &[char]) -> (r: bool)
    ensures
        r == lex_le(a@, b@),
{
    let mut i: usize = 0;
    assert(a@.skip(0) == a@);
    assert(b@.skip(0) == b@);
    while i < a.len() && i < b.len() && a[i] == b[i]
        invariant
            i <= a.len(),
            i <= b.len(),
            lex_le(a@, b@) == lex_le(a@.skip(i as int), b@.skip(i as int)),
        decreases a.len() - i,
    {
        assert(a@.skip(i as int).drop_first() == a@.skip(i + 1));
        assert(b@.skip(i as int).drop_first() == b@.skip(i + 1));
        i += 1;
    }
    if i == a.len() {
        true
    } else if i == b.len() {
        false
    } else {
        a[i] < b[i]
    }
}

/// `v` sorted in `String` order.
pub fn sort_strings(v: &Vec<String>) -> (r: Vec<String>)
    ensures
        strings_view(r@).to_multiset() == strings_view(v@).to_multiset(),
        sorted(strings_view(r@)),
{
    let mut out: Vec<String> = Vec::new();
    let mut i: usize = 0;
    assert(strings_view(v@).take(0) =~= Seq::<Seq<char>>::empty());
    assert(strings_view(out@) =~= Seq::<Seq<char>>::empty());
    while i < v.len()
        invariant
            i <= v@.len(),
            strings_view(out@).to_multiset() == strings_view(v@).take(i as int).to_multiset(),
            sorted(strings_view(out@)),
        decreases v.len() - i,
    {
        let x = v[i].clone();
        let xc = to_chars(x.as_str());
        let mut p: usize = 0;
        while p < out.len() && lex_le_exec(&to_chars(out[p].as_str()), &xc)
            invariant
                p <= out@.len(),
                xc@ == x@,
                forall|k: int| 0 <= k < p ==> lex_le(#[trigger] out@[k]@, x@),
            decreases out.len() - p,
        {
            p += 1;
        }
        proof {
            if p < out@.len() {
                lemma_lex_total(out@[p as int]@, x@);
                assert forall|k: int| p <= k < out@.len() implies lex_le(x@, #[trigger] out@[k]@) by {
                    if k > p {
                        assert(lex_le(strings_view(out@)[p as int], strings_view(out@)[k]));
                        lemma_lex_trans(x@, out@[p as int]@, out@[k]@);
                    }
                }
            }
        }
        let ghost old_out = out@;
        let ghost old_view = strings_view(old_out);
        out.insert(p, x);
        assert(out@ == old_out.insert(p as int, v@[i as int]));
        proof {
            old_out.insert_ensures(p as int, v@[i as int]);
            old_view.insert_ensures(p as int, x@);
            assert(strings_view(out@) =~= old_view.insert(p as int, x@));
            assert(strings_view(v@).take(i + 1) =~= strings_view(v@).take(i as int).push(x@));
            vstd::seq_lib::to_multiset_insert(old_view, p as int, x@);
            vstd::seq_lib::to_multiset_build(strings_view(v@).take(i as int), x@);
            assert forall|a: int, b: int| 0 <= a < b < strings_view(out@).len() implies lex_le(
                strings_view(out@)[a],
                strings_view(out@)[b],
            ) by {
                if b < p {
                    assert(lex_le(old_view[a], old_view[b]));
                } else if b == p {
                    assert(lex_le(old_out[a]@, x@));
                } else if a < p {
                    assert(lex_le(old_out[a]@, x@));
                    assert(lex_le(x@, old_out[b - 1]@));
                    lemma_lex_trans(old_out[a]@, x@, old_out[b - 1]@);
                } else if a == p {
                    assert(lex_le(x@, old_out[b - 1]@));
                } else {
                    assert(lex_le(old_view[a - 1], old_view[b - 1]));
                }
            }
        }
        i += 1;
    }
    assert(strings_view(v@).take(v@.len() as int) == strings_view(v@));
    out
}

fn digit_char_exec(d: u128) -> (c: char)
    requires
        d < 10,
    ensures
        c == digit_char(d as nat),
{
    if d == 0 {
        '0'
    } else if d == 1 {
        '1'
    } else if d == 2 {
        '2'
    } else if d == 3 {
        '3'
    } else if d == 4 {
        '4'
    } else if d == 5 {
        '5'
    } else if d == 6 {
        '6'
    } else if d == 7 {
        '7'
    } else if d == 8 {
        '8'
    } else {
        '9'
    }
}

/// Appends the decimal representation of `n` to `out`.
pub fn push_dec(out: &mut Vec<char>, n: u128)
    ensures
        final(out)@ == old(out)@ + dec(n as nat),
    decreases n,
{
    if n < 10 {
        out.push(digit_char_exec(n));
        assert(dec(n as nat) == seq![digit_char(n as nat)]);
    } else {
        push_dec(out, n / 10);
        out.push(digit_char_exec(n % 10));
        assert(dec(n as nat) == dec((n / 10) as nat).push(digit_char((n % 10) as nat)));
        assert(final(out)@ =~= old(out)@ + dec(n as nat));
    }
}

/// `str::parse::<u64>`.
pub fn parse_u64(s: &str) -> (r: Option<u64>)
    ensures
        r == parse_u64_spec(s@),
{
    let c = to_chars(s);
    let mut i: usize = 0;
    if c.len() > 0 && c[0] == '+' {
        i = 1;
    }
    let ghost body = if c@.len() > 0 && c@[0] == '+' {
        c@.drop_first()
    } else {
        c@
    };
    assert(body == c@.skip(i as int));
    if i == c.len() {
        return None;
    }
    let mut v: u64 = 0;
    let mut j: usize = i;
    assert(c@.subrange(i as int, i as int) =~= Seq::<char>::empty());
    while j < c.len()
        invariant
            i <= j <= c.len(),
            c@ == s@,
            body == (if s@.len() > 0 && s@[0] == '+' {
                s@.drop_first()
            } else {
                s@
            }),
            body == c@.skip(i as int),
            all_digits(c@.subrange(i as int, j as int)),
            v as nat == digits_value(c@.subrange(i as int, j as int)),
        decreases c.len() - j,
    {
        let ch = c[j];
        let ghost pre = c@.subrange(i as int, j as int);
        let ghost next = c@.subrange(i as int, j + 1);
        assert(next.drop_last() == pre);
        if !('0' <= ch && ch <= '9') {
            assert(!is_digit(body[j - i]));
            return None;
        }
        let d = ((ch as u32) - ('0' as u32)) as u64;
        assert(d as nat == digit_value(ch));
        assert(digits_value(next) == digits_value(pre) * 10 + d);
        match v.checked_mul(10) {
            None => {
                proof {
                    lemma_digits_value_monotone(body, j + 1 - i);
                    assert(body.take(j + 1 - i) == next);
                }
                return None;
            },
            Some(m) => match m.checked_add(d) {
                None => {
                    proof {
                        lemma_digits_value_monotone(body, j + 1 - i);
                        assert(body.take(j + 1 - i) == next);
                    }
                    return None;
                },
                Some(nv) => {
                    v = nv;
                },
            },
        }
        j += 1;
        assert(all_digits(c@.subrange(i as int, j as int))) by {
            assert forall|k: int| 0 <= k < next.len() implies is_digit(#[trigger] next[k]) by {
                if k < pre.len() {
                    assert(next[k] == pre[k]);
                }
            }
        }
    }
    assert(c@.subrange(i as int, j as int) == body);
    Some(v)
}

/// A prefix of a digit string never has a larger value than the whole.
proof fn lemma_digits_value_monotone(s: Seq<char>, k: int)
    requires
        0 <= k <= s.len(),
    ensures
        digits_value(s.take(k)) <= digits_value(s),
    decreases s.len(),
{
    if k < s.len() {
        assert(s.drop_last().take(k) == s.take(k));
        lemma_digits_value_monotone(s.drop_last(), k);
    } else {
        assert(s.take(k) == s);
    }
}

pub fn ascii_lower_exec(c: char) -> (r: u32)
    ensures
        r == ascii_lower(c),
{
    if 'A' <= c && c <= 'Z' {
        (c as u32) + 32
    } else {
        c as u32
    }
}

/// `str::eq_ignore_ascii_case`.
pub fn eq_ignore_ascii_case_exec(a: &[char], b: &[char]) -> (r: bool)
    ensures
        r == eq_ignore_ascii_case(a@, b@),
{
    if a.len() != b.len() {
        return false;
    }
    let mut i: usize = 0;
    while i < a.len()
        invariant
            i <= a.len(),
            a.len() == b.len(),
            forall|j: int| 0 <= j < i ==> ascii_lower(a@[j]) == ascii_lower(b@[j]),
        decreases a.len() - i,
    {
        if ascii_lower_exec(a[i]) != ascii_lower_exec(b[i]) {
            return false;
        }
        i += 1;
    }
    true
}

} // verus!
