//! Text primitives for the line-oriented wire format.
//!
//! The grammars are defined over whole lines and whitespace-separated tokens,
//! so this module fixes what a token and a line are: `tokens` splits a string
//! at runs of whitespace, `spec_lines` splits at newlines the way `str::lines`
//! does (dropping one `\r` before each `\n`, and an optional final newline).
//! The executable scanners below are proved against those definitions.

use vstd::prelude::*;

verus! {

/// Whitespace as the protocol's tokens are separated: the ASCII whitespace
/// characters, space, tab, newline, vertical tab, form feed and carriage
/// return.  The text on the wire is ASCII, so the Unicode-only space
/// characters do not occur in it.
pub open spec fn is_space(c: char) -> bool {
    c == ' ' || c == '\t' || c == '\n' || c == '\u{b}' || c == '\u{c}' || c == '\r'
}

/// Whether `c` is protocol whitespace.
fn is_space_char(c: char) -> (b: bool)
    ensures
        b == is_space(c),
{
    c == ' ' || c == '\t' || c == '\n' || c == '\u{b}' || c == '\u{c}' || c == '\r'
}

/// The whitespace-separated tokens of `s`, in order, each nonempty.
pub open spec fn tokens(s: Seq<char>) -> Seq<Seq<char>>
    decreases s.len(),
{
    if s.len() == 0 {
        seq![]
    } else {
        let rest = tokens(s.drop_first());
        if is_space(s[0]) {
            rest
        } else if s.len() > 1 && !is_space(s[1]) {
            seq![seq![s[0]] + rest[0]] + rest.drop_first()
        } else {
            seq![seq![s[0]]] + rest
        }
    }
}

/// The tokens joined back together with single spaces.
pub open spec fn join_space(ts: Seq<Seq<char>>) -> Seq<char>
    decreases ts.len(),
{
    if ts.len() == 0 {
        seq![]
    } else if ts.len() == 1 {
        ts[0]
    } else {
        ts[0] + seq![' '] + join_space(ts.drop_first())
    }
}

/// Joining a token sequence starts with its first token, with a single space
/// before the rest.
pub proof fn lemma_join_space_cons(t: Seq<char>, rest: Seq<Seq<char>>)
    ensures
        join_space(seq![t] + rest) == if rest.len() == 0 {
            t
        } else {
            t + seq![' '] + join_space(rest)
        },
{
    let x = seq![t] + rest;
    assert(x[0] == t);
    if rest.len() == 0 {
        assert(x.len() == 1);
    } else {
        assert(x.drop_first() =~= rest);
    }
}

/// A string starting with a non-space character has a first token.
pub proof fn lemma_tokens_nonempty(s: Seq<char>)
    requires
        s.len() > 0,
        !is_space(s[0]),
    ensures
        tokens(s).len() > 0,
{
}

/// Dropping a leading run of whitespace leaves the tokens unchanged.
pub proof fn lemma_tokens_skip_spaces(s: Seq<char>, k: int)
    requires
        0 <= k <= s.len(),
        forall|i: int| 0 <= i < k ==> is_space(#[trigger] s[i]),
    ensures
        tokens(s) == tokens(s.skip(k)),
    decreases k,
{
    if k == 0 {
        assert(s.skip(0) =~= s);
    } else {
        assert(s.drop_first() =~= s.skip(1));
        lemma_tokens_skip_spaces(s.skip(1), k - 1);
        assert(s.skip(1).skip(k - 1) =~= s.skip(k));
    }
}

/// A maximal non-space run at the front of `s` is its first token.
pub proof fn lemma_tokens_head(s: Seq<char>, k: int)
    requires
        0 < k <= s.len(),
        forall|i: int| 0 <= i < k ==> !is_space(#[trigger] s[i]),
        k == s.len() || is_space(s[k]),
    ensures
        tokens(s) == seq![s.take(k)] + tokens(s.skip(k)),
    decreases k,
{
    if k == 1 {
        assert(s.take(1) =~= seq![s[0]]);
        assert(s.drop_first() =~= s.skip(1));
        assert(tokens(s) =~= seq![s.take(1)] + tokens(s.skip(1)));
    } else {
        let d = s.drop_first();
        assert(d =~= s.skip(1));
        assert(forall|i: int| 0 <= i < k - 1 ==> !is_space(#[trigger] d[i]));
        lemma_tokens_head(d, k - 1);
        assert(seq![s[0]] + d.take(k - 1) =~= s.take(k));
        assert(d.skip(k - 1) =~= s.skip(k));
        let rest = tokens(d);
        assert(rest[0] == d.take(k - 1));
        assert(rest.drop_first() =~= tokens(s.skip(k)));
        assert(tokens(s) =~= seq![s.take(k)] + tokens(s.skip(k)));
    }
}

/// The lines of `s`, as `str::lines` yields them: split at `\n`, one `\r`
/// stripped before each `\n`, no entry for a final terminating newline.
pub open spec fn spec_lines(s: Seq<char>) -> Seq<Seq<char>>
    decreases s.len(),
{
    if s.len() == 0 {
        seq![]
    } else if s[0] == '\n' {
        seq![Seq::<char>::empty()] + spec_lines(s.drop_first())
    } else if s.len() >= 2 && s[0] == '\r' && s[1] == '\n' {
        seq![Seq::<char>::empty()] + spec_lines(s.skip(2))
    } else {
        let rest = spec_lines(s.drop_first());
        if rest.len() == 0 {
            seq![seq![s[0]]]
        } else {
            seq![seq![s[0]] + rest[0]] + rest.drop_first()
        }
    }
}

/// A line as delivered: the text up to the newline, with one trailing `\r` dropped.
pub open spec fn strip_cr(l: Seq<char>) -> Seq<char> {
    if l.len() > 0 && l.last() == '\r' {
        l.drop_last()
    } else {
        l
    }
}

/// Text before the first newline is the first line.
pub proof fn lemma_lines_head(s: Seq<char>, p: int)
    requires
        0 <= p < s.len(),
        s[p] == '\n',
        forall|i: int| 0 <= i < p ==> #[trigger] s[i] != '\n',
    ensures
        spec_lines(s) == seq![strip_cr(s.take(p))] + spec_lines(s.skip(p + 1)),
    decreases p,
{
    if p == 0 {
        assert(s.drop_first() =~= s.skip(1));
        assert(strip_cr(s.take(0)) =~= Seq::<char>::empty());
        assert(spec_lines(s) =~= seq![strip_cr(s.take(0))] + spec_lines(s.skip(1)));
    } else if p == 1 && s[0] == '\r' {
        assert(s.take(1) =~= seq!['\r']);
        assert(strip_cr(s.take(1)) =~= Seq::<char>::empty());
        assert(spec_lines(s) =~= seq![strip_cr(s.take(1))] + spec_lines(s.skip(2)));
    } else {
        let d = s.drop_first();
        assert(d =~= s.skip(1));
        assert(forall|i: int| 0 <= i < p - 1 ==> #[trigger] d[i] != '\n');
        assert(d[p - 1] == '\n');
        lemma_lines_head(d, p - 1);
        let rest = spec_lines(d);
        assert(rest[0] == strip_cr(d.take(p - 1)));
        assert(d.skip(p) =~= s.skip(p + 1));
        assert(rest.drop_first() =~= spec_lines(s.skip(p + 1)));
        // prepending the first character commutes with dropping the final `\r`
        if p == 1 {
            // here `s[0]` is not a `\r` before a newline, that case stands above
            assert(s[0] != '\r');
            assert(d.take(0) =~= Seq::<char>::empty());
            assert(seq![s[0]] + strip_cr(d.take(0)) =~= strip_cr(s.take(1)));
        } else {
            assert(d.take(p - 1).last() == s[p - 1]);
            assert(s.take(p).last() == s[p - 1]);
            if s[p - 1] == '\r' {
                assert(seq![s[0]] + d.take(p - 1).drop_last() =~= s.take(p).drop_last());
            } else {
                assert(seq![s[0]] + d.take(p - 1) =~= s.take(p));
            }
        }
        assert(spec_lines(s) =~= seq![strip_cr(s.take(p))] + spec_lines(s.skip(p + 1)));
    }
}

/// Nonempty text without a newline is one line, kept as it stands.
pub proof fn lemma_lines_whole(s: Seq<char>)
    requires
        s.len() > 0,
        forall|i: int| 0 <= i < s.len() ==> #[trigger] s[i] != '\n',
    ensures
        spec_lines(s) == seq![s],
    decreases s.len(),
{
    let d = s.drop_first();
    if s.len() == 1 {
        assert(d =~= Seq::<char>::empty());
        assert(spec_lines(d) == Seq::<Seq<char>>::empty());
        assert(seq![s[0]] =~= s);
        assert(spec_lines(s) =~= seq![s]);
    } else {
        assert(forall|i: int| 0 <= i < d.len() ==> #[trigger] d[i] != '\n');
        lemma_lines_whole(d);
        let rest = spec_lines(d);
        assert(rest == seq![d]);
        assert(seq![s[0]] + rest[0] =~= s);
        assert(rest.drop_first() =~= Seq::<Seq<char>>::empty());
        assert(spec_lines(s) == seq![seq![s[0]] + rest[0]] + rest.drop_first());
        assert(seq![seq![s[0]] + rest[0]] + rest.drop_first() =~= seq![s]);
    }
}

/// `s` with leading NUL characters removed.
pub open spec fn drop_leading_nul(s: Seq<char>) -> Seq<char>
    decreases s.len(),
{
    if s.len() > 0 && s[0] == '\0' {
        drop_leading_nul(s.drop_first())
    } else {
        s
    }
}

/// `s` with trailing NUL characters removed.
pub open spec fn drop_trailing_nul(s: Seq<char>) -> Seq<char>
    decreases s.len(),
{
    if s.len() > 0 && s.last() == '\0' {
        drop_trailing_nul(s.drop_last())
    } else {
        s
    }
}

/// `s` with NUL padding removed from both ends, as the reader sees a chunk
/// that came out of a zero-filled buffer.
pub open spec fn spec_trim_nul(s: Seq<char>) -> Seq<char> {
    drop_trailing_nul(drop_leading_nul(s))
}

proof fn lemma_drop_leading_nul(s: Seq<char>, a: int)
    requires
        0 <= a <= s.len(),
        forall|i: int| 0 <= i < a ==> #[trigger] s[i] == '\0',
        a == s.len() || s[a] != '\0',
    ensures
        drop_leading_nul(s) == s.skip(a),
    decreases a,
{
    if a == 0 {
        assert(s.skip(0) =~= s);
    } else {
        assert(s.drop_first() =~= s.skip(1));
        lemma_drop_leading_nul(s.skip(1), a - 1);
        assert(s.skip(1).skip(a - 1) =~= s.skip(a));
    }
}

proof fn lemma_drop_trailing_nul(s: Seq<char>, b: int)
    requires
        0 <= b <= s.len(),
        forall|i: int| b <= i < s.len() ==> #[trigger] s[i] == '\0',
        b == 0 || s[b - 1] != '\0',
    ensures
        drop_trailing_nul(s) == s.take(b),
    decreases s.len() - b,
{
    if b == s.len() {
        assert(s.take(b) =~= s);
    } else {
        assert(s.drop_last() =~= s.take(s.len() - 1));
        lemma_drop_trailing_nul(s.take(s.len() - 1), b);
        assert(s.take(s.len() - 1).take(b) =~= s.take(b));
    }
}

/// Repeated leading `0x` marks removed, as `trim_start_matches("0x")` leaves
/// a hex payload.
pub open spec fn spec_strip_0x(s: Seq<char>) -> Seq<char>
    decreases s.len(),
{
    if s.len() >= 2 && s[0] == '0' && s[1] == 'x' {
        spec_strip_0x(s.skip(2))
    } else {
        s
    }
}

/// One optional leading plus sign removed, as the standard numeric readers
/// allow one before the digits of a payload.
pub open spec fn spec_strip_plus(s: Seq<char>) -> Seq<char> {
    if s.len() >= 1 && s[0] == '+' {
        s.drop_first()
    } else {
        s
    }
}

/// The slice of `s` past one optional leading plus sign.
pub fn strip_plus<'a>(s: &'a str) -> (t: &'a str)
    ensures
        t@ == spec_strip_plus(s@),
{
    let n = s.unicode_len();
    if n >= 1 && s.get_char(0) == '+' {
        proof {
            assert(s@.drop_first() =~= s@.subrange(1, n as int));
        }
        s.substring_char(1, n)
    } else {
        s
    }
}

/// Whether two string slices hold the same characters.
pub fn str_eq(a: &str, b: &str) -> (r: bool)
    ensures
        r == (a@ == b@),
{
    let na = a.unicode_len();
    let nb = b.unicode_len();
    if na != nb {
        return false;
    }
    let mut i: usize = 0;
    while i < na
        invariant
            na == a@.len() == b@.len(),
            0 <= i <= na,
            forall|t: int| 0 <= t < i ==> a@[t] == b@[t],
        decreases na - i,
    {
        if a.get_char(i) != b.get_char(i) {
            return false;
        }
        i = i + 1;
    }
    proof {
        assert(a@ =~= b@);
    }
    true
}

/// The index just past the run of whitespace starting at `from`; skipping it
/// leaves the tokens unchanged.
pub fn skip_spaces(s: &str, from: usize, n: usize) -> (j: usize)
    requires
        n == s@.len(),
        from <= n,
    ensures
        from <= j <= n,
        forall|t: int| from <= t < j ==> is_space(#[trigger] s@[t]),
        j < n ==> !is_space(s@[j as int]),
        tokens(s@.skip(from as int)) == tokens(s@.skip(j as int)),
{
    let mut j = from;
    while j < n
        invariant
            from <= j <= n == s@.len(),
            forall|t: int| from <= t < j ==> is_space(#[trigger] s@[t]),
        ensures
            from <= j <= n,
            forall|t: int| from <= t < j ==> is_space(#[trigger] s@[t]),
            j < n ==> !is_space(s@[j as int]),
        decreases n - j,
    {
        if !is_space_char(s.get_char(j)) {
            break;
        }
        j = j + 1;
    }
    proof {
        let u = s@.skip(from as int);
        assert(forall|i: int| 0 <= i < j - from ==> is_space(#[trigger] u[i]));
        lemma_tokens_skip_spaces(u, j - from);
        assert(u.skip(j - from) =~= s@.skip(j as int));
    }
    j
}

/// The end of the token starting at the non-space position `from`; the token
/// is the head of the remaining token sequence.
pub fn scan_token(s: &str, from: usize, n: usize) -> (j: usize)
    requires
        n == s@.len(),
        from < n,
        !is_space(s@[from as int]),
    ensures
        from < j <= n,
        forall|t: int| from <= t < j ==> !is_space(#[trigger] s@[t]),
        j < n ==> is_space(s@[j as int]),
        tokens(s@.skip(from as int)) == seq![s@.subrange(from as int, j as int)] + tokens(
            s@.skip(j as int),
        ),
{
    let mut j = from;
    while j < n
        invariant
            from <= j <= n == s@.len(),
            forall|t: int| from <= t < j ==> !is_space(#[trigger] s@[t]),
        ensures
            from <= j <= n,
            forall|t: int| from <= t < j ==> !is_space(#[trigger] s@[t]),
            j < n ==> is_space(s@[j as int]),
        decreases n - j,
    {
        if is_space_char(s.get_char(j)) {
            break;
        }
        j = j + 1;
    }
    proof {
        let u = s@.skip(from as int);
        assert(forall|i: int| 0 <= i < j - from ==> !is_space(#[trigger] u[i]));
        lemma_tokens_head(u, j - from);
        assert(u.take(j - from) =~= s@.subrange(from as int, j as int));
        assert(u.skip(j - from) =~= s@.skip(j as int));
    }
    j
}

/// The position of the next newline at or after `from`, or the end; the text
/// before it is the next line.
pub fn scan_line(s: &str, from: usize, n: usize) -> (j: usize)
    requires
        n == s@.len(),
        from <= n,
    ensures
        from <= j <= n,
        forall|t: int| from <= t < j ==> #[trigger] s@[t] != '\n',
        j < n ==> s@[j as int] == '\n',
        j < n ==> spec_lines(s@.skip(from as int)) == seq![
            strip_cr(s@.subrange(from as int, j as int)),
        ] + spec_lines(s@.skip(j + 1)),
        j == n && from < n ==> spec_lines(s@.skip(from as int)) == seq![
            s@.subrange(from as int, j as int),
        ],
{
    let mut j = from;
    while j < n
        invariant
            from <= j <= n == s@.len(),
            forall|t: int| from <= t < j ==> #[trigger] s@[t] != '\n',
        ensures
            from <= j <= n,
            forall|t: int| from <= t < j ==> #[trigger] s@[t] != '\n',
            j < n ==> s@[j as int] == '\n',
        decreases n - j,
    {
        let c = s.get_char(j);
        if c == '\n' {
            break;
        }
        j = j + 1;
    }
    proof {
        let u = s@.skip(from as int);
        if j < n {
            assert(forall|i: int| 0 <= i < j - from ==> #[trigger] u[i] != '\n');
            assert(u[j - from] == '\n');
            lemma_lines_head(u, j - from);
            assert(u.take(j - from) =~= s@.subrange(from as int, j as int));
            assert(u.skip(j - from + 1) =~= s@.skip(j + 1));
        } else if from < n {
            assert(forall|i: int| 0 <= i < u.len() ==> #[trigger] u[i] != '\n');
            lemma_lines_whole(u);
            assert(u =~= s@.subrange(from as int, j as int));
        }
    }
    j
}

/// The slice of `s` with NUL padding removed from both ends.
pub fn trim_nul<'a>(s: &'a str) -> (t: &'a str)
    ensures
        t@ == spec_trim_nul(s@),
{
    let n = s.unicode_len();
    let mut a: usize = 0;
    while a < n
        invariant
            0 <= a <= n == s@.len(),
            forall|t: int| 0 <= t < a ==> #[trigger] s@[t] == '\0',
        ensures
            0 <= a <= n,
            forall|t: int| 0 <= t < a ==> #[trigger] s@[t] == '\0',
            a < n ==> s@[a as int] != '\0',
        decreases n - a,
    {
        if s.get_char(a) != '\0' {
            break;
        }
        a = a + 1;
    }
    let mut b: usize = n;
    while b > a
        invariant
            a <= b <= n == s@.len(),
            forall|t: int| b <= t < n ==> #[trigger] s@[t] == '\0',
        ensures
            a <= b <= n,
            forall|t: int| b <= t < n ==> #[trigger] s@[t] == '\0',
            b > a ==> s@[b - 1] != '\0',
        decreases b,
    {
        if s.get_char(b - 1) != '\0' {
            break;
        }
        b = b - 1;
    }
    proof {
        lemma_drop_leading_nul(s@, a as int);
        let u = s@.skip(a as int);
        assert(forall|i: int| b - a <= i < u.len() ==> #[trigger] u[i] == '\0');
        lemma_drop_trailing_nul(u, b - a);
        assert(u.take(b - a) =~= s@.subrange(a as int, b as int));
    }
    s.substring_char(a, b)
}

/// The slice of `s` past any repeated leading `0x` marks.
pub fn strip_0x<'a>(s: &'a str) -> (t: &'a str)
    ensures
        t@ == spec_strip_0x(s@),
{
    let n = s.unicode_len();
    let mut i: usize = 0;
    proof {
        assert(s@.skip(0) =~= s@);
    }
    loop
        invariant
            0 <= i <= n == s@.len(),
            spec_strip_0x(s@) == spec_strip_0x(s@.skip(i as int)),
        ensures
            0 <= i <= n == s@.len(),
            spec_strip_0x(s@) == s@.skip(i as int),
        decreases n - i,
    {
        let ghost u = s@.skip(i as int);
        if n - i < 2 {
            assert(spec_strip_0x(u) == u);
            break;
        }
        if !(s.get_char(i) == '0' && s.get_char(i + 1) == 'x') {
            assert(u[0] == s@[i as int] && u[1] == s@[i + 1]);
            assert(spec_strip_0x(u) == u);
            break;
        }
        proof {
            assert(u.len() >= 2 && u[0] == '0' && u[1] == 'x');
            assert(u.skip(2) =~= s@.skip(i + 2));
        }
        i = i + 2;
    }
    proof {
        assert(s@.skip(i as int) =~= s@.subrange(i as int, n as int));
    }
    s.substring_char(i, n)
}

} // verus!
