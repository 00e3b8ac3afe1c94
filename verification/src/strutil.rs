//! Character-sequence primitives for the wire protocols: splitting on ASCII
//! whitespace, splitting and joining on a multi-character token, and decimal
//! rendering of page numbers.

use vstd::prelude::*;
use vstd::string::StrSliceExecFns;
use vstd::string::StringExecFns;

verus! {

/// ASCII whitespace: the separator set between image-bundle entries.
pub open spec fn is_ws(c: char) -> bool {
    c == ' ' || c == '\t' || c == '\n' || c == '\u{c}' || c == '\r'
}

/// Executable mirror of `is_ws`.
pub fn is_ws_char(c: char) -> (b: bool)
    ensures
        b == is_ws(c),
{
    c == ' ' || c == '\t' || c == '\n' || c == '\u{c}' || c == '\r'
}

/// Index of the first whitespace character of `s`, or `s.len()` if none.
pub open spec fn first_ws(s: Seq<char>) -> int
    decreases s.len(),
{
    if s.len() == 0 {
        0
    } else if is_ws(s[0]) {
        0
    } else {
        1 + first_ws(s.skip(1))
    }
}

pub proof fn lemma_first_ws(s: Seq<char>)
    ensures
        0 <= first_ws(s) <= s.len(),
        forall|i: int| 0 <= i < first_ws(s) ==> !is_ws(s[i]),
        first_ws(s) < s.len() ==> is_ws(s[first_ws(s)]),
    decreases s.len(),
{
    if s.len() == 0 {
    } else if is_ws(s[0]) {
    } else {
        lemma_first_ws(s.skip(1));
        assert forall|i: int| 0 <= i < first_ws(s) implies !is_ws(s[i]) by {
            if i > 0 {
                assert(s.skip(1)[i - 1] == s[i]);
            }
        }
        if first_ws(s) < s.len() {
            assert(s.skip(1)[first_ws(s) - 1] == s[first_ws(s)]);
        }
    }
}

/// `first_ws` is the unique boundary: no whitespace before it, whitespace (or
/// the end) at it.
pub proof fn lemma_first_ws_is(s: Seq<char>, m: int)
    requires
        0 <= m <= s.len(),
        forall|i: int| 0 <= i < m ==> !is_ws(s[i]),
        m < s.len() ==> is_ws(s[m]),
    ensures
        first_ws(s) == m,
    decreases s.len(),
{
    if s.len() == 0 {
    } else if is_ws(s[0]) {
        assert(m == 0);
    } else {
        assert(m >= 1);
        assert forall|i: int| 0 <= i < m - 1 implies !is_ws(s.skip(1)[i]) by {
            assert(s.skip(1)[i] == s[i + 1]);
        }
        if m - 1 < s.skip(1).len() {
            assert(s.skip(1)[m - 1] == s[m]);
        }
        lemma_first_ws_is(s.skip(1), m - 1);
    }
}

/// The token `tok` occurs in `s` starting at position `i`.
pub open spec fn occurs_at(s: Seq<char>, tok: Seq<char>, i: int) -> bool {
    0 <= i && i + tok.len() <= s.len() && s.subrange(i, i + tok.len()) == tok
}

/// Index of the first occurrence of `tok` in `s`, or `s.len()` if none.
pub open spec fn find_tok(s: Seq<char>, tok: Seq<char>) -> int
    decreases s.len(),
    when tok.len() >= 1
{
    if s.len() < tok.len() {
        s.len() as int
    } else if s.take(tok.len() as int) == tok {
        0
    } else {
        1 + find_tok(s.skip(1), tok)
    }
}

pub proof fn lemma_find_tok(s: Seq<char>, tok: Seq<char>)
    requires
        tok.len() >= 1,
    ensures
        0 <= find_tok(s, tok) <= s.len(),
        find_tok(s, tok) < s.len() ==> occurs_at(s, tok, find_tok(s, tok)),
        forall|i: int| 0 <= i < find_tok(s, tok) ==> !occurs_at(s, tok, i),
    decreases s.len(),
{
    if s.len() < tok.len() {
        assert forall|i: int| 0 <= i < find_tok(s, tok) implies !occurs_at(s, tok, i) by {}
    } else if s.take(tok.len() as int) == tok {
        assert(s.subrange(0, tok.len() as int) == s.take(tok.len() as int));
    } else {
        lemma_find_tok(s.skip(1), tok);
        let f = find_tok(s, tok);
        if f < s.len() {
            assert(occurs_at(s.skip(1), tok, f - 1));
            assert(s.subrange(f, f + tok.len()) =~= s.skip(1).subrange(f - 1, f - 1 + tok.len()));
        }
        assert forall|i: int| 0 <= i < f implies !occurs_at(s, tok, i) by {
            if i == 0 {
                assert(s.subrange(0, tok.len() as int) == s.take(tok.len() as int));
            } else {
                assert(!occurs_at(s.skip(1), tok, i - 1));
                if occurs_at(s, tok, i) {
                    assert(s.skip(1).subrange(i - 1, i - 1 + tok.len()) =~= s.subrange(
                        i,
                        i + tok.len(),
                    ));
                }
            }
        }
    }
}

/// `find_tok` is the unique first-occurrence position.
pub proof fn lemma_find_tok_is(s: Seq<char>, tok: Seq<char>, m: int)
    requires
        tok.len() >= 1,
        0 <= m <= s.len(),
        forall|i: int| 0 <= i < m ==> !occurs_at(s, tok, i),
        m < s.len() ==> occurs_at(s, tok, m),
    ensures
        find_tok(s, tok) == m,
    decreases s.len(),
{
    if s.len() < tok.len() {
        if m < s.len() {
            assert(!occurs_at(s, tok, m));
        }
    } else if s.take(tok.len() as int) == tok {
        assert(s.subrange(0, tok.len() as int) == s.take(tok.len() as int));
        assert(occurs_at(s, tok, 0));
        assert(m == 0);
    } else {
        assert(!occurs_at(s, tok, 0)) by {
            assert(s.subrange(0, tok.len() as int) == s.take(tok.len() as int));
        }
        assert(m >= 1);
        assert forall|i: int| 0 <= i < m - 1 implies !occurs_at(s.skip(1), tok, i) by {
            if occurs_at(s.skip(1), tok, i) {
                assert(s.subrange(i + 1, i + 1 + tok.len()) =~= s.skip(1).subrange(
                    i,
                    i + tok.len(),
                ));
                assert(occurs_at(s, tok, i + 1));
            }
        }
        if m - 1 < s.skip(1).len() {
            assert(occurs_at(s, tok, m));
            assert(s.skip(1).subrange(m - 1, m - 1 + tok.len()) =~= s.subrange(m, m + tok.len()));
        }
        lemma_find_tok_is(s.skip(1), tok, m - 1);
    }
}

/// Split `s` at every maximal run of ASCII whitespace; empty pieces are
/// dropped, as the image-bundle protocol requires.
pub open spec fn split_ws(s: Seq<char>) -> Seq<Seq<char>>
    decreases s.len(),
    via split_ws_dec
{
    if s.len() == 0 {
        Seq::empty()
    } else if is_ws(s[0]) {
        split_ws(s.skip(1))
    } else {
        seq![s.take(first_ws(s))] + split_ws(s.skip(first_ws(s)))
    }
}

#[via_fn]
proof fn split_ws_dec(s: Seq<char>) {
    if s.len() > 0 && !is_ws(s[0]) {
        lemma_first_ws(s);
    }
}

/// Split `s` at every occurrence of `tok`, leftmost first; a trailing or
/// leading occurrence yields an empty piece, as `str::split` does.
pub open spec fn split_tok(s: Seq<char>, tok: Seq<char>) -> Seq<Seq<char>>
    decreases s.len(),
    when tok.len() >= 1
    via split_tok_dec
{
    if find_tok(s, tok) < s.len() {
        seq![s.take(find_tok(s, tok))] + split_tok(s.skip(find_tok(s, tok) + tok.len()), tok)
    } else {
        seq![s]
    }
}

#[via_fn]
proof fn split_tok_dec(s: Seq<char>, tok: Seq<char>) {
    lemma_find_tok(s, tok);
}

/// Join `parts` with `tok` between consecutive parts.
pub open spec fn join_tok(parts: Seq<Seq<char>>, tok: Seq<char>) -> Seq<char>
    decreases parts.len(),
{
    if parts.len() == 0 {
        Seq::empty()
    } else if parts.len() == 1 {
        parts[0]
    } else {
        parts[0] + tok + join_tok(parts.skip(1), tok)
    }
}

pub proof fn lemma_join_push(parts: Seq<Seq<char>>, x: Seq<char>, tok: Seq<char>)
    requires
        parts.len() >= 1,
    ensures
        join_tok(parts.push(x), tok) == join_tok(parts, tok) + tok + x,
    decreases parts.len(),
{
    if parts.len() == 1 {
        assert(parts.push(x)[0] == parts[0]);
        assert(parts.push(x).skip(1) =~= seq![x]);
        assert(join_tok(seq![x], tok) == x);
        assert(join_tok(parts.push(x), tok) == parts[0] + tok + join_tok(
            parts.push(x).skip(1),
            tok,
        ));
    } else {
        lemma_join_push(parts.skip(1), x, tok);
        assert(parts.push(x).skip(1) =~= parts.skip(1).push(x));
        assert(join_tok(parts, tok) + tok + x =~= parts[0] + tok + (join_tok(parts.skip(1), tok)
            + tok + x));
    }
}

/// No occurrence of `tok` begins inside `part`, even one completed by the
/// separator that follows it on the wire.
pub open spec fn tok_safe(part: Seq<char>, tok: Seq<char>) -> bool {
    forall|i: int| 0 <= i < part.len() ==> !occurs_at(part + tok, tok, i)
}

/// A part containing no character equal to the token's first character is
/// always safe.
pub proof fn lemma_char_free_tok_safe(part: Seq<char>, tok: Seq<char>)
    requires
        tok.len() >= 1,
        forall|i: int| 0 <= i < part.len() ==> part[i] != tok[0],
    ensures
        tok_safe(part, tok),
{
    assert forall|i: int| 0 <= i < part.len() implies !occurs_at(part + tok, tok, i) by {
        if occurs_at(part + tok, tok, i) {
            assert((part + tok).subrange(i, i + tok.len())[0] == (part + tok)[i]);
            assert((part + tok)[i] == part[i]);
        }
    }
}

/// Splitting a join on `tok` recovers the parts exactly, provided no part can
/// fabricate an occurrence of the token.
pub proof fn lemma_split_join(parts: Seq<Seq<char>>, tok: Seq<char>)
    requires
        parts.len() >= 1,
        tok.len() >= 1,
        forall|k: int| 0 <= k < parts.len() ==> tok_safe(#[trigger] parts[k], tok),
    ensures
        split_tok(join_tok(parts, tok), tok) == parts,
    decreases parts.len(),
{
    let s = join_tok(parts, tok);
    let p0 = parts[0];
    if parts.len() == 1 {
        assert(s == p0);
        assert forall|i: int| 0 <= i < s.len() implies !occurs_at(s, tok, i) by {
            if occurs_at(s, tok, i) {
                assert((p0 + tok).subrange(i, i + tok.len()) =~= s.subrange(i, i + tok.len()));
                assert(occurs_at(p0 + tok, tok, i));
            }
        }
        lemma_find_tok_is(s, tok, s.len() as int);
        assert(split_tok(s, tok) =~= parts);
    } else {
        let rest = parts.skip(1);
        let n0 = p0.len() as int;
        assert(s == p0 + tok + join_tok(rest, tok));
        assert(occurs_at(s, tok, n0)) by {
            assert(s.subrange(n0, n0 + tok.len()) =~= tok);
        }
        assert forall|i: int| 0 <= i < n0 implies !occurs_at(s, tok, i) by {
            if occurs_at(s, tok, i) {
                assert((p0 + tok).subrange(i, i + tok.len()) =~= s.subrange(i, i + tok.len()));
                assert(occurs_at(p0 + tok, tok, i));
            }
        }
        lemma_find_tok_is(s, tok, n0);
        assert(s.take(n0) =~= p0);
        assert(s.skip(n0 + tok.len()) =~= join_tok(rest, tok));
        assert forall|k: int| 0 <= k < rest.len() implies tok_safe(#[trigger] rest[k], tok) by {
            assert(rest[k] == parts[k + 1]);
        }
        lemma_split_join(rest, tok);
        assert(split_tok(s, tok) =~= parts);
    }
}

/// First whitespace position at or after `start`, or `n` if none.
fn first_ws_from(s: &str, start: usize, n: usize) -> (r: usize)
    requires
        n == s@.len(),
        start <= n,
    ensures
        start <= r <= n,
        r - start == first_ws(s@.skip(start as int)),
{
    let mut j = start;
    while j < n
        invariant
            start <= j <= n,
            n == s@.len(),
            forall|l: int| start <= l < j ==> !is_ws(s@[l]),
        decreases n - j,
    {
        if is_ws_char(s.get_char(j)) {
            proof {
                let suf = s@.skip(start as int);
                assert forall|i: int| 0 <= i < j - start implies !is_ws(suf[i]) by {
                    assert(suf[i] == s@[start + i]);
                }
                assert(suf[j - start] == s@[j as int]);
                lemma_first_ws_is(suf, j - start);
            }
            return j;
        }
        j += 1;
    }
    proof {
        let suf = s@.skip(start as int);
        assert forall|i: int| 0 <= i < n - start implies !is_ws(suf[i]) by {
            assert(suf[i] == s@[start + i]);
        }
        lemma_first_ws_is(suf, n - start);
    }
    n
}

/// Whether `tok` occurs in `s` at character position `i`.
fn matches_at(s: &str, tok: &str, i: usize, n: usize, m: usize) -> (b: bool)
    requires
        n == s@.len(),
        m == tok@.len(),
        i + m <= n,
    ensures
        b == occurs_at(s@, tok@, i as int),
{
    let mut j: usize = 0;
    while j < m
        invariant
            0 <= j <= m,
            n == s@.len(),
            m == tok@.len(),
            i + m <= n,
            forall|l: int| 0 <= l < j ==> s@[i + l] == tok@[l],
        decreases m - j,
    {
        if s.get_char(i + j) != tok.get_char(j) {
            proof {
                if occurs_at(s@, tok@, i as int) {
                    assert(s@.subrange(i as int, i + m)[j as int] == tok@[j as int]);
                    assert(s@[i + j] == tok@[j as int]);
                }
            }
            return false;
        }
        j += 1;
    }
    proof {
        assert(s@.subrange(i as int, i + m) =~= tok@);
    }
    true
}

/// First occurrence of `tok` at or after `start`, or `n` if none.
fn find_tok_from(s: &str, tok: &str, start: usize, n: usize, m: usize) -> (r: usize)
    requires
        n == s@.len(),
        m == tok@.len(),
        m >= 1,
        start <= n,
    ensures
        start <= r <= n,
        r - start == find_tok(s@.skip(start as int), tok@),
    decreases n - start,
{
    let ghost suf = s@.skip(start as int);
    if m > n || start > n - m {
        proof {
            assert forall|i: int| 0 <= i < suf.len() implies !occurs_at(suf, tok@, i) by {}
            lemma_find_tok_is(suf, tok@, suf.len() as int);
        }
        return n;
    }
    let mut i = start;
    while i <= n - m
        invariant
            start <= i <= n - m + 1,
            m >= 1,
            m <= n,
            n == s@.len(),
            m == tok@.len(),
            suf == s@.skip(start as int),
            forall|l: int| 0 <= l < i - start ==> !occurs_at(suf, tok@, l),
        decreases n - i,
    {
        if matches_at(s, tok, i, n, m) {
            proof {
                assert(suf.subrange(i - start, i - start + m) =~= s@.subrange(i as int, i + m));
                assert(occurs_at(suf, tok@, i - start));
                lemma_find_tok_is(suf, tok@, i - start);
            }
            return i;
        }
        proof {
            assert forall|l: int| 0 <= l < i + 1 - start implies !occurs_at(suf, tok@, l) by {
                if l == i - start && occurs_at(suf, tok@, l) {
                    assert(s@.subrange(i as int, i + m) =~= suf.subrange(l, l + m));
                    assert(occurs_at(s@, tok@, i as int));
                }
            }
        }
        i += 1;
    }
    proof {
        assert forall|l: int| 0 <= l < suf.len() implies !occurs_at(suf, tok@, l) by {
            if l + m <= suf.len() {
                assert(!occurs_at(suf, tok@, l));
            }
        }
        lemma_find_tok_is(suf, tok@, suf.len() as int);
    }
    n
}

/// First occurrence of `tok` in `s`, or the length of `s` if none.
pub fn find_first(s: &str, tok: &str) -> (r: usize)
    requires
        tok@.len() >= 1,
    ensures
        0 <= r <= s@.len(),
        r == find_tok(s@, tok@),
{
    let n = s.unicode_len();
    let m = tok.unicode_len();
    let f = find_tok_from(s, tok, 0, n, m);
    proof {
        assert(s@.skip(0) =~= s@);
    }
    f
}

/// A nonempty string without whitespace splits to itself alone.
pub proof fn lemma_split_ws_single(s: Seq<char>)
    requires
        s.len() > 0,
        forall|i: int| 0 <= i < s.len() ==> !is_ws(s[i]),
    ensures
        split_ws(s) == seq![s],
{
    lemma_first_ws_is(s, s.len() as int);
    assert(s.take(s.len() as int) =~= s);
    assert(s.skip(s.len() as int) =~= Seq::<char>::empty());
    assert(split_ws(Seq::<char>::empty()) =~= Seq::<Seq<char>>::empty());
    assert(split_ws(s) =~= seq![s]);
}

/// Split on maximal ASCII-whitespace runs, dropping empty pieces.
pub fn split_ws_exec(s: &str) -> (r: Vec<String>)
    ensures
        r.deep_view() == split_ws(s@),
{
    let n = s.unicode_len();
    let mut parts: Vec<String> = Vec::new();
    let mut i: usize = 0;
    proof {
        assert(parts.deep_view() =~= Seq::<Seq<char>>::empty());
        assert(s@.skip(0) =~= s@);
        assert(Seq::<Seq<char>>::empty() + split_ws(s@) =~= split_ws(s@));
    }
    while i < n
        invariant
            0 <= i <= n,
            n == s@.len(),
            split_ws(s@) == parts.deep_view() + split_ws(s@.skip(i as int)),
        decreases n - i,
    {
        let ghost pre = parts.deep_view();
        let ghost suf = s@.skip(i as int);
        if is_ws_char(s.get_char(i)) {
            proof {
                assert(suf[0] == s@[i as int]);
                assert(suf.skip(1) =~= s@.skip(i + 1));
            }
            i += 1;
        } else {
            let k = first_ws_from(s, i, n);
            let piece = s.substring_char(i, k).to_owned();
            proof {
                assert(suf[0] == s@[i as int]);
                assert(first_ws(suf) == k - i);
                assert(suf.take(k - i) =~= s@.subrange(i as int, k as int));
                assert(suf.skip(k - i) =~= s@.skip(k as int));
                assert(split_ws(suf) == seq![piece@] + split_ws(s@.skip(k as int)));
            }
            parts.push(piece);
            proof {
                assert(parts.deep_view() =~= pre.push(piece@));
                assert(pre + (seq![piece@] + split_ws(s@.skip(k as int))) =~= pre.push(piece@)
                    + split_ws(s@.skip(k as int)));
            }
            i = k;
        }
    }
    proof {
        assert(s@.skip(n as int) =~= Seq::<char>::empty());
        assert(split_ws(Seq::<char>::empty()) =~= Seq::<Seq<char>>::empty());
        assert(parts.deep_view() + Seq::<Seq<char>>::empty() =~= parts.deep_view());
    }
    parts
}

/// Split on each occurrence of `tok`, leftmost first.
pub fn split_tok_exec(s: &str, tok: &str) -> (r: Vec<String>)
    requires
        tok@.len() >= 1,
    ensures
        r.deep_view() == split_tok(s@, tok@),
{
    let n = s.unicode_len();
    let m = tok.unicode_len();
    let mut parts: Vec<String> = Vec::new();
    let mut i: usize = 0;
    proof {
        assert(parts.deep_view() =~= Seq::<Seq<char>>::empty());
        assert(s@.skip(0) =~= s@);
        assert(Seq::<Seq<char>>::empty() + split_tok(s@, tok@) =~= split_tok(s@, tok@));
    }
    loop
        invariant_except_break
            0 <= i <= n,
            n == s@.len(),
            m == tok@.len(),
            m >= 1,
            split_tok(s@, tok@) == parts.deep_view() + split_tok(s@.skip(i as int), tok@),
        ensures
            parts.deep_view() == split_tok(s@, tok@),
        decreases n - i,
    {
        let ghost pre = parts.deep_view();
        let ghost suf = s@.skip(i as int);
        let f = find_tok_from(s, tok, i, n, m);
        proof {
            lemma_find_tok(suf, tok@);
        }
        if f < n {
            let piece = s.substring_char(i, f).to_owned();
            proof {
                assert(find_tok(suf, tok@) == f - i);
                assert(suf.take(f - i) =~= s@.subrange(i as int, f as int));
                assert(suf.skip(f - i + m) =~= s@.skip(f + m));
                assert(split_tok(suf, tok@) == seq![piece@] + split_tok(s@.skip(f + m), tok@));
            }
            parts.push(piece);
            proof {
                assert(parts.deep_view() =~= pre.push(piece@));
                assert(pre + (seq![piece@] + split_tok(s@.skip(f + m), tok@)) =~= pre.push(piece@)
                    + split_tok(s@.skip(f + m), tok@));
            }
            i = f + m;
        } else {
            let piece = s.substring_char(i, n).to_owned();
            proof {
                assert(find_tok(suf, tok@) == n - i);
                assert(suf.len() == n - i);
                assert(split_tok(suf, tok@) == seq![suf]);
                assert(piece@ =~= suf);
            }
            parts.push(piece);
            proof {
                assert(parts.deep_view() =~= pre.push(piece@));
                assert(pre + seq![suf] =~= pre.push(piece@));
            }
            break ;
        }
    }
    parts
}

/// Appends one character.
///
/// Relies on `String::push`: the string grows by exactly that character.
#[verifier::external_body]
pub fn push_char(s: &mut String, c: char)
    ensures
        final(s)@ == old(s)@.push(c),
{
    s.push(c);
}

/// Decimal digits of `n`, most significant first.
pub open spec fn dec_str(n: int) -> Seq<char>
    decreases n,
{
    if n < 10 {
        seq![dec_digit(n)]
    } else {
        dec_str(n / 10).push(dec_digit(n % 10))
    }
}

/// The digit character for `d`.
pub open spec fn dec_digit(d: int) -> char {
    if d == 0 {
        '0'
    } else if d == 1 {
        '1'
    } else if d == 2 {
        '2'
    } else if d == 3 {
        '3'
    } else if d == 4 {
        '4'
    } else if d == 5 {
        '5'
    } else if d == 6 {
        '6'
    } else if d == 7 {
        '7'
    } else if d == 8 {
        '8'
    } else {
        '9'
    }
}

fn digit_char(d: usize) -> (c: char)
    requires
        d < 10,
    ensures
        c == dec_digit(d as int),
{
    match d {
        0 => '0',
        1 => '1',
        2 => '2',
        3 => '3',
        4 => '4',
        5 => '5',
        6 => '6',
        7 => '7',
        8 => '8',
        _ => '9',
    }
}

/// Renders `n` in decimal.
pub fn usize_to_string(n: usize) -> (r: String)
    ensures
        r@ == dec_str(n as int),
    decreases n,
{
    if n < 10 {
        let mut s = String::new();
        push_char(&mut s, digit_char(n));
        proof {
            assert(s@ =~= dec_str(n as int));
        }
        s
    } else {
        let mut s = usize_to_string(n / 10);
        push_char(&mut s, digit_char(n % 10));
        s
    }
}

} // verus!
