use vstd::prelude::*;

verus! {

/// Appends one character to a `String`.
pub assume_specification[ String::push ](s: &mut String, ch: char)
    ensures
        final(s)@ == old(s)@.push(ch),
;

/// The characters of a string slice, in order.
pub fn str_chars(s: &str) -> (v: Vec<char>)
    ensures
        v@ == s@,
{
    let mut v: Vec<char> = Vec::new();
    for c in it: s.chars()
        invariant
            v@ == it.seq().take(it.index() as int),
            it.seq() == s@,
    {
        v.push(c);
    }
    v
}

/// A `String` holding exactly the given characters.
pub fn string_from_chars(v: &[char]) -> (s: String)
    ensures
        s@ == v@,
{
    let mut s = String::new();
    let mut i: usize = 0;
    while i < v.len()
        invariant
            i <= v.len(),
            s@ == v@.take(i as int),
        decreases v.len() - i,
    {
        s.push(v[i]);
        i += 1;
        assert(v@.take(i as int) == v@.take((i - 1) as int).push(v@[i - 1]));
    }
    assert(v@.take(v.len() as int) == v@);
    s
}

/// Appends the characters of `v` to `s`.
pub fn push_chars(s: &mut String, v: &[char])
    ensures
        final(s)@ == old(s)@ + v@,
{
    let ghost s0 = s@;
    let mut i: usize = 0;
    while i < v.len()
        invariant
            i <= v.len(),
            s@ == s0 + v@.take(i as int),
        decreases v.len() - i,
    {
        s.push(v[i]);
        i += 1;
        assert(v@.take(i as int) == v@.take((i - 1) as int).push(v@[i - 1]));
    }
    assert(v@.take(v.len() as int) == v@);
}

/// Appends a string slice to `s`.
pub fn push_str(s: &mut String, t: &str)
    ensures
        final(s)@ == old(s)@ + t@,
{
    let v = str_chars(t);
    push_chars(s, v.as_slice());
}

/// Appends characters to a character vector.
pub fn extend_chars(out: &mut Vec<char>, v: &[char])
    ensures
        final(out)@ == old(out)@ + v@,
{
    let ghost o0 = out@;
    let mut i: usize = 0;
    while i < v.len()
        invariant
            i <= v.len(),
            out@ == o0 + v@.take(i as int),
        decreases v.len() - i,
    {
        out.push(v[i]);
        i += 1;
        assert(v@.take(i as int) == v@.take((i - 1) as int).push(v@[i - 1]));
    }
    assert(v@.take(v.len() as int) == v@);
}

/// Unicode `White_Space`, the set that `char::is_whitespace` tests.
pub open spec fn is_white(c: char) -> bool {
    ||| ('\u{9}' <= c && c <= '\u{d}')
    ||| c == ' '
    ||| c == '\u{85}'
    ||| c == '\u{a0}'
    ||| c == '\u{1680}'
    ||| ('\u{2000}' <= c && c <= '\u{200a}')
    ||| c == '\u{2028}'
    ||| c == '\u{2029}'
    ||| c == '\u{202f}'
    ||| c == '\u{205f}'
    ||| c == '\u{3000}'
}

pub fn is_whitespace(c: char) -> (b: bool)
    ensures
        b == is_white(c),
{
    ('\u{9}' <= c && c <= '\u{d}') || c == ' ' || c == '\u{85}' || c == '\u{a0}' || c
        == '\u{1680}' || ('\u{2000}' <= c && c <= '\u{200a}') || c == '\u{2028}' || c
        == '\u{2029}' || c == '\u{202f}' || c == '\u{205f}' || c == '\u{3000}'
}

/// Number of leading white-space characters.
pub open spec fn lead_ws(s: Seq<char>) -> nat
    decreases s.len(),
{
    if s.len() > 0 && is_white(s[0]) {
        1 + lead_ws(s.skip(1))
    } else {
        0
    }
}

/// Number of trailing white-space characters.
pub open spec fn trail_ws(s: Seq<char>) -> nat
    decreases s.len(),
{
    if s.len() > 0 && is_white(s.last()) {
        1 + trail_ws(s.drop_last())
    } else {
        0
    }
}

/// `s` without leading white space (`str::trim_start`).
pub open spec fn trim_start(s: Seq<char>) -> Seq<char> {
    s.skip(lead_ws(s) as int)
}

/// `s` without trailing white space (`str::trim_end`).
pub open spec fn trim_end(s: Seq<char>) -> Seq<char> {
    s.take(s.len() - trail_ws(s))
}

/// `s` without leading or trailing white space (`str::trim`).
pub open spec fn trim(s: Seq<char>) -> Seq<char> {
    trim_end(trim_start(s))
}

pub proof fn lemma_lead_ws_bound(s: Seq<char>)
    ensures
        lead_ws(s) <= s.len(),
        forall|k: int| 0 <= k < lead_ws(s) ==> is_white(#[trigger] s[k]),
        lead_ws(s) < s.len() ==> !is_white(s[lead_ws(s) as int]),
    decreases s.len(),
{
    if s.len() > 0 && is_white(s[0]) {
        lemma_lead_ws_bound(s.skip(1));
        assert forall|k: int| 0 <= k < lead_ws(s) implies is_white(#[trigger] s[k]) by {
            if k > 0 {
                assert(s[k] == s.skip(1)[k - 1]);
            }
        }
        if lead_ws(s) < s.len() {
            assert(s[lead_ws(s) as int] == s.skip(1)[lead_ws(s.skip(1)) as int]);
        }
    }
}

pub proof fn lemma_trail_ws_bound(s: Seq<char>)
    ensures
        trail_ws(s) <= s.len(),
        forall|k: int| s.len() - trail_ws(s) <= k < s.len() ==> is_white(#[trigger] s[k]),
        trail_ws(s) < s.len() ==> !is_white(s[s.len() - trail_ws(s) - 1]),
    decreases s.len(),
{
    if s.len() > 0 && is_white(s.last()) {
        lemma_trail_ws_bound(s.drop_last());
        assert forall|k: int| s.len() - trail_ws(s) <= k < s.len() implies is_white(
            #[trigger] s[k],
        ) by {
            if k < s.len() - 1 {
                assert(s[k] == s.drop_last()[k]);
            }
        }
        if trail_ws(s) < s.len() {
            assert(s[s.len() - trail_ws(s) - 1] == s.drop_last()[s.len() - trail_ws(s) - 1]);
        }
    }
}

/// Index of the first character that is not white space.
fn lead_ws_exec(v: &[char]) -> (n: usize)
    ensures
        n == lead_ws(v@),
{
    let mut i: usize = 0;
    assert(v@.skip(0) == v@);
    while i < v.len() && is_whitespace(v[i])
        invariant
            i <= v.len(),
            lead_ws(v@) == i + lead_ws(v@.skip(i as int)),
        decreases v.len() - i,
    {
        assert(v@.skip(i as int).skip(1) == v@.skip(i + 1));
        i += 1;
    }
    i
}

/// Number of trailing white-space characters.
fn trail_ws_exec(v: &[char]) -> (n: usize)
    ensures
        n == trail_ws(v@),
{
    let mut i: usize = v.len();
    assert(v@.take(v.len() as int) == v@);
    while i > 0 && is_whitespace(v[i - 1])
        invariant
            i <= v.len(),
            trail_ws(v@) == (v.len() - i) + trail_ws(v@.take(i as int)),
        decreases i,
    {
        assert(v@.take(i as int).drop_last() == v@.take(i - 1));
        i -= 1;
    }
    assert(v@.take(v.len() as int) == v@);
    v.len() - i
}

/// Trimming never lengthens text.
pub proof fn lemma_trim_len(s: Seq<char>)
    ensures
        trim(s).len() <= s.len(),
{
    lemma_lead_ws_bound(s);
    lemma_trail_ws_bound(trim_start(s));
}

/// The characters of `v` without leading or trailing white space.
pub fn trim_chars(v: &[char]) -> (r: Vec<char>)
    ensures
        r@ == trim(v@),
{
    let a = lead_ws_exec(v);
    proof {
        lemma_lead_ws_bound(v@);
    }
    let mut rest: Vec<char> = Vec::new();
    let mut i = a;
    while i < v.len()
        invariant
            a <= i <= v.len(),
            rest@ == v@.subrange(a as int, i as int),
        decreases v.len() - i,
    {
        rest.push(v[i]);
        i += 1;
    }
    assert(rest@ == trim_start(v@));
    let b = trail_ws_exec(rest.as_slice());
    proof {
        lemma_trail_ws_bound(rest@);
    }
    let mut r: Vec<char> = Vec::new();
    let mut j: usize = 0;
    while j < rest.len() - b
        invariant
            b <= rest.len(),
            j <= rest.len() - b,
            r@ == rest@.take(j as int),
        decreases rest.len() - b - j,
    {
        r.push(rest[j]);
        j += 1;
    }
    r
}

/// `pat` occurs in `s` at position `i`.
pub open spec fn occurs_at(s: Seq<char>, pat: Seq<char>, i: int) -> bool {
    0 <= i && i + pat.len() <= s.len() && s.subrange(i, i + pat.len()) == pat
}

pub fn matches_at(s: &[char], pat: &[char], i: usize) -> (b: bool)
    ensures
        b == occurs_at(s@, pat@, i as int),
{
    if i > s.len() || pat.len() > s.len() - i {
        return false;
    }
    let mut k: usize = 0;
    while k < pat.len()
        invariant
            i + pat.len() <= s.len(),
            k <= pat.len(),
            forall|j: int| 0 <= j < k ==> s@[i + j] == pat@[j],
        decreases pat.len() - k,
    {
        if s[i + k] != pat[k] {
            assert(s@.subrange(i as int, i + pat.len())[k as int] != pat@[k as int]);
            return false;
        }
        k += 1;
    }
    assert(s@.subrange(i as int, i + pat.len()) == pat@);
    true
}

/// First position at which `pat` occurs in `s` (`str::find`).
#[verifier::opaque]
pub open spec fn find_first(s: Seq<char>, pat: Seq<char>) -> Option<int> {
    if exists|i: int| occurs_at(s, pat, i) {
        Some(choose|i: int| occurs_at(s, pat, i) && forall|j: int| 0 <= j < i ==> !occurs_at(s, pat, j))
    } else {
        None
    }
}

/// Last position at which `pat` occurs in `s` (`str::rfind`).
#[verifier::opaque]
pub open spec fn find_last(s: Seq<char>, pat: Seq<char>) -> Option<int> {
    if exists|i: int| occurs_at(s, pat, i) {
        Some(choose|i: int| occurs_at(s, pat, i) && forall|j: int| i < j ==> !occurs_at(s, pat, j))
    } else {
        None
    }
}

pub fn find_chars(s: &[char], pat: &[char]) -> (r: Option<usize>)
    ensures
        r matches Some(i) ==> find_first(s@, pat@) == Some(i as int) && occurs_at(s@, pat@, i as int)
            && forall|j: int| 0 <= j < i ==> !occurs_at(s@, pat@, j),
        r is None ==> find_first(s@, pat@) is None && forall|j: int| !occurs_at(s@, pat@, j),
{
    reveal(find_first);
    let mut i: usize = 0;
    loop
        invariant
            i <= s.len(),
            forall|j: int| 0 <= j < i ==> !occurs_at(s@, pat@, j),
        decreases s.len() - i,
    {
        if matches_at(s, pat, i) {
            reveal(find_first);
            assert(occurs_at(s@, pat@, i as int));
            let ghost w = choose|k: int| occurs_at(s@, pat@, k) && forall|j: int| 0 <= j < k ==> !occurs_at(s@, pat@, j);
            assert(occurs_at(s@, pat@, w) && forall|j: int| 0 <= j < w ==> !occurs_at(s@, pat@, j));
            assert(w == i) by {
                if w < i {} else if w > i { assert(!occurs_at(s@, pat@, i as int)); }
            }
            return Some(i);
        }
        if i == s.len() {
            reveal(find_first);
            assert forall|j: int| !occurs_at(s@, pat@, j) by {
                if j > s.len() {}
            }
            return None;
        }
        i += 1;
    }
}

pub fn rfind_chars(s: &[char], pat: &[char]) -> (r: Option<usize>)
    ensures
        r matches Some(i) ==> find_last(s@, pat@) == Some(i as int) && occurs_at(s@, pat@, i as int)
            && forall|j: int| i < j ==> !occurs_at(s@, pat@, j),
        r is None ==> find_last(s@, pat@) is None && forall|j: int| !occurs_at(s@, pat@, j),
{
    reveal(find_last);
    if matches_at(s, pat, s.len()) {
        let k = s.len();
        let ghost w = choose|m: int| occurs_at(s@, pat@, m) && forall|j: int| m < j ==> !occurs_at(s@, pat@, j);
        assert(forall|j: int| k < j ==> !occurs_at(s@, pat@, j));
        assert(occurs_at(s@, pat@, w) && forall|j: int| w < j ==> !occurs_at(s@, pat@, j));
        assert(w == k) by {
            if w > k {} else if w < k { assert(!occurs_at(s@, pat@, k as int)); }
        }
        return Some(k);
    }
    let mut i: usize = s.len();
    while i > 0
        invariant
            i <= s.len(),
            forall|j: int| i <= j ==> !occurs_at(s@, pat@, j),
        decreases i,
    {
        if matches_at(s, pat, i - 1) {
            reveal(find_last);
            let k = i - 1;
            assert(occurs_at(s@, pat@, k as int));
            let ghost w = choose|m: int| occurs_at(s@, pat@, m) && forall|j: int| m < j ==> !occurs_at(s@, pat@, j);
            assert(occurs_at(s@, pat@, w) && forall|j: int| w < j ==> !occurs_at(s@, pat@, j));
            assert(w == k) by {
                if w > k {} else if w < k { assert(!occurs_at(s@, pat@, k as int)); }
            }
            return Some(k);
        }
        i -= 1;
    }
    None
}

pub fn contains_chars(s: &[char], pat: &[char]) -> (b: bool)
    ensures
        b == exists|i: int| occurs_at(s@, pat@, i),
{
    match find_chars(s, pat) {
        Some(i) => {
            assert(occurs_at(s@, pat@, i as int));
            true
        },
        None => false,
    }
}


/// `str::replace`: every non-overlapping occurrence of `p`, scanning from
/// the left, replaced by `t`; an empty `p` matches before every character
/// and at the end.
pub open spec fn replace_spec(s: Seq<char>, p: Seq<char>, t: Seq<char>) -> Seq<char>
    decreases s.len(),
{
    if p.len() == 0 {
        if s.len() == 0 {
            t
        } else {
            t + seq![s[0]] + replace_spec(s.skip(1), p, t)
        }
    } else if s.len() < p.len() {
        s
    } else if s.take(p.len() as int) == p {
        t + replace_spec(s.skip(p.len() as int), p, t)
    } else {
        seq![s[0]] + replace_spec(s.skip(1), p, t)
    }
}

/// `str::matches(p).count()`: the number of occurrences that
/// `replace_spec` replaces.
pub open spec fn count_spec(s: Seq<char>, p: Seq<char>) -> nat
    decreases s.len(),
{
    if p.len() == 0 {
        s.len() + 1
    } else if s.len() < p.len() {
        0
    } else if s.take(p.len() as int) == p {
        1 + count_spec(s.skip(p.len() as int), p)
    } else {
        count_spec(s.skip(1), p)
    }
}

pub open spec fn min_usize(n: nat) -> usize {
    if n <= usize::MAX {
        n as usize
    } else {
        usize::MAX
    }
}

/// Replaces every occurrence of `p` in `s` by `t`; also returns the number of
/// occurrences (saturating at `usize::MAX`).
pub fn replace_chars(s: &[char], p: &[char], t: &[char]) -> (r: (Vec<char>, usize))
    ensures
        r.0@ == replace_spec(s@, p@, t@),
        r.1 == min_usize(count_spec(s@, p@)),
{
    let mut out: Vec<char> = Vec::new();
    let mut i: usize = 0;
    let mut n: usize = 0;
    assert(s@.skip(0) == s@);
    if p.len() == 0 {
        while i < s.len()
            invariant
                p@.len() == 0,
                i <= s.len(),
                replace_spec(s@, p@, t@) == out@ + replace_spec(s@.skip(i as int), p@, t@),
                n == i,
            decreases s.len() - i,
        {
            let ghost rest = s@.skip(i as int);
            assert(rest.skip(1) == s@.skip(i + 1));
            extend_chars(&mut out, t);
            out.push(s[i]);
            i += 1;
            n += 1;
        }
        extend_chars(&mut out, t);
        assert(s@.skip(s.len() as int) == Seq::<char>::empty());
        let c = if s.len() == usize::MAX { usize::MAX } else { s.len() + 1 };
        return (out, c);
    }
    while i < s.len()
        invariant
            p@.len() > 0,
            i <= s.len(),
            replace_spec(s@, p@, t@) == out@ + replace_spec(s@.skip(i as int), p@, t@),
            count_spec(s@, p@) == n + count_spec(s@.skip(i as int), p@),
            n <= i,
        decreases s.len() - i,
    {
        let ghost rest = s@.skip(i as int);
        if matches_at(s, p, i) {
            assert(rest.take(p.len() as int) == s@.subrange(i as int, i + p.len()));
            assert(rest.skip(p.len() as int) == s@.skip(i + p.len()));
            extend_chars(&mut out, t);
            i += p.len();
            n += 1;
        } else if s.len() - i < p.len() {
            assert(replace_spec(rest, p@, t@) == rest);
            assert(count_spec(rest, p@) == 0);
            let ghost out0 = out@;
            let mut j = i;
            while j < s.len()
                invariant
                    i <= j <= s.len(),
                    out@ == out0 + s@.subrange(i as int, j as int),
                decreases s.len() - j,
            {
                out.push(s[j]);
                j += 1;
            }
            assert(out@ =~= replace_spec(s@, p@, t@));
            return (out, n);
        } else {
            assert(rest.take(p.len() as int) == s@.subrange(i as int, i + p.len()));
            assert(rest.skip(1) == s@.skip(i + 1));
            out.push(s[i]);
            i += 1;
        }
    }
    assert(s@.skip(s.len() as int) == Seq::<char>::empty());
    (out, n)
}


/// Pieces of `s` between occurrences of `sep`; `cur` is the piece read so far.
pub open spec fn split_acc(s: Seq<char>, sep: char, cur: Seq<char>) -> Seq<Seq<char>>
    decreases s.len(),
{
    if s.len() == 0 {
        seq![cur]
    } else if s[0] == sep {
        seq![cur] + split_acc(s.skip(1), sep, Seq::empty())
    } else {
        split_acc(s.skip(1), sep, cur.push(s[0]))
    }
}

/// `str::split(sep)` for a single character.
pub open spec fn split_char(s: Seq<char>, sep: char) -> Seq<Seq<char>> {
    split_acc(s, sep, Seq::empty())
}

/// `str::lines`, up to a trailing `'\r'` kept on each line: the pieces
/// between line feeds, without the empty piece after a final line feed.
pub open spec fn lines_of(s: Seq<char>) -> Seq<Seq<char>> {
    let parts = split_char(s, '\n');
    if parts.last().len() == 0 {
        parts.drop_last()
    } else {
        parts
    }
}

/// Words of `s` read so far; `cur` is the word being read.
pub open spec fn words_acc(s: Seq<char>, cur: Seq<char>) -> Seq<Seq<char>>
    decreases s.len(),
{
    if s.len() == 0 {
        if cur.len() > 0 {
            seq![cur]
        } else {
            Seq::empty()
        }
    } else if is_white(s[0]) {
        (if cur.len() > 0 {
            seq![cur]
        } else {
            Seq::empty()
        }) + words_acc(s.skip(1), Seq::empty())
    } else {
        words_acc(s.skip(1), cur.push(s[0]))
    }
}

/// `str::split_whitespace`: the maximal runs of non-white characters.
pub open spec fn words(s: Seq<char>) -> Seq<Seq<char>> {
    words_acc(s, Seq::empty())
}

pub proof fn lemma_split_acc_nonempty(s: Seq<char>, sep: char, cur: Seq<char>)
    ensures
        split_acc(s, sep, cur).len() > 0,
    decreases s.len(),
{
    if s.len() > 0 {
        if s[0] == sep {
            lemma_split_acc_nonempty(s.skip(1), sep, Seq::empty());
        } else {
            lemma_split_acc_nonempty(s.skip(1), sep, cur.push(s[0]));
        }
    }
}

/// `split_char`, computed.
pub fn split_on(s: &[char], sep: char) -> (r: Vec<Vec<char>>)
    ensures
        r@.map_values(|v: Vec<char>| v@) == split_char(s@, sep),
{
    let mut out: Vec<Vec<char>> = Vec::new();
    let mut cur: Vec<char> = Vec::new();
    let mut i: usize = 0;
    assert(s@.skip(0) == s@);
    while i < s.len()
        invariant
            i <= s.len(),
            split_char(s@, sep) == out@.map_values(|v: Vec<char>| v@) + split_acc(
                s@.skip(i as int),
                sep,
                cur@,
            ),
        decreases s.len() - i,
    {
        let ghost rest = s@.skip(i as int);
        assert(rest.skip(1) == s@.skip(i + 1));
        if s[i] == sep {
            let ghost before = out@.map_values(|v: Vec<char>| v@);
            out.push(cur);
            assert(out@.map_values(|v: Vec<char>| v@) == before.push(cur@));
            cur = Vec::new();
            assert(before + split_acc(rest, sep, cur@) == before.push(cur@) + split_acc(
                s@.skip(i + 1),
                sep,
                Seq::empty(),
            )) by {
                assert(split_acc(rest, sep, cur@) == seq![cur@] + split_acc(s@.skip(i + 1), sep, Seq::empty()));
            }
            cur = Vec::new();
        } else {
            cur.push(s[i]);
        }
        i += 1;
    }
    let ghost before = out@.map_values(|v: Vec<char>| v@);
    assert(s@.skip(i as int).len() == 0);
    out.push(cur);
    assert(out@.map_values(|v: Vec<char>| v@) == before + seq![cur@]);
    out
}

/// `lines_of`, computed.
pub fn lines(s: &[char]) -> (r: Vec<Vec<char>>)
    ensures
        r@.map_values(|v: Vec<char>| v@) == lines_of(s@),
{
    let mut parts = split_on(s, '\n');
    proof {
        lemma_split_acc_nonempty(s@, '\n', Seq::empty());
    }
    let last = parts.len() - 1;
    if parts[last].len() == 0 {
        let ghost before = parts@.map_values(|v: Vec<char>| v@);
        parts.pop();
        assert(parts@.map_values(|v: Vec<char>| v@) == before.drop_last());
    }
    parts
}

/// `words`, computed.
pub fn split_words(s: &[char]) -> (r: Vec<Vec<char>>)
    ensures
        r@.map_values(|v: Vec<char>| v@) == words(s@),
{
    let mut out: Vec<Vec<char>> = Vec::new();
    let mut cur: Vec<char> = Vec::new();
    let mut i: usize = 0;
    assert(s@.skip(0) == s@);
    while i < s.len()
        invariant
            i <= s.len(),
            words(s@) == out@.map_values(|v: Vec<char>| v@) + words_acc(s@.skip(i as int), cur@),
        decreases s.len() - i,
    {
        let ghost rest = s@.skip(i as int);
        assert(rest.skip(1) == s@.skip(i + 1));
        let ghost before = out@.map_values(|v: Vec<char>| v@);
        if is_whitespace(s[i]) {
            if cur.len() > 0 {
                out.push(cur);
                assert(out@.map_values(|v: Vec<char>| v@) == before.push(cur@));
                assert(seq![cur@] + words_acc(s@.skip(i + 1), Seq::empty()) == words_acc(rest, cur@));
            } else {
                assert(out@.map_values(|v: Vec<char>| v@) == before);
                assert(Seq::<Seq<char>>::empty() + words_acc(s@.skip(i + 1), Seq::empty()) == words_acc(rest, cur@));
            }
            cur = Vec::new();
        } else {
            cur.push(s[i]);
        }
        i += 1;
    }
    let ghost before = out@.map_values(|v: Vec<char>| v@);
    assert(s@.skip(i as int).len() == 0);
    if cur.len() > 0 {
        out.push(cur);
        assert(out@.map_values(|v: Vec<char>| v@) == before + seq![cur@]);
    } else {
        assert(before + Seq::<Seq<char>>::empty() == before);
    }
    out
}

pub open spec fn ends_with(s: Seq<char>, suffix: Seq<char>) -> bool {
    suffix.len() <= s.len() && s.skip(s.len() - suffix.len()) == suffix
}

pub open spec fn starts_with(s: Seq<char>, prefix: Seq<char>) -> bool {
    prefix.len() <= s.len() && s.take(prefix.len() as int) == prefix
}

pub fn ends_with_chars(s: &[char], suffix: &[char]) -> (b: bool)
    ensures
        b == ends_with(s@, suffix@),
{
    if suffix.len() > s.len() {
        return false;
    }
    let r = matches_at(s, suffix, s.len() - suffix.len());
    assert(s@.subrange(s.len() - suffix.len(), s.len() as int) == s@.skip(s.len() - suffix.len()));
    r
}

pub fn starts_with_chars(s: &[char], prefix: &[char]) -> (b: bool)
    ensures
        b == starts_with(s@, prefix@),
{
    let r = matches_at(s, prefix, 0);
    assert(prefix.len() <= s.len() ==> s@.subrange(0, prefix.len() as int) == s@.take(prefix.len() as int));
    r
}


/// `char::to_ascii_lowercase`.
pub open spec fn ascii_lower(c: char) -> char {
    if 'A' <= c && c <= 'Z' {
        ((c as u32) + 32) as char
    } else {
        c
    }
}

/// `char::to_ascii_uppercase`.
pub open spec fn ascii_upper(c: char) -> char {
    if 'a' <= c && c <= 'z' {
        ((c as u32) - 32) as char
    } else {
        c
    }
}

/// `str::eq_ignore_ascii_case`.
pub open spec fn eq_ignore_ascii_case(a: Seq<char>, b: Seq<char>) -> bool {
    a.len() == b.len() && forall|i: int| 0 <= i < a.len() ==> ascii_lower(#[trigger] a[i]) == ascii_lower(b[i])
}

pub fn to_ascii_lower(c: char) -> (r: char)
    ensures
        r == ascii_lower(c),
{
    if 'A' <= c && c <= 'Z' {
        let v = (c as u32) + 32;
        let r = char::from_u32(v);
        assert(vstd::utf8::is_scalar(v));
        r.unwrap()
    } else {
        c
    }
}

pub fn to_ascii_upper(c: char) -> (r: char)
    ensures
        r == ascii_upper(c),
{
    if 'a' <= c && c <= 'z' {
        let v = (c as u32) - 32;
        let r = char::from_u32(v);
        assert(vstd::utf8::is_scalar(v));
        r.unwrap()
    } else {
        c
    }
}

/// `str::to_ascii_uppercase`.
pub fn ascii_uppercase_chars(v: &[char]) -> (r: Vec<char>)
    ensures
        r@ == v@.map_values(|c: char| ascii_upper(c)),
{
    let mut r: Vec<char> = Vec::new();
    let mut i: usize = 0;
    while i < v.len()
        invariant
            i <= v.len(),
            r@ == v@.take(i as int).map_values(|c: char| ascii_upper(c)),
        decreases v.len() - i,
    {
        r.push(to_ascii_upper(v[i]));
        i += 1;
        assert(v@.take(i as int).map_values(|c: char| ascii_upper(c)) == v@.take(i - 1).map_values(
            |c: char| ascii_upper(c),
        ).push(ascii_upper(v@[i - 1])));
    }
    assert(v@.take(v.len() as int) == v@);
    r
}

pub fn eq_ignore_ascii_case_chars(a: &[char], b: &[char]) -> (r: bool)
    ensures
        r == eq_ignore_ascii_case(a@, b@),
{
    if a.len() != b.len() {
        return false;
    }
    let mut i: usize = 0;
    while i < a.len()
        invariant
            a.len() == b.len(),
            i <= a.len(),
            forall|j: int| 0 <= j < i ==> ascii_lower(#[trigger] a@[j]) == ascii_lower(b@[j]),
        decreases a.len() - i,
    {
        if to_ascii_lower(a[i]) != to_ascii_lower(b[i]) {
            return false;
        }
        i += 1;
    }
    true
}


/// The pieces joined with `sep` between neighbours (`[..].join(sep)`).
pub open spec fn join_spec(parts: Seq<Seq<char>>, sep: Seq<char>) -> Seq<char>
    decreases parts.len(),
{
    if parts.len() == 0 {
        Seq::empty()
    } else if parts.len() == 1 {
        parts[0]
    } else {
        join_spec(parts.drop_last(), sep) + sep + parts.last()
    }
}

/// The views of a list of strings.
pub open spec fn strings_view(v: Seq<String>) -> Seq<Seq<char>> {
    v.map_values(|s: String| s@)
}

/// `[String]::join`: the strings with `sep` between neighbours.
pub fn join_strings(parts: &Vec<String>, sep: &str) -> (r: String)
    ensures
        r@ == join_spec(strings_view(parts@), sep@),
{
    let mut out = String::new();
    let mut i: usize = 0;
    while i < parts.len()
        invariant
            i <= parts.len(),
            out@ == join_spec(strings_view(parts@).take(i as int), sep@),
        decreases parts.len() - i,
    {
        let ghost before = strings_view(parts@).take(i as int);
        let ghost after = strings_view(parts@).take(i + 1);
        assert(after.drop_last() == before);
        if i > 0 {
            push_str(&mut out, sep);
        }
        push_str(&mut out, parts[i].as_str());
        i += 1;
    }
    assert(strings_view(parts@).take(parts.len() as int) == strings_view(parts@));
    out
}

pub fn chars_eq(a: &[char], b: &[char]) -> (r: bool)
    ensures
        r == (a@ == b@),
{
    if a.len() != b.len() {
        return false;
    }
    let mut i: usize = 0;
    while i < a.len()
        invariant
            a.len() == b.len(),
            i <= a.len(),
            forall|j: int| 0 <= j < i ==> a@[j] == b@[j],
        decreases a.len() - i,
    {
        if a[i] != b[i] {
            return false;
        }
        i += 1;
    }
    assert(a@ =~= b@);
    true
}

/// Number of bytes in the UTF-8 encoding of `v`.
pub fn utf8_len(v: &[char]) -> (n: usize)
    ensures
        n as nat == vstd::utf8::encode_utf8(v@).len(),
{
    let s = string_from_chars(v);
    let b = string_bytes(&s);
    b.len()
}


/// The UTF-8 bytes of a string (`String::into_bytes`).
pub fn string_bytes(s: &String) -> (r: Vec<u8>)
    ensures
        r@ == vstd::utf8::encode_utf8(s@),
{
    let b = s.as_str().as_bytes();
    let mut r: Vec<u8> = Vec::new();
    let mut i: usize = 0;
    while i < b.len()
        invariant
            i <= b.len(),
            r@ == b@.take(i as int),
        decreases b.len() - i,
    {
        r.push(b[i]);
        i += 1;
    }
    assert(b@.take(b.len() as int) == b@);
    r
}


/// Decimal digits of a number (`usize::to_string`).
pub open spec fn decimal(n: nat) -> Seq<char>
    decreases n,
{
    if n < 10 {
        seq![(n + 48) as char]
    } else {
        decimal(n / 10).push(((n % 10) + 48) as char)
    }
}

fn digit_char(d: usize) -> (c: char)
    requires
        d < 10,
    ensures
        c == (d + 48) as char,
{
    let v: u32 = (d as u32) + 48;
    let r = char::from_u32(v);
    assert(vstd::utf8::is_scalar(v));
    r.unwrap()
}

/// The decimal digits of `n`.
pub fn decimal_chars(n: usize) -> (r: Vec<char>)
    ensures
        r@ == decimal(n as nat),
    decreases n,
{
    if n < 10 {
        let mut v: Vec<char> = Vec::new();
        v.push(digit_char(n));
        v
    } else {
        let mut v = decimal_chars(n / 10);
        v.push(digit_char(n % 10));
        v
    }
}

/// The decimal digits of a `u64`.
pub fn decimal_chars_u64(n: u64) -> (r: Vec<char>)
    ensures
        r@ == decimal(n as nat),
    decreases n,
{
    if n < 10 {
        let mut v: Vec<char> = Vec::new();
        v.push(digit_char(n as usize));
        v
    } else {
        let mut v = decimal_chars_u64(n / 10);
        v.push(digit_char((n % 10) as usize));
        v
    }
}

/// Appends the decimal digits of a `u64`.
pub fn push_decimal_u64(s: &mut String, n: u64)
    ensures
        final(s)@ == old(s)@ + decimal(n as nat),
{
    let d = decimal_chars_u64(n);
    push_chars(s, d.as_slice());
}

/// Appends the decimal digits of `n`.
pub fn push_decimal(s: &mut String, n: usize)
    ensures
        final(s)@ == old(s)@ + decimal(n as nat),
{
    let d = decimal_chars(n);
    push_chars(s, d.as_slice());
}

pub open spec fn opt_view(o: Option<String>) -> Option<Seq<char>> {
    match o {
        Some(s) => Some(s@),
        None => None,
    }
}


/// `frag` inserted into `s` before position `pos`.
pub open spec fn insert_text(s: Seq<char>, pos: int, frag: Seq<char>) -> Seq<char> {
    s.take(pos) + frag + s.skip(pos)
}

pub fn insert_chars(s: &[char], pos: usize, frag: &[char]) -> (r: Vec<char>)
    requires
        pos <= s.len(),
    ensures
        r@ == insert_text(s@, pos as int, frag@),
{
    let mut out: Vec<char> = Vec::new();
    let mut i: usize = 0;
    while i < pos
        invariant
            i <= pos <= s.len(),
            out@ == s@.take(i as int),
        decreases pos - i,
    {
        out.push(s[i]);
        i += 1;
    }
    extend_chars(&mut out, frag);
    let mut j = pos;
    while j < s.len()
        invariant
            pos <= j <= s.len(),
            out@ == s@.take(pos as int) + frag@ + s@.subrange(pos as int, j as int),
        decreases s.len() - j,
    {
        out.push(s[j]);
        j += 1;
    }
    assert(s@.subrange(pos as int, s.len() as int) == s@.skip(pos as int));
    out
}

pub fn find_str(s: &[char], pat: &str) -> (r: Option<usize>)
    ensures
        r matches Some(i) ==> find_first(s@, pat@) == Some(i as int) && occurs_at(s@, pat@, i as int),
        r is None ==> find_first(s@, pat@) is None,
{
    let p = str_chars(pat);
    find_chars(s, p.as_slice())
}

pub fn rfind_str(s: &[char], pat: &str) -> (r: Option<usize>)
    ensures
        r matches Some(i) ==> find_last(s@, pat@) == Some(i as int) && occurs_at(s@, pat@, i as int),
        r is None ==> find_last(s@, pat@) is None,
{
    let p = str_chars(pat);
    rfind_chars(s, p.as_slice())
}

pub fn contains_str(s: &[char], pat: &str) -> (b: bool)
    ensures
        b == exists|i: int| occurs_at(s@, pat@, i),
{
    let p = str_chars(pat);
    contains_chars(s, p.as_slice())
}

} // verus!
