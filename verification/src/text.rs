//! Character-sequence utilities shared by the codec and the validators:
//! trimming, splitting, substring search and replacement, all specified
//! over `Seq<char>` and implemented on `Vec<char>`.

use vstd::prelude::*;

verus! {

/// The whitespace characters this library trims: the ASCII blanks that
/// appear in configuration files.
pub open spec fn is_space(c: char) -> bool {
    c == ' ' || c == '\t' || c == '\r' || c == '\n' || c == '\u{000B}' || c == '\u{000C}'
}

/// `s` without its leading whitespace.
pub open spec fn trim_front(s: Seq<char>) -> Seq<char>
    decreases s.len(),
{
    if s.len() > 0 && is_space(s[0]) {
        trim_front(s.drop_first())
    } else {
        s
    }
}

/// `s` without its trailing whitespace.
pub open spec fn trim_back(s: Seq<char>) -> Seq<char>
    decreases s.len(),
{
    if s.len() > 0 && is_space(s[s.len() - 1]) {
        trim_back(s.drop_last())
    } else {
        s
    }
}

/// `s` without leading and trailing whitespace.
pub open spec fn trim(s: Seq<char>) -> Seq<char> {
    trim_back(trim_front(s))
}

pub proof fn lemma_trim_front_range(s: Seq<char>)
    ensures
        exists|k: int|
            0 <= k <= s.len() && trim_front(s) == s.subrange(k, s.len() as int) && (forall|j: int|
                0 <= j < k ==> is_space(s[j])),
    decreases s.len(),
{
    if s.len() > 0 && is_space(s[0]) {
        lemma_trim_front_range(s.drop_first());
        let k0 = choose|k: int|
            0 <= k <= s.drop_first().len() && trim_front(s.drop_first()) == s.drop_first().subrange(
                k,
                s.drop_first().len() as int,
            ) && (forall|j: int| 0 <= j < k ==> is_space(s.drop_first()[j]));
        assert(s.drop_first().subrange(k0, s.drop_first().len() as int) =~= s.subrange(
            k0 + 1,
            s.len() as int,
        ));
        assert forall|j: int| 0 <= j < k0 + 1 implies is_space(s[j]) by {
            if j >= 1 {
                assert(s[j] == s.drop_first()[j - 1]);
            }
        }
    } else {
        assert(trim_front(s) == s.subrange(0, s.len() as int)) by {
            assert(s =~= s.subrange(0, s.len() as int));
        }
    }
}

pub fn trim_chars(v: &Vec<char>) -> (r: Vec<char>)
    ensures
        r@ == trim(v@),
{
    let n = v.len();
    proof {
        assert(v@ =~= v@.subrange(0, n as int));
    }
    let mut lo: usize = 0;
    while lo < n && is_space_exec(v[lo])
        invariant
            0 <= lo <= n,
            n == v@.len(),
            trim_front(v@) == trim_front(v@.subrange(lo as int, n as int)),
        decreases n - lo,
    {
        proof {
            let s = v@.subrange(lo as int, n as int);
            assert(s.drop_first() =~= v@.subrange(lo as int + 1, n as int));
        }
        lo = lo + 1;
    }
    proof {
        let s = v@.subrange(lo as int, n as int);
        assert(trim_front(s) == s);
    }
    let mut hi: usize = n;
    while hi > lo && is_space_exec(v[hi - 1])
        invariant
            0 <= lo <= hi <= n,
            n == v@.len(),
            trim_front(v@) == v@.subrange(lo as int, n as int),
            trim_back(v@.subrange(lo as int, n as int)) == trim_back(
                v@.subrange(lo as int, hi as int),
            ),
        decreases hi,
    {
        proof {
            let s = v@.subrange(lo as int, hi as int);
            assert(s.drop_last() =~= v@.subrange(lo as int, hi as int - 1));
        }
        hi = hi - 1;
    }
    proof {
        let s = v@.subrange(lo as int, hi as int);
        assert(trim_back(s) == s);
    }
    let mut r: Vec<char> = Vec::new();
    let mut i: usize = lo;
    while i < hi
        invariant
            lo <= i <= hi <= n,
            n == v@.len(),
            r@ == v@.subrange(lo as int, i as int),
        decreases hi - i,
    {
        r.push(v[i]);
        proof {
            assert(v@.subrange(lo as int, i as int).push(v@[i as int]) =~= v@.subrange(
                lo as int,
                i as int + 1,
            ));
        }
        i = i + 1;
    }
    proof {
        assert(r@ == trim(v@));
    }
    r
}

/// Executable test for the whitespace set used by `trim`.
pub fn is_space_exec(c: char) -> (r: bool)
    ensures
        r == is_space(c),
{
    c == ' ' || c == '\t' || c == '\r' || c == '\n' || c == '\u{000B}' || c == '\u{000C}'
}

/// The characters of `s`, one vector element per `char`.
pub fn str_to_chars(s: &str) -> (r: Vec<char>)
    ensures
        r@ == s@,
{
    let n = s.unicode_len();
    let mut r: Vec<char> = Vec::new();
    let mut i: usize = 0;
    while i < n
        invariant
            0 <= i <= n,
            n == s@.len(),
            r@ == s@.subrange(0, i as int),
        decreases n - i,
    {
        r.push(s.get_char(i));
        proof {
            assert(s@.subrange(0, i as int).push(s@[i as int]) =~= s@.subrange(0, i as int + 1));
        }
        i = i + 1;
    }
    proof {
        assert(s@.subrange(0, n as int) =~= s@);
    }
    r
}

/// Relies on std's `FromIterator<char>` for `String`: collecting the
/// characters of `v` yields the string whose characters are exactly `v`.
#[verifier::external_body]
pub fn string_from_chars(v: &Vec<char>) -> (r: String)
    ensures
        r@ == v@,
{
    v.iter().collect()
}

/// Copy of `v[from..to]`.
pub fn subvec(v: &Vec<char>, from: usize, to: usize) -> (r: Vec<char>)
    requires
        from <= to <= v@.len(),
    ensures
        r@ == v@.subrange(from as int, to as int),
{
    let mut r: Vec<char> = Vec::new();
    let mut i: usize = from;
    while i < to
        invariant
            from <= i <= to <= v@.len(),
            r@ == v@.subrange(from as int, i as int),
        decreases to - i,
    {
        r.push(v[i]);
        proof {
            assert(v@.subrange(from as int, i as int).push(v@[i as int]) =~= v@.subrange(
                from as int,
                i as int + 1,
            ));
        }
        i = i + 1;
    }
    r
}

/// Append every character of `src` to `dst`.
pub fn extend_chars(dst: &mut Vec<char>, src: &Vec<char>)
    ensures
        final(dst)@ == old(dst)@ + src@,
{
    let n = src.len();
    let mut i: usize = 0;
    while i < n
        invariant
            0 <= i <= n,
            n == src@.len(),
            dst@ == old(dst)@ + src@.subrange(0, i as int),
        decreases n - i,
    {
        dst.push(src[i]);
        proof {
            assert(old(dst)@ + src@.subrange(0, i as int + 1) =~= (old(dst)@ + src@.subrange(
                0,
                i as int,
            )).push(src@[i as int]));
        }
        i = i + 1;
    }
    proof {
        assert(src@.subrange(0, n as int) =~= src@);
    }
}

/// Append every character of the string slice `src` to `dst`.
pub fn extend_str(dst: &mut Vec<char>, src: &str)
    ensures
        final(dst)@ == old(dst)@ + src@,
{
    let n = src.unicode_len();
    let mut i: usize = 0;
    while i < n
        invariant
            0 <= i <= n,
            n == src@.len(),
            dst@ == old(dst)@ + src@.subrange(0, i as int),
        decreases n - i,
    {
        dst.push(src.get_char(i));
        proof {
            assert(old(dst)@ + src@.subrange(0, i as int + 1) =~= (old(dst)@ + src@.subrange(
                0,
                i as int,
            )).push(src@[i as int]));
        }
        i = i + 1;
    }
    proof {
        assert(src@.subrange(0, n as int) =~= src@);
    }
}

/// Character-for-character equality of two vectors.
pub fn chars_eq(a: &Vec<char>, b: &Vec<char>) -> (r: bool)
    ensures
        r == (a@ == b@),
{
    if a.len() != b.len() {
        return false;
    }
    let n = a.len();
    let mut i: usize = 0;
    while i < n
        invariant
            0 <= i <= n,
            n == a@.len() == b@.len(),
            forall|j: int| 0 <= j < i ==> a@[j] == b@[j],
        decreases n - i,
    {
        if a[i] != b[i] {
            return false;
        }
        i = i + 1;
    }
    proof {
        assert(a@ =~= b@);
    }
    true
}

/// Whether `v` holds exactly the characters of `s`.
pub fn chars_eq_str(v: &Vec<char>, s: &str) -> (r: bool)
    ensures
        r == (v@ == s@),
{
    if v.len() != s.unicode_len() {
        return false;
    }
    let n = v.len();
    let mut i: usize = 0;
    while i < n
        invariant
            0 <= i <= n,
            n == v@.len() == s@.len(),
            forall|j: int| 0 <= j < i ==> v@[j] == s@[j],
        decreases n - i,
    {
        if v[i] != s.get_char(i) {
            return false;
        }
        i = i + 1;
    }
    proof {
        assert(v@ =~= s@);
    }
    true
}

/// Index of the first occurrence of `c` in `s`, or `-1`.
pub open spec fn find_ch(s: Seq<char>, c: char) -> int
    decreases s.len(),
{
    if s.len() == 0 {
        -1
    } else if s[0] == c {
        0
    } else {
        let r = find_ch(s.drop_first(), c);
        if r < 0 {
            -1
        } else {
            r + 1
        }
    }
}

pub proof fn lemma_find_ch(s: Seq<char>, c: char)
    ensures
        find_ch(s, c) == -1 ==> (forall|j: int| 0 <= j < s.len() ==> s[j] != c),
        find_ch(s, c) >= 0 ==> 0 <= find_ch(s, c) < s.len() && s[find_ch(s, c)] == c && (forall|
            j: int,
        |
            0 <= j < find_ch(s, c) ==> s[j] != c),
        find_ch(s, c) >= -1,
    decreases s.len(),
{
    if s.len() == 0 {
    } else if s[0] == c {
    } else {
        lemma_find_ch(s.drop_first(), c);
        let r = find_ch(s.drop_first(), c);
        if r < 0 {
            assert forall|j: int| 0 <= j < s.len() implies s[j] != c by {
                if j >= 1 {
                    assert(s[j] == s.drop_first()[j - 1]);
                }
            }
        } else {
            assert(s[r + 1] == s.drop_first()[r]);
            assert forall|j: int| 0 <= j < r + 1 implies s[j] != c by {
                if j >= 1 {
                    assert(s[j] == s.drop_first()[j - 1]);
                }
            }
        }
    }
}

/// Converse: a first occurrence at `i` pins `find_ch`.
pub proof fn lemma_find_ch_at(s: Seq<char>, c: char, i: int)
    requires
        0 <= i < s.len(),
        s[i] == c,
        forall|j: int| 0 <= j < i ==> s[j] != c,
    ensures
        find_ch(s, c) == i,
{
    lemma_find_ch(s, c);
}

/// No occurrence at all pins `find_ch` to `-1`.
pub proof fn lemma_find_ch_none(s: Seq<char>, c: char)
    requires
        forall|j: int| 0 <= j < s.len() ==> s[j] != c,
    ensures
        find_ch(s, c) == -1,
{
    lemma_find_ch(s, c);
}

/// First occurrence of `c` in `v`, scanning left to right.
pub fn find_ch_vec(v: &Vec<char>, c: char) -> (r: Option<usize>)
    ensures
        match r {
            Some(i) => i < v@.len() && find_ch(v@, c) == i as int,
            None => find_ch(v@, c) == -1,
        },
{
    let n = v.len();
    let mut i: usize = 0;
    while i < n
        invariant
            0 <= i <= n,
            n == v@.len(),
            forall|j: int| 0 <= j < i ==> v@[j] != c,
        decreases n - i,
    {
        if v[i] == c {
            proof {
                lemma_find_ch_at(v@, c, i as int);
            }
            return Some(i);
        }
        i = i + 1;
    }
    proof {
        lemma_find_ch_none(v@, c);
    }
    None
}

/// The pieces of `s` between occurrences of `sep`, in order; an empty
/// `s` yields one empty piece, a trailing separator a trailing empty
/// piece, as `str::split` does.
pub open spec fn split_on(s: Seq<char>, sep: char) -> Seq<Seq<char>>
    decreases s.len(),
{
    let i = find_ch(s, sep);
    if i < 0 || i >= s.len() {
        seq![s]
    } else {
        seq![s.subrange(0, i)] + split_on(s.subrange(i + 1, s.len() as int), sep)
    }
}

/// The views of a sequence of character vectors.
pub open spec fn seq_views(s: Seq<Vec<char>>) -> Seq<Seq<char>> {
    s.map_values(|x: Vec<char>| x@)
}

pub fn split_chars(v: &Vec<char>, sep: char) -> (r: Vec<Vec<char>>)
    ensures
        seq_views(r@) == split_on(v@, sep),
{
    let n = v.len();
    let mut r: Vec<Vec<char>> = Vec::new();
    proof {
        assert(v@ =~= v@.subrange(0, n as int));
        assert(seq_views(r@) + split_on(v@.subrange(0, n as int), sep) =~= split_on(v@, sep));
    }
    let mut start: usize = 0;
    let mut i: usize = 0;
    while i < n
        invariant
            0 <= start <= i <= n,
            n == v@.len(),
            forall|j: int| start <= j < i ==> v@[j] != sep,
            split_on(v@, sep) == seq_views(r@) + split_on(
                v@.subrange(start as int, n as int),
                sep,
            ),
        decreases n - i,
    {
        if v[i] == sep {
            let piece = subvec(v, start, i);
            proof {
                let rest = v@.subrange(start as int, n as int);
                assert forall|j: int| 0 <= j < i - start implies rest[j] != sep by {
                    assert(rest[j] == v@[start + j]);
                }
                assert(rest[i - start] == v@[i as int]);
                lemma_find_ch_at(rest, sep, i - start);
                assert(rest.subrange(0, i - start) =~= v@.subrange(start as int, i as int));
                assert(rest.subrange(i - start + 1, rest.len() as int) =~= v@.subrange(
                    i as int + 1,
                    n as int,
                ));
                assert(split_on(rest, sep) == seq![v@.subrange(start as int, i as int)] + split_on(
                    v@.subrange(i as int + 1, n as int),
                    sep,
                ));
                assert(seq_views(r@.push(piece)) =~= seq_views(r@) + seq![piece@]);
                assert(seq_views(r@) + split_on(rest, sep) =~= seq_views(r@.push(piece))
                    + split_on(v@.subrange(i as int + 1, n as int), sep));
            }
            r.push(piece);
            start = i + 1;
        }
        i = i + 1;
    }
    let piece = subvec(v, start, n);
    proof {
        let rest = v@.subrange(start as int, n as int);
        assert forall|j: int| 0 <= j < rest.len() implies rest[j] != sep by {
            assert(rest[j] == v@[start + j]);
        }
        lemma_find_ch_none(rest, sep);
        assert(split_on(rest, sep) == seq![rest]);
        assert(seq_views(r@.push(piece)) =~= seq_views(r@) + seq![piece@]);
    }
    r.push(piece);
    r
}

/// Whether `p` occurs in `s` starting at index `i`.
pub open spec fn match_at(s: Seq<char>, p: Seq<char>, i: int) -> bool {
    0 <= i && i + p.len() <= s.len() && s.subrange(i, i + p.len() as int) == p
}

/// Index of the first occurrence of `p` in `s`, or `-1`; the empty
/// pattern matches at index 0.
pub open spec fn find_sub(s: Seq<char>, p: Seq<char>) -> int
    decreases s.len(),
{
    if p.len() == 0 {
        0
    } else if s.len() < p.len() {
        -1
    } else if s.subrange(0, p.len() as int) == p {
        0
    } else {
        let r = find_sub(s.drop_first(), p);
        if r < 0 {
            -1
        } else {
            r + 1
        }
    }
}

/// Whether `p` occurs anywhere in `s`.
pub open spec fn contains_sub(s: Seq<char>, p: Seq<char>) -> bool {
    find_sub(s, p) >= 0
}

pub proof fn lemma_find_sub(s: Seq<char>, p: Seq<char>)
    requires
        p.len() > 0,
    ensures
        find_sub(s, p) == -1 ==> (forall|j: int| !match_at(s, p, j)),
        find_sub(s, p) >= 0 ==> match_at(s, p, find_sub(s, p)) && (forall|j: int|
            0 <= j < find_sub(s, p) ==> !match_at(s, p, j)),
        find_sub(s, p) >= -1,
    decreases s.len(),
{
    if s.len() < p.len() {
        assert forall|j: int| !match_at(s, p, j) by {}
    } else if s.subrange(0, p.len() as int) == p {
    } else {
        lemma_find_sub(s.drop_first(), p);
        assert forall|j: int|
            1 <= j && j + p.len() <= s.len() implies (match_at(s, p, j) == match_at(
            s.drop_first(),
            p,
            j - 1,
        )) by {
            assert(s.subrange(j, j + p.len() as int) =~= s.drop_first().subrange(
                j - 1,
                j - 1 + p.len() as int,
            ));
        }
        let r = find_sub(s.drop_first(), p);
        if r < 0 {
            assert forall|j: int| !match_at(s, p, j) by {
                if 1 <= j && j + p.len() <= s.len() {
                    assert(!match_at(s.drop_first(), p, j - 1));
                }
            }
        } else {
            assert(match_at(s.drop_first(), p, r));
            assert(match_at(s, p, r + 1));
            assert forall|j: int| 0 <= j < r + 1 implies !match_at(s, p, j) by {
                if 1 <= j && j + p.len() <= s.len() {
                    assert(!match_at(s.drop_first(), p, j - 1));
                }
            }
        }
    }
}

/// Converse: a first occurrence at `i` pins `find_sub`.
pub proof fn lemma_find_sub_at(s: Seq<char>, p: Seq<char>, i: int)
    requires
        p.len() > 0,
        match_at(s, p, i),
        forall|j: int| 0 <= j < i ==> !match_at(s, p, j),
    ensures
        find_sub(s, p) == i,
{
    lemma_find_sub(s, p);
}

/// No occurrence at all pins `find_sub` to `-1`.
pub proof fn lemma_find_sub_none(s: Seq<char>, p: Seq<char>)
    requires
        p.len() > 0,
        forall|j: int| !match_at(s, p, j),
    ensures
        find_sub(s, p) == -1,
{
    lemma_find_sub(s, p);
}

/// First occurrence of `p` in `v` at or after `from`, scanning left to
/// right.
pub fn find_match(v: &Vec<char>, p: &Vec<char>, from: usize) -> (r: Option<usize>)
    requires
        p@.len() >= 1,
        from <= v@.len(),
    ensures
        match r {
            Some(i) => from <= i && match_at(v@, p@, i as int) && (forall|j: int|
                from <= j < i ==> !match_at(v@, p@, j)),
            None => forall|j: int| from <= j ==> !match_at(v@, p@, j),
        },
{
    let n = v.len();
    let m = p.len();
    if m > n {
        proof {
            assert forall|j: int| from <= j implies !match_at(v@, p@, j) by {}
        }
        return None;
    }
    let last = n - m;
    if from > last {
        proof {
            assert forall|j: int| from <= j implies !match_at(v@, p@, j) by {
                assert(j + p@.len() > v@.len());
            }
        }
        return None;
    }
    let mut i: usize = from;
    while i <= last
        invariant
            from <= i,
            m == p@.len(),
            n == v@.len(),
            1 <= m <= n,
            last == n - m,
            i <= last + 1,
            forall|j: int| from <= j < i ==> !match_at(v@, p@, j),
        decreases last + 1 - i,
    {
        let mut k: usize = 0;
        let mut ok = true;
        while k < m
            invariant
                0 <= k <= m,
                m == p@.len(),
                n == v@.len(),
                i + m <= n,
                ok ==> (forall|t: int| 0 <= t < k ==> v@[i + t] == p@[t]),
                !ok ==> !match_at(v@, p@, i as int),
            decreases m - k,
        {
            if v[i + k] != p[k] {
                proof {
                    assert(v@.subrange(i as int, i + m as int)[k as int] == v@[i + k]);
                }
                ok = false;
                k = m;
            } else {
                k = k + 1;
            }
        }
        if ok {
            proof {
                assert(v@.subrange(i as int, i + m as int) =~= p@);
            }
            return Some(i);
        }
        i = i + 1;
    }
    proof {
        assert forall|j: int| from <= j implies !match_at(v@, p@, j) by {
            if j <= last {
            } else {
                assert(j + p@.len() > v@.len());
            }
        }
    }
    None
}

/// Whether the literal `pat` occurs in `v`.
pub fn contains_str(v: &Vec<char>, pat: &str) -> (r: bool)
    ensures
        r == contains_sub(v@, pat@),
{
    let p = str_to_chars(pat);
    if p.len() == 0 {
        proof {
            assert(find_sub(v@, pat@) == 0);
        }
        return true;
    }
    let found = find_match(v, &p, 0);
    proof {
        match found {
            Some(i) => {
                lemma_find_sub(v@, pat@);
                if find_sub(v@, pat@) == -1 {
                    assert(!match_at(v@, pat@, i as int));
                }
            },
            None => {
                lemma_find_sub_none(v@, pat@);
            },
        }
    }
    found.is_some()
}

/// Whether `v` starts with the literal `pat`.
pub fn starts_with_str(v: &Vec<char>, pat: &str) -> (r: bool)
    ensures
        r == pat@.is_prefix_of(v@),
{
    let m = pat.unicode_len();
    if m > v.len() {
        return false;
    }
    let mut k: usize = 0;
    while k < m
        invariant
            0 <= k <= m,
            m == pat@.len(),
            m <= v@.len(),
            forall|t: int| 0 <= t < k ==> v@[t] == pat@[t],
        decreases m - k,
    {
        if v[k] != pat.get_char(k) {
            proof {
                assert(v@.subrange(0, m as int)[k as int] == v@[k as int]);
            }
            return false;
        }
        k = k + 1;
    }
    proof {
        assert(v@.subrange(0, m as int) =~= pat@);
    }
    true
}

/// `s` with every occurrence of `p`, found left to right, replaced by
/// `r`; if `p` is empty the result is `s`.
pub open spec fn replace_all(s: Seq<char>, p: Seq<char>, r: Seq<char>) -> Seq<char>
    decreases s.len(),
{
    if p.len() == 0 {
        s
    } else {
        let i = find_sub(s, p);
        if i < 0 || i + p.len() > s.len() {
            s
        } else {
            s.subrange(0, i) + r + replace_all(s.subrange(i + p.len() as int, s.len() as int), p, r)
        }
    }
}

pub fn replace_chars(v: &Vec<char>, p: &Vec<char>, rep: &Vec<char>) -> (out: Vec<char>)
    ensures
        out@ == replace_all(v@, p@, rep@),
{
    let n = v.len();
    if p.len() == 0 {
        let r = subvec(v, 0, n);
        proof {
            assert(v@.subrange(0, n as int) =~= v@);
        }
        return r;
    }
    let mut out: Vec<char> = Vec::new();
    let mut pos: usize = 0;
    proof {
        assert(v@ =~= v@.subrange(0, n as int));
    }
    while pos < n
        invariant
            0 <= pos <= n,
            n == v@.len(),
            p@.len() >= 1,
            replace_all(v@, p@, rep@) == out@ + replace_all(
                v@.subrange(pos as int, n as int),
                p@,
                rep@,
            ),
        decreases n - pos,
    {
        let found = find_match(v, p, pos);
        match found {
            Some(i) => {
                proof {
                    let rest = v@.subrange(pos as int, n as int);
                    assert(match_at(rest, p@, i - pos)) by {
                        assert(rest.subrange(i - pos, i - pos + p@.len() as int) =~= v@.subrange(
                            i as int,
                            i + p@.len() as int,
                        ));
                    }
                    assert forall|j: int| 0 <= j < i - pos implies !match_at(rest, p@, j) by {
                        if j + p@.len() <= rest.len() {
                            assert(rest.subrange(j, j + p@.len() as int) =~= v@.subrange(
                                pos + j,
                                pos + j + p@.len() as int,
                            ));
                            assert(!match_at(v@, p@, pos + j));
                        }
                    }
                    lemma_find_sub_at(rest, p@, i - pos);
                    assert(rest.subrange(0, i - pos) =~= v@.subrange(pos as int, i as int));
                    assert(rest.subrange(i - pos + p@.len() as int, rest.len() as int)
                        =~= v@.subrange(i + p@.len() as int, n as int));
                    assert(replace_all(rest, p@, rep@) == v@.subrange(pos as int, i as int) + rep@
                        + replace_all(v@.subrange(i + p@.len() as int, n as int), p@, rep@));
                }
                let chunk = subvec(v, pos, i);
                extend_chars(&mut out, &chunk);
                extend_chars(&mut out, rep);
                pos = i + p.len();
                proof {
                    assert(replace_all(v@, p@, rep@) == out@ + replace_all(
                        v@.subrange(pos as int, n as int),
                        p@,
                        rep@,
                    ));
                }
            },
            None => {
                proof {
                    let rest = v@.subrange(pos as int, n as int);
                    assert forall|j: int| !match_at(rest, p@, j) by {
                        if 0 <= j && j + p@.len() <= rest.len() {
                            assert(rest.subrange(j, j + p@.len() as int) =~= v@.subrange(
                                pos + j,
                                pos + j + p@.len() as int,
                            ));
                            assert(!match_at(v@, p@, pos + j));
                        }
                    }
                    lemma_find_sub_none(rest, p@);
                    assert(replace_all(rest, p@, rep@) == rest);
                }
                let chunk = subvec(v, pos, n);
                extend_chars(&mut out, &chunk);
                return out;
            },
        }
    }
    proof {
        let rest = v@.subrange(pos as int, n as int);
        assert(rest =~= Seq::<char>::empty());
        assert(find_sub(rest, p@) == -1);
        assert(out@ =~= out@ + rest);
    }
    out
}

/// An occurrence anywhere establishes containment.
pub proof fn lemma_contains_at(s: Seq<char>, p: Seq<char>, i: int)
    requires
        p.len() > 0,
        match_at(s, p, i),
    ensures
        contains_sub(s, p),
{
    lemma_find_sub(s, p);
    if find_sub(s, p) == -1 {
        assert(!match_at(s, p, i));
    }
}

/// Containment survives extending the text on the right.
pub proof fn lemma_contains_extend_right(a: Seq<char>, b: Seq<char>, p: Seq<char>)
    requires
        p.len() > 0,
        contains_sub(a, p),
    ensures
        contains_sub(a + b, p),
{
    lemma_find_sub(a, p);
    let i = find_sub(a, p);
    assert(match_at(a, p, i));
    assert((a + b).subrange(i, i + p.len() as int) =~= a.subrange(i, i + p.len() as int));
    lemma_contains_at(a + b, p, i);
}

/// Containment survives extending the text on the left.
pub proof fn lemma_contains_extend_left(a: Seq<char>, b: Seq<char>, p: Seq<char>)
    requires
        p.len() > 0,
        contains_sub(b, p),
    ensures
        contains_sub(a + b, p),
{
    lemma_find_sub(b, p);
    let i = find_sub(b, p);
    assert(match_at(b, p, i));
    assert((a + b).subrange(a.len() + i, a.len() + i + p.len() as int) =~= b.subrange(
        i,
        i + p.len() as int,
    ));
    lemma_contains_at(a + b, p, a.len() + i);
}

/// A text that avoids `p` has no part that holds `p`.
pub proof fn lemma_not_contains_subrange(s: Seq<char>, p: Seq<char>, a: int, b: int)
    requires
        p.len() > 0,
        0 <= a <= b <= s.len(),
        !contains_sub(s, p),
    ensures
        !contains_sub(s.subrange(a, b), p),
{
    let sub = s.subrange(a, b);
    lemma_find_sub(sub, p);
    let i = find_sub(sub, p);
    if i >= 0 {
        assert(match_at(sub, p, i));
        assert(s.subrange(a + i, a + i + p.len() as int) =~= sub.subrange(i, i + p.len() as int));
        lemma_contains_at(s, p, a + i);
    }
}

/// A sequence without leading or trailing whitespace is its own trim.
pub proof fn lemma_trim_id(s: Seq<char>)
    requires
        s.len() == 0 || (!is_space(s[0]) && !is_space(s[s.len() - 1])),
    ensures
        trim(s) == s,
{
}

/// The trim of a trimmed non-empty sequence has no whitespace at its
/// ends.
pub proof fn lemma_trim_ends(s: Seq<char>)
    requires
        trim(s) == s,
        s.len() > 0,
    ensures
        !is_space(s[0]),
        !is_space(s[s.len() - 1]),
    decreases s.len(),
{
    lemma_trim_front_len(s);
    lemma_trim_back_len(trim_front(s));
    if is_space(s[0]) {
        lemma_trim_front_len(s.drop_first());
        lemma_trim_back_len(trim_front(s.drop_first()));
        assert(trim(s).len() <= s.drop_first().len());
    }
    assert(trim_front(s) == s) by {
        lemma_trim_front_len(s);
        if is_space(s[0]) {
        }
    }
    if is_space(s[s.len() - 1]) {
        assert(trim_back(s) == trim_back(s.drop_last()));
        lemma_trim_back_len(s.drop_last());
        assert(trim(s).len() <= s.drop_last().len());
    }
}

/// Trimming only removes characters.
pub proof fn lemma_trim_front_len(s: Seq<char>)
    ensures
        trim_front(s).len() <= s.len(),
    decreases s.len(),
{
    if s.len() > 0 && is_space(s[0]) {
        lemma_trim_front_len(s.drop_first());
    }
}

/// Trimming only removes characters.
pub proof fn lemma_trim_back_len(s: Seq<char>)
    ensures
        trim_back(s).len() <= s.len(),
    decreases s.len(),
{
    if s.len() > 0 && is_space(s[s.len() - 1]) {
        lemma_trim_back_len(s.drop_last());
    }
}

/// A trailing space falls to the trim of an otherwise trimmed text.
pub proof fn lemma_trim_with_trailing_space(k: Seq<char>)
    requires
        k.len() > 0,
        !is_space(k[0]),
        !is_space(k[k.len() - 1]),
    ensures
        trim(k + seq![' ']) == k,
{
    let s = k + seq![' '];
    assert(trim_front(s) == s);
    assert(s[s.len() - 1] == ' ');
    assert(s.drop_last() =~= k);
    assert(trim_back(s) == trim_back(k));
    assert(trim_back(k) == k);
}

/// A leading space falls to the trim of an otherwise trimmed text.
pub proof fn lemma_trim_with_leading_space(v: Seq<char>)
    requires
        trim(v) == v,
    ensures
        trim(seq![' '] + v) == v,
{
    let s = seq![' '] + v;
    assert(s[0] == ' ');
    assert(s.drop_first() =~= v);
    assert(trim_front(s) == trim_front(v));
    if v.len() == 0 {
        assert(trim_front(v) == v);
    } else {
        lemma_trim_ends(v);
        assert(trim_front(v) == v);
        assert(trim_back(v) == v);
    }
}

/// Substituting one pattern and then substituting it back restores the
/// original, provided the inserted text does not occur in the original
/// and cannot overlap a shifted copy of itself.
pub proof fn lemma_replace_round_trip(t: Seq<char>, p: Seq<char>, i: Seq<char>)
    requires
        p.len() > 0,
        i.len() > 0,
        !contains_sub(t, i),
        forall|d: int|
            0 < d < i.len() ==> i.subrange(d, i.len() as int) != i.subrange(0, i.len() - d),
    ensures
        replace_all(replace_all(t, p, i), i, p) == t,
    decreases t.len(),
{
    lemma_find_sub(t, p);
    let k = find_sub(t, p);
    if k < 0 || k + p.len() > t.len() {
        assert(replace_all(t, p, i) == t);
        lemma_find_sub(t, i);
        if find_sub(t, i) >= 0 {
            assert(contains_sub(t, i));
        }
        assert(replace_all(t, i, p) == t);
    } else {
        let pre = t.subrange(0, k);
        let rest = t.subrange(k + p.len() as int, t.len() as int);
        let u = pre + i + replace_all(rest, p, i);
        assert(replace_all(t, p, i) == u);
        lemma_not_contains_subrange(t, i, k + p.len() as int, t.len() as int);
        lemma_replace_round_trip(rest, p, i);
        let rr = replace_all(rest, p, i);
        // the spliced copy of `i` is the first occurrence of `i` in `u`
        assert(match_at(u, i, pre.len() as int)) by {
            assert(u.subrange(pre.len() as int, pre.len() + i.len() as int) =~= i);
        }
        assert forall|j: int| 0 <= j < pre.len() implies !match_at(u, i, j) by {
            if j + i.len() <= u.len() {
                if j + i.len() <= pre.len() {
                    // an occurrence inside the prefix would be one in `t`
                    if match_at(u, i, j) {
                        assert(t.subrange(j, j + i.len() as int) =~= u.subrange(
                            j,
                            j + i.len() as int,
                        )) by {
                            assert forall|x: int|
                                0 <= x < i.len() implies t[j + x] == #[trigger] u[j + x] by {
                                assert(u[j + x] == pre[j + x]);
                                assert(pre[j + x] == t[j + x]);
                            }
                        }
                        lemma_contains_at(t, i, j);
                    }
                } else {
                    // an occurrence straddling the splice point forces a
                    // shifted copy of `i` to match itself
                    if match_at(u, i, j) {
                        let d = pre.len() - j;
                        assert(0 < d < i.len());
                        assert forall|x: int| 0 <= x < i.len() - d implies i.subrange(
                            d,
                            i.len() as int,
                        )[x] == i.subrange(0, i.len() - d)[x] by {
                            assert(u.subrange(j, j + i.len() as int)[d + x] == i[d + x]);
                            assert(u[j + d + x] == u[pre.len() + x]);
                            assert(u[pre.len() + x] == i[x]);
                        }
                        assert(i.subrange(d, i.len() as int) =~= i.subrange(0, i.len() - d));
                    }
                }
            }
        }
        lemma_find_sub_at(u, i, pre.len() as int);
        assert(u.subrange(0, pre.len() as int) =~= pre);
        assert(u.subrange(pre.len() + i.len() as int, u.len() as int) =~= rr);
        assert(replace_all(u, i, p) == pre + p + replace_all(rr, i, p));
        assert(replace_all(rr, i, p) == rest);
        assert(t.subrange(k, k + p.len() as int) == p);
        assert(pre + p + rest =~= t);
    }
}

/// The pieces of `parts` joined with `sep` between neighbours.
pub open spec fn join_sep(parts: Seq<Seq<char>>, sep: Seq<char>) -> Seq<char>
    decreases parts.len(),
{
    if parts.len() == 0 {
        Seq::empty()
    } else if parts.len() == 1 {
        parts[0]
    } else {
        parts[0] + sep + join_sep(parts.drop_first(), sep)
    }
}

/// Appending a piece extends the join by a separator and that piece.
pub proof fn lemma_join_push(parts: Seq<Seq<char>>, sep: Seq<char>, x: Seq<char>)
    ensures
        parts.len() == 0 ==> join_sep(parts.push(x), sep) == x,
        parts.len() > 0 ==> join_sep(parts.push(x), sep) == join_sep(parts, sep) + sep + x,
    decreases parts.len(),
{
    let parts2 = parts.push(x);
    if parts.len() == 0 {
        assert(parts2[0] == x);
    } else if parts.len() == 1 {
        assert(parts2.drop_first() =~= seq![x]);
        assert(join_sep(seq![x], sep) == x);
        assert(parts2[0] == parts[0]);
        assert(join_sep(parts2, sep) == parts[0] + sep + x);
    } else {
        assert(parts2.drop_first() =~= parts.drop_first().push(x));
        lemma_join_push(parts.drop_first(), sep, x);
        assert(parts[0] + sep + (join_sep(parts.drop_first(), sep) + sep + x) =~= (parts[0] + sep
            + join_sep(parts.drop_first(), sep)) + sep + x);
    }
}

/// Join the pieces with the literal `sep` between neighbours.
pub fn join_chars(parts: &Vec<Vec<char>>, sep: &str) -> (out: Vec<char>)
    ensures
        out@ == join_sep(seq_views(parts@), sep@),
{
    let n = parts.len();
    let mut out: Vec<char> = Vec::new();
    let mut i: usize = 0;
    while i < n
        invariant
            0 <= i <= n,
            n == parts@.len(),
            out@ == join_sep(seq_views(parts@).subrange(0, i as int), sep@),
        decreases n - i,
    {
        if i > 0 {
            extend_str(&mut out, sep);
        }
        let piece: &Vec<char> = &parts[i];
        extend_chars(&mut out, piece);
        proof {
            let all = seq_views(parts@);
            assert(all.subrange(0, i as int + 1) =~= all.subrange(0, i as int).push(all[i as int]));
            lemma_join_push(all.subrange(0, i as int), sep@, all[i as int]);
            assert(all[i as int] == parts@[i as int]@);
        }
        i = i + 1;
    }
    proof {
        assert(seq_views(parts@).subrange(0, n as int) =~= seq_views(parts@));
    }
    out
}

/// The lines of `lines`, each followed by a newline character.
pub open spec fn unlines(lines: Seq<Seq<char>>) -> Seq<char>
    decreases lines.len(),
{
    if lines.len() == 0 {
        Seq::empty()
    } else {
        lines[0] + seq!['\n'] + unlines(lines.drop_first())
    }
}

/// A single line contributes itself and a newline.
pub proof fn lemma_unlines_single(l: Seq<char>)
    ensures
        unlines(seq![l]) == l + seq!['\n'],
{
    assert(seq![l].drop_first() =~= Seq::<Seq<char>>::empty());
    assert(unlines(Seq::<Seq<char>>::empty()) == Seq::<char>::empty());
    assert(seq![l][0] == l);
    assert((l + seq!['\n']) + Seq::<char>::empty() =~= l + seq!['\n']);
}

/// `unlines` distributes over concatenation of line blocks.
pub proof fn lemma_unlines_concat(a: Seq<Seq<char>>, b: Seq<Seq<char>>)
    ensures
        unlines(a + b) == unlines(a) + unlines(b),
    decreases a.len(),
{
    if a.len() == 0 {
        assert(a + b =~= b);
        assert(unlines(a) + unlines(b) =~= unlines(b));
    } else {
        assert((a + b).drop_first() =~= a.drop_first() + b);
        assert((a + b)[0] == a[0]);
        lemma_unlines_concat(a.drop_first(), b);
        assert(a[0] + seq!['\n'] + (unlines(a.drop_first()) + unlines(b)) =~= (a[0] + seq!['\n']
            + unlines(a.drop_first())) + unlines(b));
    }
}

/// The decimal digit character for `d`.
pub open spec fn dec_digit(d: int) -> char {
    if d == 0 {
        '0'
    } else if d == 1 {
        '1'
    } else if d == 2 {
        '2'
    } else if d == 3 {
        '3'
    } else if d == 4 {
        '4'
    } else if d == 5 {
        '5'
    } else if d == 6 {
        '6'
    } else if d == 7 {
        '7'
    } else if d == 8 {
        '8'
    } else {
        '9'
    }
}

/// The decimal rendering of a non-negative integer.
pub open spec fn dec_str(n: int) -> Seq<char>
    decreases n,
{
    if n < 10 {
        seq![dec_digit(n)]
    } else {
        dec_str(n / 10) + seq![dec_digit(n % 10)]
    }
}

fn dec_digit_exec(d: usize) -> (r: char)
    requires
        d < 10,
    ensures
        r == dec_digit(d as int),
{
    if d == 0 {
        '0'
    } else if d == 1 {
        '1'
    } else if d == 2 {
        '2'
    } else if d == 3 {
        '3'
    } else if d == 4 {
        '4'
    } else if d == 5 {
        '5'
    } else if d == 6 {
        '6'
    } else if d == 7 {
        '7'
    } else if d == 8 {
        '8'
    } else {
        '9'
    }
}

/// The decimal rendering of `n` as characters.
pub fn dec_chars(n: usize) -> (r: Vec<char>)
    ensures
        r@ == dec_str(n as int),
    decreases n,
{
    if n < 10 {
        let mut r: Vec<char> = Vec::new();
        r.push(dec_digit_exec(n));
        proof {
            assert(r@ =~= dec_str(n as int));
        }
        r
    } else {
        let mut r = dec_chars(n / 10);
        r.push(dec_digit_exec(n % 10));
        proof {
            assert(r@ =~= dec_str(n as int));
        }
        r
    }
}

} // verus!
