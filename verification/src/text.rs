//! Verified text utilities the backend parsers are built on: character
//! extraction, splitting, substring search, trimming, case folding,
//! replacement, and integer parsing. All of them work on sequences of
//! characters so that every parser can state exactly what it extracts.

use vstd::prelude::*;

verus! {

use vstd::string::StrSliceExecFns;

/// Relies on `String: FromIterator<char>`: collecting characters yields the
/// string made of exactly those characters, in order.
#[verifier::external_body]
pub(crate) fn string_from_chars(v: &Vec<char>) -> (r: String)
    ensures
        r@ == v@,
{
    v.iter().collect()
}

/// The characters of a string slice, as a vector.
pub fn chars_of(s: &str) -> (r: Vec<char>)
    ensures
        r@ == s@,
{
    let n = s.unicode_len();
    let mut r: Vec<char> = Vec::new();
    let mut i: usize = 0;
    while i < n
        invariant
            i <= n,
            n == s@.len(),
            r@ == s@.take(i as int),
        decreases n - i,
    {
        let c = s.get_char(i);
        r.push(c);
        proof {
            assert(s@.take(i + 1 as int) =~= s@.take(i as int).push(s@[i as int]));
        }
        i += 1;
    }
    proof {
        assert(r@ =~= s@);
    }
    r
}

/// Whether two character vectors hold the same sequence.
pub fn chars_eq(a: &Vec<char>, b: &Vec<char>) -> (r: bool)
    ensures
        r == (a@ == b@),
{
    if a.len() != b.len() {
        proof {
            assert(a@ != b@);
        }
        return false;
    }
    let mut i: usize = 0;
    while i < a.len()
        invariant
            i <= a.len(),
            a.len() == b.len(),
            forall|j: int| 0 <= j < i ==> a@[j] == b@[j],
        decreases a.len() - i,
    {
        if a[i] != b[i] {
            return false;
        }
        i += 1;
    }
    proof {
        assert(a@ =~= b@);
    }
    true
}

/// ASCII upper-casing of one character; anything outside `a..=z` is kept.
pub open spec fn spec_upper_char(c: char) -> char {
    if 'a' <= c && c <= 'z' {
        ((c as u8) - 0x20) as char
    } else {
        c
    }
}

/// ASCII lower-casing of one character; anything outside `A..=Z` is kept.
pub open spec fn spec_lower_char(c: char) -> char {
    if 'A' <= c && c <= 'Z' {
        ((c as u8) + 0x20) as char
    } else {
        c
    }
}

pub open spec fn spec_upper(s: Seq<char>) -> Seq<char> {
    s.map_values(|c: char| spec_upper_char(c))
}

pub open spec fn spec_lower(s: Seq<char>) -> Seq<char> {
    s.map_values(|c: char| spec_lower_char(c))
}

pub fn to_upper(s: &Vec<char>) -> (r: Vec<char>)
    ensures
        r@ == spec_upper(s@),
{
    let mut r: Vec<char> = Vec::new();
    let mut i: usize = 0;
    while i < s.len()
        invariant
            i <= s.len(),
            r@ == spec_upper(s@.take(i as int)),
        decreases s.len() - i,
    {
        let c = s[i];
        let u = if 'a' <= c && c <= 'z' {
            ((c as u8) - 0x20) as char
        } else {
            c
        };
        r.push(u);
        proof {
            assert(spec_upper(s@.take(i + 1 as int)) =~= spec_upper(s@.take(i as int)).push(
                spec_upper_char(s@[i as int]),
            ));
        }
        i += 1;
    }
    proof {
        assert(s@.take(s@.len() as int) =~= s@);
    }
    r
}

pub fn to_lower(s: &Vec<char>) -> (r: Vec<char>)
    ensures
        r@ == spec_lower(s@),
{
    let mut r: Vec<char> = Vec::new();
    let mut i: usize = 0;
    while i < s.len()
        invariant
            i <= s.len(),
            r@ == spec_lower(s@.take(i as int)),
        decreases s.len() - i,
    {
        let c = s[i];
        let u = if 'A' <= c && c <= 'Z' {
            ((c as u8) + 0x20) as char
        } else {
            c
        };
        r.push(u);
        proof {
            assert(spec_lower(s@.take(i + 1 as int)) =~= spec_lower(s@.take(i as int)).push(
                spec_lower_char(s@[i as int]),
            ));
        }
        i += 1;
    }
    proof {
        assert(s@.take(s@.len() as int) =~= s@);
    }
    r
}

/// Index of the first occurrence of `c` in `s`, if any.
pub open spec fn spec_find_char(s: Seq<char>, c: char) -> Option<int>
    decreases s.len(),
{
    if s.len() == 0 {
        None
    } else if s[0] == c {
        Some(0int)
    } else {
        match spec_find_char(s.drop_first(), c) {
            Some(i) => Some(i + 1),
            None => None,
        }
    }
}

proof fn lemma_find_char_at(s: Seq<char>, c: char, i: int)
    requires
        0 <= i < s.len(),
        s[i] == c,
        forall|j: int| 0 <= j < i ==> s[j] != c,
    ensures
        spec_find_char(s, c) == Some(i),
    decreases s.len(),
{
    if i > 0 {
        lemma_find_char_at(s.drop_first(), c, i - 1);
    }
}

proof fn lemma_find_char_none(s: Seq<char>, c: char)
    requires
        forall|j: int| 0 <= j < s.len() ==> s[j] != c,
    ensures
        spec_find_char(s, c) is None,
    decreases s.len(),
{
    if s.len() > 0 {
        lemma_find_char_none(s.drop_first(), c);
    }
}

pub fn find_char(s: &Vec<char>, c: char) -> (r: Option<usize>)
    ensures
        match r {
            Some(i) => spec_find_char(s@, c) == Some(i as int) && i < s@.len() && s@[i as int]
                == c,
            None => spec_find_char(s@, c) is None,
        },
{
    let mut i: usize = 0;
    while i < s.len()
        invariant
            i <= s.len(),
            forall|j: int| 0 <= j < i ==> s@[j] != c,
        decreases s.len() - i,
    {
        if s[i] == c {
            proof {
                lemma_find_char_at(s@, c, i as int);
            }
            return Some(i);
        }
        i += 1;
    }
    proof {
        lemma_find_char_none(s@, c);
    }
    None
}

/// `pat` occurs in `s` starting at position `i`.
pub open spec fn spec_matches_at(s: Seq<char>, pat: Seq<char>, i: int) -> bool {
    0 <= i && i + pat.len() <= s.len() && s.subrange(i, i + pat.len()) == pat
}

/// `pat` occurs somewhere in `s` (substring containment).
pub open spec fn spec_contains_seq(s: Seq<char>, pat: Seq<char>) -> bool {
    exists|i: int| spec_matches_at(s, pat, i)
}

pub open spec fn spec_starts_with(s: Seq<char>, pat: Seq<char>) -> bool {
    spec_matches_at(s, pat, 0)
}

pub fn matches_at(s: &Vec<char>, pat: &Vec<char>, i: usize) -> (r: bool)
    requires
        i + pat@.len() <= s@.len(),
    ensures
        r == spec_matches_at(s@, pat@, i as int),
{
    let slen = s.len();
    let plen = pat.len();
    let mut k: usize = 0;
    while k < plen
        invariant
            k <= plen,
            slen == s@.len(),
            plen == pat@.len(),
            i + pat@.len() <= s@.len(),
            forall|j: int| 0 <= j < k ==> s@[i + j] == pat@[j],
        decreases plen - k,
    {
        if s[i + k] != pat[k] {
            proof {
                assert(s@.subrange(i as int, i + pat@.len())[k as int] == s@[i + k]);
            }
            return false;
        }
        k += 1;
    }
    proof {
        assert(s@.subrange(i as int, i + pat@.len()) =~= pat@);
    }
    true
}

pub fn contains_seq(s: &Vec<char>, pat: &Vec<char>) -> (r: bool)
    ensures
        r == spec_contains_seq(s@, pat@),
{
    if pat.len() > s.len() {
        return false;
    }
    let bound = s.len() - pat.len();
    let mut i: usize = 0;
    loop
        invariant_except_break
            bound == s@.len() - pat@.len(),
            pat@.len() <= s@.len(),
            i <= bound,
            forall|j: int| 0 <= j < i ==> !spec_matches_at(s@, pat@, j),
        ensures
            !spec_contains_seq(s@, pat@),
        decreases bound - i,
    {
        if matches_at(s, pat, i) {
            return true;
        }
        if i == bound {
            proof {
                assert(forall|j: int| j > bound ==> !spec_matches_at(s@, pat@, j));
            }
            break;
        }
        i += 1;
    }
    false
}

pub fn starts_with(s: &Vec<char>, pat: &Vec<char>) -> (r: bool)
    ensures
        r == spec_starts_with(s@, pat@),
{
    if pat.len() > s.len() {
        return false;
    }
    matches_at(s, pat, 0)
}

/// The whitespace class used for tokenizing and trimming (ASCII whitespace).
pub open spec fn spec_is_space(c: char) -> bool {
    c == ' ' || c == '\t' || c == '\n' || c == '\r' || c == '\u{b}' || c == '\u{c}'
}

pub fn is_space(c: char) -> (r: bool)
    ensures
        r == spec_is_space(c),
{
    c == ' ' || c == '\t' || c == '\n' || c == '\r' || c == '\u{b}' || c == '\u{c}'
}

/// Splitting on a separator character, `str::split` style: `n` separators
/// yield `n + 1` fields, empty fields included.
pub open spec fn spec_split_char(s: Seq<char>, sep: char) -> Seq<Seq<char>>
    decreases s.len(),
{
    if s.len() == 0 {
        seq![Seq::<char>::empty()]
    } else {
        let prev = spec_split_char(s.drop_last(), sep);
        if s.last() == sep {
            prev.push(Seq::empty())
        } else {
            prev.update(prev.len() - 1, prev.last().push(s.last()))
        }
    }
}

pub proof fn lemma_split_char_len(s: Seq<char>, sep: char)
    ensures
        spec_split_char(s, sep).len() >= 1,
    decreases s.len(),
{
    if s.len() > 0 {
        lemma_split_char_len(s.drop_last(), sep);
    }
}

pub fn split_char(s: &Vec<char>, sep: char) -> (r: Vec<Vec<char>>)
    ensures
        r.deep_view() == spec_split_char(s@, sep),
        r.len() >= 1,
{
    let mut done: Vec<Vec<char>> = Vec::new();
    let mut cur: Vec<char> = Vec::new();
    let mut i: usize = 0;
    proof {
        assert(done.deep_view().push(cur@) =~~= spec_split_char(s@.take(0), sep));
    }
    while i < s.len()
        invariant
            i <= s.len(),
            done.deep_view().push(cur@) == spec_split_char(s@.take(i as int), sep),
        decreases s.len() - i,
    {
        let ghost prev_done = done.deep_view();
        let ghost prev_cur = cur@;
        proof {
            assert(s@.take(i + 1 as int).drop_last() =~= s@.take(i as int));
            lemma_split_char_len(s@.take(i as int), sep);
        }
        if s[i] == sep {
            done.push(cur);
            cur = Vec::new();
            proof {
                assert(done.deep_view() =~~= prev_done.push(prev_cur));
                assert(done.deep_view().push(cur@) =~~= spec_split_char(
                    s@.take(i + 1 as int),
                    sep,
                ));
            }
        } else {
            cur.push(s[i]);
            proof {
                let full = spec_split_char(s@.take(i + 1 as int), sep);
                assert(full == prev_done.push(prev_cur).update(
                    prev_done.len() as int,
                    prev_cur.push(s@[i as int]),
                ));
                assert(done.deep_view().push(cur@) =~~= full);
            }
        }
        i += 1;
    }
    proof {
        assert(s@.take(s@.len() as int) =~= s@);
    }
    done.push(cur);
    proof {
        assert(done.deep_view() =~~= spec_split_char(s@, sep));
    }
    done
}

/// Splitting on runs of whitespace, `str::split_whitespace` style: no empty
/// tokens, leading and trailing whitespace ignored.
pub open spec fn spec_split_ws(s: Seq<char>) -> Seq<Seq<char>>
    decreases s.len(),
{
    if s.len() == 0 {
        Seq::empty()
    } else {
        let prev = spec_split_ws(s.drop_last());
        let c = s.last();
        if spec_is_space(c) {
            prev
        } else if s.len() >= 2 && !spec_is_space(s[s.len() - 2]) {
            prev.update(prev.len() - 1, prev.last().push(c))
        } else {
            prev.push(seq![c])
        }
    }
}

pub fn split_ws(s: &Vec<char>) -> (r: Vec<Vec<char>>)
    ensures
        r.deep_view() == spec_split_ws(s@),
{
    let mut done: Vec<Vec<char>> = Vec::new();
    let mut cur: Vec<char> = Vec::new();
    let mut i: usize = 0;
    proof {
        assert(done.deep_view() =~~= spec_split_ws(s@.take(0)));
    }
    while i < s.len()
        invariant
            i <= s.len(),
            cur@.len() > 0 <==> (i > 0 && !spec_is_space(s@[i - 1])),
            cur@.len() > 0 ==> done.deep_view().push(cur@) == spec_split_ws(s@.take(i as int)),
            cur@.len() == 0 ==> done.deep_view() == spec_split_ws(s@.take(i as int)),
        decreases s.len() - i,
    {
        let ghost prev_done = done.deep_view();
        let ghost prev_cur = cur@;
        proof {
            assert(s@.take(i + 1 as int).drop_last() =~= s@.take(i as int));
        }
        let c = s[i];
        if is_space(c) {
            if cur.len() > 0 {
                done.push(cur);
                cur = Vec::new();
                proof {
                    assert(done.deep_view() =~~= prev_done.push(prev_cur));
                }
            }
        } else {
            if cur.len() > 0 {
                cur.push(c);
                proof {
                    let full = spec_split_ws(s@.take(i + 1 as int));
                    assert(full == prev_done.push(prev_cur).update(
                        prev_done.len() as int,
                        prev_cur.push(s@[i as int]),
                    ));
                    assert(done.deep_view().push(cur@) =~~= full);
                }
            } else {
                cur.push(c);
                proof {
                    assert(cur@ =~= seq![s@[i as int]]);
                    assert(done.deep_view().push(cur@) =~~= prev_done.push(seq![s@[i as int]]));
                }
            }
        }
        i += 1;
    }
    proof {
        assert(s@.take(s@.len() as int) =~= s@);
    }
    if cur.len() > 0 {
        let ghost prev_done = done.deep_view();
        let ghost prev_cur = cur@;
        done.push(cur);
        proof {
            assert(done.deep_view() =~~= prev_done.push(prev_cur));
        }
    }
    done
}

/// Leading whitespace removed.
pub open spec fn spec_trim_start(s: Seq<char>) -> Seq<char>
    decreases s.len(),
{
    if s.len() > 0 && spec_is_space(s[0]) {
        spec_trim_start(s.drop_first())
    } else {
        s
    }
}

/// Trailing whitespace removed.
pub open spec fn spec_trim_end(s: Seq<char>) -> Seq<char>
    decreases s.len(),
{
    if s.len() > 0 && spec_is_space(s.last()) {
        spec_trim_end(s.drop_last())
    } else {
        s
    }
}

/// Leading and trailing whitespace removed, `str::trim` style.
pub open spec fn spec_trim(s: Seq<char>) -> Seq<char> {
    spec_trim_end(spec_trim_start(s))
}

proof fn lemma_trim_start_skip(s: Seq<char>, a: int)
    requires
        0 <= a <= s.len(),
        forall|j: int| 0 <= j < a ==> spec_is_space(s[j]),
        a < s.len() ==> !spec_is_space(s[a]),
    ensures
        spec_trim_start(s) == s.skip(a),
    decreases a,
{
    if a == 0 {
        assert(s.skip(0) =~= s);
    } else {
        lemma_trim_start_skip(s.drop_first(), a - 1);
        assert(s.drop_first().skip(a - 1) =~= s.skip(a));
    }
}

proof fn lemma_trim_end_take(s: Seq<char>, b: int)
    requires
        0 <= b <= s.len(),
        forall|j: int| b <= j < s.len() ==> spec_is_space(s[j]),
        b > 0 ==> !spec_is_space(s[b - 1]),
    ensures
        spec_trim_end(s) == s.take(b),
    decreases s.len() - b,
{
    if b == s.len() {
        assert(s.take(b) =~= s);
    } else {
        lemma_trim_end_take(s.drop_last(), b);
        assert(s.drop_last().take(b) =~= s.take(b));
    }
}

pub fn trim(s: &Vec<char>) -> (r: Vec<char>)
    ensures
        r@ == spec_trim(s@),
{
    let mut a: usize = 0;
    loop
        invariant
            a <= s.len(),
            forall|j: int| 0 <= j < a ==> spec_is_space(s@[j]),
        ensures
            a <= s.len(),
            forall|j: int| 0 <= j < a ==> spec_is_space(s@[j]),
            a < s.len() ==> !spec_is_space(s@[a as int]),
        decreases s.len() - a,
    {
        if a >= s.len() {
            break;
        }
        if !is_space(s[a]) {
            break;
        }
        a += 1;
    }
    proof {
        lemma_trim_start_skip(s@, a as int);
    }
    let mut b: usize = s.len();
    loop
        invariant
            a <= b <= s.len(),
            forall|j: int| b <= j < s.len() ==> spec_is_space(s@[j]),
        ensures
            a <= b <= s.len(),
            forall|j: int| b <= j < s.len() ==> spec_is_space(s@[j]),
            b > a ==> !spec_is_space(s@[b - 1]),
        decreases b,
    {
        if b <= a {
            break;
        }
        if !is_space(s[b - 1]) {
            break;
        }
        b -= 1;
    }
    proof {
        let t = s@.skip(a as int);
        assert(forall|j: int| b - a <= j < t.len() ==> spec_is_space(t[j]));
        lemma_trim_end_take(t, b - a);
        assert(spec_trim(s@) == t.take(b - a));
    }
    let mut r: Vec<char> = Vec::new();
    let mut i: usize = a;
    while i < b
        invariant
            a <= i <= b <= s.len(),
            r@ == s@.skip(a as int).take(i - a),
        decreases b - i,
    {
        r.push(s[i]);
        proof {
            assert(s@.skip(a as int).take(i + 1 - a) =~= s@.skip(a as int).take(i - a).push(
                s@[i as int],
            ));
        }
        i += 1;
    }
    r
}


/// Non-overlapping, left-to-right replacement of `pat` by `rep`,
/// `str::replace` style (for a non-empty pattern).
pub open spec fn spec_replace(s: Seq<char>, pat: Seq<char>, rep: Seq<char>) -> Seq<char>
    decreases s.len(),
{
    if pat.len() == 0 || s.len() < pat.len() {
        s
    } else if s.take(pat.len() as int) == pat {
        rep + spec_replace(s.skip(pat.len() as int), pat, rep)
    } else {
        seq![s[0]] + spec_replace(s.drop_first(), pat, rep)
    }
}

pub fn replace(s: &Vec<char>, pat: &Vec<char>, rep: &Vec<char>) -> (r: Vec<char>)
    requires
        pat@.len() > 0,
    ensures
        r@ == spec_replace(s@, pat@, rep@),
{
    let slen = s.len();
    let plen = pat.len();
    let mut out: Vec<char> = Vec::new();
    let mut i: usize = 0;
    proof {
        assert(s@.skip(0) =~= s@);
        assert(Seq::<char>::empty() + spec_replace(s@, pat@, rep@) =~= spec_replace(
            s@,
            pat@,
            rep@,
        ));
    }
    while i < slen
        invariant
            i <= slen,
            slen == s@.len(),
            plen == pat@.len(),
            plen > 0,
            spec_replace(s@, pat@, rep@) == out@ + spec_replace(s@.skip(i as int), pat@, rep@),
        decreases slen - i,
    {
        let ghost pre_out = out@;
        if plen <= slen - i && matches_at(s, pat, i) {
            proof {
                let t = s@.skip(i as int);
                assert(t.take(plen as int) =~= s@.subrange(i as int, i + plen));
                assert(t.skip(plen as int) =~= s@.skip(i + plen));
            }
            let mut k: usize = 0;
            while k < rep.len()
                invariant
                    k <= rep@.len(),
                    out@ == pre_out + rep@.take(k as int),
                decreases rep.len() - k,
            {
                out.push(rep[k]);
                proof {
                    assert(pre_out + rep@.take(k + 1 as int) =~= (pre_out + rep@.take(
                        k as int,
                    )).push(rep@[k as int]));
                }
                k += 1;
            }
            proof {
                assert(rep@.take(rep@.len() as int) =~= rep@);
                assert(out@ + spec_replace(s@.skip(i + plen), pat@, rep@) =~= pre_out + (rep@
                    + spec_replace(s@.skip(i + plen), pat@, rep@)));
            }
            i += plen;
        } else {
            out.push(s[i]);
            proof {
                let t = s@.skip(i as int);
                assert(t[0] == s@[i as int]);
                assert(t.drop_first() =~= s@.skip(i + 1));
                if t.len() < plen {
                    assert(spec_replace(t, pat@, rep@) == t);
                    assert(t.drop_first().len() < plen);
                    assert(spec_replace(t.drop_first(), pat@, rep@) == t.drop_first());
                } else {
                    assert(t.take(plen as int) =~= s@.subrange(i as int, i + plen));
                }
                assert(spec_replace(t, pat@, rep@) == seq![t[0]] + spec_replace(
                    t.drop_first(),
                    pat@,
                    rep@,
                ));
                assert(out@ + spec_replace(s@.skip(i + 1), pat@, rep@) =~= pre_out + (seq![
                    s@[i as int],
                ] + spec_replace(s@.skip(i + 1), pat@, rep@)));
            }
            i += 1;
        }
    }
    proof {
        assert(s@.skip(slen as int) =~= Seq::<char>::empty());
        assert(spec_replace(Seq::<char>::empty(), pat@, rep@) == Seq::<char>::empty());
        assert(out@ + Seq::<char>::empty() =~= out@);
    }
    out
}

/// `n` copies of `c`.
pub fn repeat_char(c: char, n: usize) -> (r: Vec<char>)
    ensures
        r@ == Seq::new(n as nat, |i: int| c),
{
    let mut r: Vec<char> = Vec::new();
    let mut i: usize = 0;
    while i < n
        invariant
            i <= n,
            r@ == Seq::new(i as nat, |j: int| c),
        decreases n - i,
    {
        r.push(c);
        proof {
            assert(r@ =~= Seq::new((i + 1) as nat, |j: int| c));
        }
        i += 1;
    }
    r
}

pub open spec fn spec_is_digit(c: char) -> bool {
    '0' <= c && c <= '9'
}

pub open spec fn spec_digit_val(c: char) -> int {
    c as u32 - '0' as u32
}

pub open spec fn spec_digits_only(s: Seq<char>) -> bool {
    forall|i: int| 0 <= i < s.len() ==> spec_is_digit(s[i])
}

pub open spec fn spec_all_digits(s: Seq<char>) -> bool {
    s.len() > 0 && spec_digits_only(s)
}

/// The value of a digit string read in base ten.
pub open spec fn spec_dec_val(s: Seq<char>) -> int
    decreases s.len(),
{
    if s.len() == 0 {
        0
    } else {
        spec_dec_val(s.drop_last()) * 10 + spec_digit_val(s.last())
    }
}

pub proof fn lemma_dec_val_nonneg(s: Seq<char>)
    requires
        forall|i: int| 0 <= i < s.len() ==> spec_is_digit(s[i]),
    ensures
        spec_dec_val(s) >= 0,
    decreases s.len(),
{
    if s.len() > 0 {
        lemma_dec_val_nonneg(s.drop_last());
    }
}

pub proof fn lemma_dec_val_mono(s: Seq<char>, i: int)
    requires
        0 <= i <= s.len(),
        forall|j: int| 0 <= j < s.len() ==> spec_is_digit(s[j]),
    ensures
        spec_dec_val(s) >= spec_dec_val(s.take(i)),
    decreases s.len() - i,
{
    if i < s.len() {
        lemma_dec_val_mono(s, i + 1);
        let p = s.take(i + 1);
        assert(p.drop_last() =~= s.take(i));
        lemma_dec_val_nonneg(s.take(i));
        assert(spec_dec_val(p) == spec_dec_val(s.take(i)) * 10 + spec_digit_val(p.last()));
    } else {
        assert(s.take(i) =~= s);
    }
}

/// `u32` parsing, `str::parse::<u32>` style: an optional leading `+`,
/// then decimal digits; anything else, or a value over `u32::MAX`, fails.
pub open spec fn spec_parse_u32(s: Seq<char>) -> Option<u32> {
    let body = if s.len() > 0 && s[0] == '+' {
        s.drop_first()
    } else {
        s
    };
    if spec_all_digits(body) && spec_dec_val(body) <= u32::MAX {
        Some(spec_dec_val(body) as u32)
    } else {
        None
    }
}

pub fn parse_u32(s: &Vec<char>) -> (r: Option<u32>)
    ensures
        r == spec_parse_u32(s@),
{
    let slen = s.len();
    let start: usize = if slen > 0 && s[0] == '+' {
        1
    } else {
        0
    };
    let ghost body = if s@.len() > 0 && s@[0] == '+' {
        s@.drop_first()
    } else {
        s@
    };
    proof {
        assert(body =~= s@.skip(start as int));
    }
    if slen == start {
        return None;
    }
    let mut acc: u64 = 0;
    let mut i: usize = start;
    while i < slen
        invariant
            start <= i <= slen,
            slen == s@.len(),
            start < slen,
            body == s@.skip(start as int),
            body == (if s@.len() > 0 && s@[0] == '+' {
                s@.drop_first()
            } else {
                s@
            }),
            forall|j: int| 0 <= j < i - start ==> spec_is_digit(body[j]),
            acc <= u32::MAX,
            acc == spec_dec_val(body.take(i - start)),
        decreases slen - i,
    {
        let c = s[i];
        if !('0' <= c && c <= '9') {
            proof {
                assert(body[i - start] == s@[i as int]);
                assert(!spec_is_digit(body[i - start]));
                assert(!spec_all_digits(body));
            }
            return None;
        }
        let d = (c as u32 - '0' as u32) as u64;
        let next = acc * 10 + d;
        proof {
            let p = body.take(i + 1 - start);
            assert(p.drop_last() =~= body.take(i - start));
            assert(p.last() == s@[i as int]);
        }
        if next > 0xFFFF_FFFF {
            proof {
                assert(spec_dec_val(body.take(i + 1 - start)) == acc * 10 + d);
                if spec_all_digits(body) {
                    lemma_dec_val_mono(body, i + 1 - start);
                    assert(spec_dec_val(body) > u32::MAX);
                }
            }
            return None;
        }
        acc = next;
        i += 1;
    }
    proof {
        assert(body.take(slen - start) =~= body);
    }
    Some(acc as u32)
}

/// `i64` parsing, `str::parse::<i64>` style: an optional sign, then decimal
/// digits; anything else, or a value out of range, fails.
pub open spec fn spec_parse_i64(s: Seq<char>) -> Option<i64> {
    if s.len() > 0 && (s[0] == '+' || s[0] == '-') {
        let body = s.drop_first();
        if spec_all_digits(body) {
            let v = spec_dec_val(body);
            if s[0] == '-' && v <= 0x8000_0000_0000_0000 {
                Some((-v) as i64)
            } else if s[0] == '+' && v <= i64::MAX {
                Some(v as i64)
            } else {
                None
            }
        } else {
            None
        }
    } else if spec_all_digits(s) && spec_dec_val(s) <= i64::MAX {
        Some(spec_dec_val(s) as i64)
    } else {
        None
    }
}

pub fn parse_i64(s: &Vec<char>) -> (r: Option<i64>)
    ensures
        r == spec_parse_i64(s@),
{
    let slen = s.len();
    let signed = slen > 0 && (s[0] == '+' || s[0] == '-');
    let neg = slen > 0 && s[0] == '-';
    let start: usize = if signed {
        1
    } else {
        0
    };
    let ghost body = if signed {
        s@.drop_first()
    } else {
        s@
    };
    proof {
        assert(body =~= s@.skip(start as int));
    }
    if slen == start {
        return None;
    }
    let mut acc: u64 = 0;
    let mut i: usize = start;
    while i < slen
        invariant
            start <= i <= slen,
            slen == s@.len(),
            start < slen,
            body == s@.skip(start as int),
            signed == (s@.len() > 0 && (s@[0] == '+' || s@[0] == '-')),
            neg == (s@.len() > 0 && s@[0] == '-'),
            signed ==> start == 1,
            !signed ==> start == 0,
            body == (if signed {
                s@.drop_first()
            } else {
                s@
            }),
            forall|j: int| 0 <= j < i - start ==> spec_is_digit(body[j]),
            acc <= 0x8000_0000_0000_0000,
            acc == spec_dec_val(body.take(i - start)),
        decreases slen - i,
    {
        let c = s[i];
        if !('0' <= c && c <= '9') {
            proof {
                assert(body[i - start] == s@[i as int]);
                assert(!spec_is_digit(body[i - start]));
                assert(!spec_all_digits(body));
            }
            return None;
        }
        let d = (c as u32 - '0' as u32) as u64;
        proof {
            let p = body.take(i + 1 - start);
            assert(p.drop_last() =~= body.take(i - start));
            assert(p.last() == s@[i as int]);
        }
        if acc > (0x8000_0000_0000_0000 - d) / 10 {
            proof {
                assert(spec_dec_val(body.take(i + 1 - start)) == acc * 10 + d);
                assert(acc * 10 + d > 0x8000_0000_0000_0000) by (nonlinear_arith)
                    requires
                        acc > (0x8000_0000_0000_0000 - d) / 10,
                        d <= 9,
                ;
                if spec_all_digits(body) {
                    lemma_dec_val_mono(body, i + 1 - start);
                    assert(spec_dec_val(body) > 0x8000_0000_0000_0000);
                }
            }
            return None;
        }
        acc = acc * 10 + d;
        i += 1;
    }
    proof {
        assert(body.take(slen - start) =~= body);
    }
    if neg {
        if acc == 0x8000_0000_0000_0000 {
            Some(i64::MIN)
        } else {
            Some(-(acc as i64))
        }
    } else {
        if acc <= 0x7FFF_FFFF_FFFF_FFFF {
            Some(acc as i64)
        } else {
            None
        }
    }
}


/// The deep view of a character vector is its view.
pub broadcast proof fn lemma_chars_deep_view(v: Vec<char>)
    ensures
        #[trigger] v.deep_view() == v@,
{
    assert(v.deep_view() =~= v@);
}

/// Pushing onto a vector pushes the element's deep view onto its deep view.
pub proof fn lemma_vec_deep_view_push<T: DeepView>(a: Vec<T>, b: Vec<T>, x: T)
    requires
        b@ == a@.push(x),
    ensures
        b.deep_view() == a.deep_view().push(x.deep_view()),
{
    assert(b.deep_view() =~= a.deep_view().push(x.deep_view()));
}

/// The characters of `v` from `a` (inclusive) to `b` (exclusive).
pub fn sub_chars(v: &Vec<char>, a: usize, b: usize) -> (r: Vec<char>)
    requires
        a <= b <= v@.len(),
    ensures
        r@ == v@.subrange(a as int, b as int),
{
    let mut r: Vec<char> = Vec::new();
    let mut i: usize = a;
    while i < b
        invariant
            a <= i <= b <= v@.len(),
            r@ == v@.subrange(a as int, i as int),
        decreases b - i,
    {
        r.push(v[i]);
        proof {
            assert(v@.subrange(a as int, i + 1 as int) =~= v@.subrange(a as int, i as int).push(
                v@[i as int],
            ));
        }
        i += 1;
    }
    r
}

/// Character vectors turned into owned strings, contents unchanged.
pub fn strings_of(v: Vec<Vec<char>>) -> (r: Vec<String>)
    ensures
        r.deep_view() == v.deep_view(),
{
    broadcast use lemma_chars_deep_view;

    let mut r: Vec<String> = Vec::new();
    let mut i: usize = 0;
    while i < v.len()
        invariant
            i <= v@.len(),
            r.deep_view() == v.deep_view().take(i as int),
        decreases v.len() - i,
    {
        let s = string_from_chars(&v[i]);
        let ghost pre = r;
        r.push(s);
        proof {
            lemma_vec_deep_view_push(pre, r, s);
            assert(v@[i as int].deep_view() == v@[i as int]@);
            assert(v.deep_view().take(i + 1 as int) =~= v.deep_view().take(i as int).push(
                v.deep_view()[i as int],
            ));
        }
        i += 1;
    }
    proof {
        assert(v.deep_view().take(v@.len() as int) =~~= v.deep_view());
    }
    r
}

/// Splitting into lines, `str::lines` style: terminated or separated by
/// `\n`, with one trailing `\r` per line removed.
pub open spec fn spec_lines(s: Seq<char>) -> Seq<Seq<char>> {
    if s.len() == 0 {
        Seq::empty()
    } else {
        spec_lines_nonempty(s)
    }
}

pub open spec fn spec_lines_nonempty(s: Seq<char>) -> Seq<Seq<char>> {
    let raw = spec_split_char(s, '\n');
    let cut = if s.len() > 0 && s.last() == '\n' {
        raw.drop_last()
    } else {
        raw
    };
    cut.map_values(
        |l: Seq<char>|
            if l.len() > 0 && l.last() == '\r' {
                l.drop_last()
            } else {
                l
            },
    )
}

pub fn lines_of(s: &Vec<char>) -> (r: Vec<Vec<char>>)
    ensures
        r.deep_view() == spec_lines(s@),
{
    if s.len() == 0 {
        let r: Vec<Vec<char>> = Vec::new();
        proof {
            assert(r.deep_view() =~= Seq::<Seq<char>>::empty());
        }
        return r;
    }
    let mut raw = split_char(s, '\n');
    let slen = s.len();
    if slen > 0 && s[slen - 1] == '\n' {
        let ghost pre = raw.deep_view();
        raw.pop();
        proof {
            assert(raw.deep_view() =~~= pre.drop_last());
        }
    }
    let ghost cut = raw.deep_view();
    let mut r: Vec<Vec<char>> = Vec::new();
    let mut i: usize = 0;
    while i < raw.len()
        invariant
            i <= raw@.len(),
            cut == raw.deep_view(),
            r.deep_view() == cut.take(i as int).map_values(
                |l: Seq<char>|
                    if l.len() > 0 && l.last() == '\r' {
                        l.drop_last()
                    } else {
                        l
                    },
            ),
        decreases raw.len() - i,
    {
        let line = &raw[i];
        let n = line.len();
        let stripped = if n > 0 && line[n - 1] == '\r' {
            sub_chars(line, 0, n - 1)
        } else {
            sub_chars(line, 0, n)
        };
        proof {
            broadcast use lemma_chars_deep_view;

            let l = cut[i as int];
            if l.len() > 0 && l.last() == '\r' {
                assert(stripped@ =~= l.drop_last());
            } else {
                assert(stripped@ =~= l);
            }
        }
        let ghost pre = r;
        r.push(stripped);
        proof {
            broadcast use lemma_chars_deep_view;

            lemma_vec_deep_view_push(pre, r, stripped);
            let f = |l: Seq<char>|
                if l.len() > 0 && l.last() == '\r' {
                    l.drop_last()
                } else {
                    l
                };
            assert(cut.take(i + 1 as int).map_values(f) =~= cut.take(i as int).map_values(f).push(
                f(cut[i as int]),
            ));
        }
        i += 1;
    }
    proof {
        assert(cut.take(cut.len() as int) =~= cut);
    }
    r
}


/// Membership of a character sequence in a list of them.
pub open spec fn spec_contains_entry(l: Seq<Seq<char>>, x: Seq<char>) -> bool {
    exists|k: int| 0 <= k < l.len() && l[k] == x
}

pub fn contains_entry(l: &Vec<Vec<char>>, x: &Vec<char>) -> (r: bool)
    ensures
        r == spec_contains_entry(l.deep_view(), x@),
{
    broadcast use lemma_chars_deep_view;

    let mut k: usize = 0;
    while k < l.len()
        invariant
            k <= l@.len(),
            forall|j: int| 0 <= j < k ==> l.deep_view()[j] != x@,
        decreases l.len() - k,
    {
        let hit = chars_eq(&l[k], x);
        proof {
            broadcast use lemma_chars_deep_view;

            assert(l.deep_view()[k as int] == l@[k as int]@);
        }
        if hit {
            return true;
        }
        k += 1;
    }
    false
}

/// Membership of a character sequence among owned strings.
pub fn contains_entry_str(l: &Vec<String>, x: &Vec<char>) -> (r: bool)
    ensures
        r == spec_contains_entry(l.deep_view(), x@),
{
    let mut k: usize = 0;
    while k < l.len()
        invariant
            k <= l@.len(),
            forall|j: int| 0 <= j < k ==> l.deep_view()[j] != x@,
        decreases l.len() - k,
    {
        let sv = chars_of(l[k].as_str());
        let hit = chars_eq(&sv, x);
        proof {
            assert(l.deep_view()[k as int] == l@[k as int]@);
        }
        if hit {
            return true;
        }
        k += 1;
    }
    false
}

/// Appends the characters of `src` to `dst`.
pub fn append_chars(dst: &mut Vec<char>, src: &Vec<char>)
    ensures
        final(dst)@ == old(dst)@ + src@,
{
    let ghost base = dst@;
    let mut i: usize = 0;
    while i < src.len()
        invariant
            i <= src@.len(),
            dst@ == base + src@.take(i as int),
        decreases src.len() - i,
    {
        dst.push(src[i]);
        proof {
            assert(base + src@.take(i + 1 as int) =~= (base + src@.take(i as int)).push(
                src@[i as int],
            ));
        }
        i += 1;
    }
    proof {
        assert(src@.take(src@.len() as int) =~= src@);
    }
}

/// A decimal number read the way a float parse followed by a truncating
/// cast to `u32` reads it: an optional sign, an integer part, an optional
/// fraction after one `.`, at least one digit in all. The fraction is
/// discarded (truncation toward zero), a negative value becomes 0, a value
/// over `u32::MAX` saturates, and any other shape yields 0.
pub open spec fn spec_decimal_u32(s: Seq<char>) -> int {
    let neg = s.len() > 0 && s[0] == '-';
    let rest = if s.len() > 0 && (s[0] == '+' || s[0] == '-') {
        s.drop_first()
    } else {
        s
    };
    let ip = match spec_find_char(rest, '.') {
        Some(p) => rest.take(p),
        None => rest,
    };
    let fp = match spec_find_char(rest, '.') {
        Some(p) => rest.skip(p + 1),
        None => Seq::<char>::empty(),
    };
    if !(spec_digits_only(ip) && spec_digits_only(fp) && ip.len() + fp.len() > 0) {
        0
    } else if neg {
        0
    } else if spec_dec_val(ip) > u32::MAX {
        u32::MAX as int
    } else {
        spec_dec_val(ip)
    }
}

pub fn decimal_u32(s: &Vec<char>) -> (r: u32)
    ensures
        r as int == spec_decimal_u32(s@),
{
    let slen = s.len();
    let neg = slen > 0 && s[0] == '-';
    let start: usize = if slen > 0 && (s[0] == '+' || s[0] == '-') {
        1
    } else {
        0
    };
    let rest = sub_chars(s, start, slen);
    proof {
        assert(rest@ =~= (if s@.len() > 0 && (s@[0] == '+' || s@[0] == '-') {
            s@.drop_first()
        } else {
            s@
        }));
    }
    let (ip, fp) = match find_char(&rest, '.') {
        Some(p) => {
            let ip = sub_chars(&rest, 0, p);
            let fp = sub_chars(&rest, p + 1, rest.len());
            proof {
                assert(ip@ =~= rest@.take(p as int));
                assert(fp@ =~= rest@.skip(p + 1));
            }
            (ip, fp)
        },
        None => {
            let ip = sub_chars(&rest, 0, rest.len());
            proof {
                assert(ip@ =~= rest@);
            }
            (ip, Vec::<char>::new())
        },
    };
    let mut k: usize = 0;
    let mut ok = true;
    while k < ip.len()
        invariant
            k <= ip@.len(),
            ok == (forall|j: int| 0 <= j < k ==> spec_is_digit(ip@[j])),
        decreases ip.len() - k,
    {
        let c = ip[k];
        if !('0' <= c && c <= '9') {
            ok = false;
        }
        k += 1;
    }
    let mut k2: usize = 0;
    while k2 < fp.len()
        invariant
            k2 <= fp@.len(),
            ok == (spec_digits_only(ip@) && forall|j: int| 0 <= j < k2 ==> spec_is_digit(
                fp@[j],
            )),
        decreases fp.len() - k2,
    {
        let c = fp[k2];
        if !('0' <= c && c <= '9') {
            ok = false;
        }
        k2 += 1;
    }
    if !ok || ip.len() + fp.len() == 0 {
        return 0;
    }
    if neg {
        return 0;
    }
    let mut acc: u64 = 0;
    let mut i: usize = 0;
    proof {
        lemma_dec_val_nonneg(ip@);
    }
    while i < ip.len()
        invariant
            i <= ip@.len(),
            spec_digits_only(ip@),
            acc <= u32::MAX,
            acc == spec_dec_val(ip@.take(i as int)),
            spec_decimal_u32(s@) == (if spec_dec_val(ip@) > u32::MAX {
                u32::MAX as int
            } else {
                spec_dec_val(ip@)
            }),
        decreases ip.len() - i,
    {
        let c = ip[i];
        let d = (c as u32 - '0' as u32) as u64;
        let next = acc * 10 + d;
        proof {
            let p = ip@.take(i + 1 as int);
            assert(p.drop_last() =~= ip@.take(i as int));
            assert(p.last() == ip@[i as int]);
        }
        if next > 0xFFFF_FFFF {
            proof {
                lemma_dec_val_mono(ip@, i + 1 as int);
            }
            return u32::MAX;
        }
        acc = next;
        i += 1;
    }
    proof {
        assert(ip@.take(ip@.len() as int) =~= ip@);
    }
    acc as u32
}


/// A `u32` parse with a fallback value.
pub open spec fn spec_u32_or(s: Seq<char>, d: int) -> int {
    match spec_parse_u32(s) {
        Some(v) => v as int,
        None => d,
    }
}

pub fn u32_or(s: &Vec<char>, d: u32) -> (r: u32)
    ensures
        r as int == spec_u32_or(s@, d as int),
{
    match parse_u32(s) {
        Some(v) => v,
        None => d,
    }
}

/// An `i64` parse defaulting to zero.
pub open spec fn spec_i64_or_zero(s: Seq<char>) -> int {
    match spec_parse_i64(s) {
        Some(v) => v as int,
        None => 0,
    }
}

pub fn i64_or_zero(s: &Vec<char>) -> (r: i64)
    ensures
        r as int == spec_i64_or_zero(s@),
{
    match parse_i64(s) {
        Some(v) => v,
        None => 0,
    }
}

/// Clamping into the `i64` range.
pub open spec fn spec_clamp_i64(v: int) -> int {
    if v > i64::MAX {
        i64::MAX as int
    } else if v < i64::MIN {
        i64::MIN as int
    } else {
        v
    }
}

} // verus!
