//! Character-level text operations with their meaning over `Seq<char>`.
use vstd::prelude::*;

verus! {

/// Unicode `White_Space`, the set that `char::is_whitespace` tests.
pub open spec fn is_ws(c: char) -> bool {
    c == ' ' || ('\u{9}' <= c && c <= '\u{d}') || c == '\u{85}' || c == '\u{a0}' || c == '\u{1680}'
        || ('\u{2000}' <= c && c <= '\u{200a}') || c == '\u{2028}' || c == '\u{2029}'
        || c == '\u{202f}' || c == '\u{205f}' || c == '\u{3000}'
}

pub fn is_ws_exec(c: char) -> (r: bool)
    ensures
        r == is_ws(c),
{
    c == ' ' || ('\u{9}' <= c && c <= '\u{d}') || c == '\u{85}' || c == '\u{a0}' || c == '\u{1680}'
        || ('\u{2000}' <= c && c <= '\u{200a}') || c == '\u{2028}' || c == '\u{2029}'
        || c == '\u{202f}' || c == '\u{205f}' || c == '\u{3000}'
}

/// `s` with leading white space removed.
pub open spec fn trim_start(s: Seq<char>) -> Seq<char>
    decreases s.len(),
{
    if s.len() > 0 && is_ws(s[0]) {
        trim_start(s.drop_first())
    } else {
        s
    }
}

/// `s` with trailing white space removed.
pub open spec fn trim_end(s: Seq<char>) -> Seq<char>
    decreases s.len(),
{
    if s.len() > 0 && is_ws(s.last()) {
        trim_end(s.drop_last())
    } else {
        s
    }
}

/// `s` with white space removed at both ends, as `str::trim` does.
pub open spec fn trim(s: Seq<char>) -> Seq<char> {
    trim_end(trim_start(s))
}

pub open spec fn starts_with(s: Seq<char>, p: Seq<char>) -> bool {
    p.len() <= s.len() && s.subrange(0, p.len() as int) == p
}

pub open spec fn ends_with(s: Seq<char>, p: Seq<char>) -> bool {
    p.len() <= s.len() && s.subrange(s.len() - p.len(), s.len() as int) == p
}

/// `p` occurs in `s` starting at index `i`.
pub open spec fn occurs_at(s: Seq<char>, p: Seq<char>, i: int) -> bool {
    0 <= i && i + p.len() <= s.len() && s.subrange(i, i + p.len()) == p
}

pub open spec fn contains(s: Seq<char>, p: Seq<char>) -> bool {
    exists|i: int| occurs_at(s, p, i)
}

/// The first index at or after `from` where `p` occurs in `s`.
pub open spec fn find_from(s: Seq<char>, p: Seq<char>, from: int) -> Option<int>
    decreases s.len() + 1 - from,
{
    if from < 0 || from + p.len() > s.len() {
        None
    } else if occurs_at(s, p, from) {
        Some(from)
    } else {
        find_from(s, p, from + 1)
    }
}

/// The first index where `p` occurs in `s`, as `str::find` gives it.
pub open spec fn find(s: Seq<char>, p: Seq<char>) -> Option<int> {
    find_from(s, p, 0)
}

/// The last index below `upto` where `p` occurs in `s`.
pub open spec fn rfind_below(s: Seq<char>, p: Seq<char>, upto: int) -> Option<int>
    decreases upto,
{
    if upto <= 0 {
        None
    } else if occurs_at(s, p, upto - 1) {
        Some(upto - 1)
    } else {
        rfind_below(s, p, upto - 1)
    }
}

/// The last index where `p` occurs in `s`, as `str::rfind` gives it.
pub open spec fn rfind(s: Seq<char>, p: Seq<char>) -> Option<int> {
    rfind_below(s, p, s.len() - p.len() + 1)
}

/// `s` with every non-overlapping occurrence of `p`, taken from the left,
/// replaced by `r`, as `str::replace` does.
pub open spec fn replace_all(s: Seq<char>, p: Seq<char>, r: Seq<char>) -> Seq<char>
    recommends
        p.len() > 0,
    decreases s.len(),
{
    if p.len() == 0 || s.len() == 0 {
        s
    } else if starts_with(s, p) {
        r + replace_all(s.subrange(p.len() as int, s.len() as int), p, r)
    } else {
        seq![s[0]] + replace_all(s.drop_first(), p, r)
    }
}

/// `s` with every leading and trailing `c` removed, as `str::trim_matches` does.
pub open spec fn strip_char(s: Seq<char>, c: char) -> Seq<char>
    decreases s.len(),
{
    if s.len() > 0 && s[0] == c {
        strip_char(s.drop_first(), c)
    } else if s.len() > 0 && s.last() == c {
        strip_char(s.drop_last(), c)
    } else {
        s
    }
}

/// The pieces of `s` between occurrences of `c`, as `str::split` gives them.
pub open spec fn split_on(s: Seq<char>, c: char) -> Seq<Seq<char>>
    decreases s.len(),
{
    if s.len() == 0 {
        seq![Seq::<char>::empty()]
    } else {
        let prev = split_on(s.drop_last(), c);
        if s.last() == c {
            prev.push(Seq::<char>::empty())
        } else {
            prev.update(prev.len() - 1, prev.last().push(s.last()))
        }
    }
}

pub proof fn lemma_split_on_nonempty(s: Seq<char>, c: char)
    ensures
        split_on(s, c).len() >= 1,
    decreases s.len(),
{
    if s.len() > 0 {
        lemma_split_on_nonempty(s.drop_last(), c);
    }
}

/// Relies on `String::push`: the string grows by exactly the given char.
#[verifier::external_body]
fn push_char(s: &mut String, c: char)
    ensures
        final(s)@ == old(s)@.push(c),
{
    s.push(c)
}

/// The characters of `s`.
pub fn chars_of(s: &str) -> (r: Vec<char>)
    ensures
        r@ == s@,
{
    let n = s.unicode_len();
    let mut v: Vec<char> = Vec::new();
    let mut i: usize = 0;
    while i < n
        invariant
            n == s@.len(),
            i <= n,
            v@ == s@.subrange(0, i as int),
        decreases n - i,
    {
        let c = s.get_char(i);
        v.push(c);
        i = i + 1;
        assert(v@ =~= s@.subrange(0, i as int));
    }
    assert(v@ =~= s@);
    v
}

/// The string made of the characters of `v[from..to]`.
pub fn string_of_range(v: &Vec<char>, from: usize, to: usize) -> (r: String)
    requires
        from <= to <= v@.len(),
    ensures
        r@ == v@.subrange(from as int, to as int),
{
    let mut r = String::new();
    let mut i: usize = from;
    while i < to
        invariant
            from <= i <= to <= v@.len(),
            r@ == v@.subrange(from as int, i as int),
        decreases to - i,
    {
        push_char(&mut r, v[i]);
        i = i + 1;
        assert(r@ =~= v@.subrange(from as int, i as int));
    }
    r
}

/// The string made of the characters of `v`.
pub fn string_of(v: &Vec<char>) -> (r: String)
    ensures
        r@ == v@,
{
    let r = string_of_range(v, 0, v.len());
    assert(v@.subrange(0, v@.len() as int) =~= v@);
    r
}

/// Whether `p` occurs in `s` at index `i`.
pub fn occurs_at_exec(s: &Vec<char>, p: &Vec<char>, i: usize) -> (r: bool)
    ensures
        r == occurs_at(s@, p@, i as int),
{
    if i > s.len() || p.len() > s.len() - i {
        return false;
    }
    let mut j: usize = 0;
    while j < p.len()
        invariant
            i + p@.len() <= s@.len() <= usize::MAX,
            j <= p@.len(),
            forall|k: int| 0 <= k < j ==> s@[i + k] == p@[k],
        decreases p@.len() - j,
    {
        if s[i + j] != p[j] {
            assert(s@.subrange(i as int, i + p@.len())[j as int] != p@[j as int]);
            return false;
        }
        j = j + 1;
    }
    assert(s@.subrange(i as int, i + p@.len()) =~= p@);
    true
}

pub fn starts_with_exec(s: &Vec<char>, p: &Vec<char>) -> (r: bool)
    ensures
        r == starts_with(s@, p@),
{
    occurs_at_exec(s, p, 0)
}

pub fn ends_with_exec(s: &Vec<char>, p: &Vec<char>) -> (r: bool)
    ensures
        r == ends_with(s@, p@),
{
    if p.len() > s.len() {
        false
    } else {
        occurs_at_exec(s, p, s.len() - p.len())
    }
}

/// Whether `s` equals the literal `lit`.
pub fn eq_lit(s: &Vec<char>, lit: &str) -> (r: bool)
    ensures
        r == (s@ == lit@),
{
    let l = chars_of(lit);
    if l.len() != s.len() {
        return false;
    }
    let r = occurs_at_exec(s, &l, 0);
    assert(s@.subrange(0, s@.len() as int) =~= s@);
    r
}

pub proof fn lemma_find_from_bounds(s: Seq<char>, p: Seq<char>, from: int)
    requires
        0 <= from,
    ensures
        find_from(s, p, from) matches Some(i) ==> from <= i && occurs_at(s, p, i) && (forall|
            k: int,
        | from <= k < i ==> !occurs_at(s, p, k)),
        find_from(s, p, from) is None ==> forall|k: int| from <= k ==> !occurs_at(s, p, k),
    decreases s.len() + 1 - from,
{
    if from < 0 || from + p.len() > s.len() {
        assert forall|k: int| from <= k implies !occurs_at(s, p, k) by {}
    } else if occurs_at(s, p, from) {
    } else {
        lemma_find_from_bounds(s, p, from + 1);
    }
}

/// The first index at or after `from` where `p` occurs in `s`.
pub fn find_from_exec(s: &Vec<char>, p: &Vec<char>, from: usize) -> (r: Option<usize>)
    ensures
        r matches Some(i) ==> find_from(s@, p@, from as int) == Some(i as int),
        r is None ==> find_from(s@, p@, from as int) is None,
{
    if p.len() > s.len() || from > s.len() - p.len() {
        return None;
    }
    let last: usize = s.len() - p.len();
    let mut i: usize = from;
    loop
        invariant
            from <= i <= last,
            last + p@.len() == s@.len(),
            find_from(s@, p@, from as int) == find_from(s@, p@, i as int),
        decreases last - i,
    {
        if occurs_at_exec(s, p, i) {
            return Some(i);
        }
        if i == last {
            assert(find_from(s@, p@, i + 1) is None);
            return None;
        }
        i = i + 1;
    }
}

pub fn find_exec(s: &Vec<char>, p: &Vec<char>) -> (r: Option<usize>)
    ensures
        r matches Some(i) ==> find(s@, p@) == Some(i as int),
        r is None ==> find(s@, p@) is None,
{
    find_from_exec(s, p, 0)
}

/// The last index where `p` occurs in `s`.
pub fn rfind_exec(s: &Vec<char>, p: &Vec<char>) -> (r: Option<usize>)
    ensures
        r matches Some(i) ==> rfind(s@, p@) == Some(i as int),
        r is None ==> rfind(s@, p@) is None,
{
    if p.len() > s.len() {
        return None;
    }
    let mut k: usize = s.len() - p.len();
    loop
        invariant
            k + p@.len() <= s@.len(),
            rfind(s@, p@) == rfind_below(s@, p@, k + 1),
        decreases k,
    {
        if occurs_at_exec(s, p, k) {
            return Some(k);
        }
        if k == 0 {
            assert(rfind_below(s@, p@, 0) is None);
            return None;
        }
        k = k - 1;
    }
}

/// The range of `s` that `trim` keeps.
pub fn trim_bounds(s: &Vec<char>) -> (r: (usize, usize))
    ensures
        r.0 <= r.1 <= s@.len(),
        s@.subrange(r.0 as int, r.1 as int) == trim(s@),
{
    let n = s.len();
    let mut a: usize = 0;
    assert(s@.subrange(0, n as int) =~= s@);
    while a < n && is_ws_exec(s[a])
        invariant
            a <= n == s@.len(),
            trim_start(s@) == trim_start(s@.subrange(a as int, n as int)),
        decreases n - a,
    {
        assert(s@.subrange(a as int, n as int).drop_first() =~= s@.subrange(a + 1, n as int));
        a = a + 1;
    }
    assert(trim_start(s@.subrange(a as int, n as int)) == s@.subrange(a as int, n as int));
    let mut b: usize = n;
    while b > a && is_ws_exec(s[b - 1])
        invariant
            a <= b <= n == s@.len(),
            trim(s@) == trim_end(s@.subrange(a as int, b as int)),
        decreases b,
    {
        assert(s@.subrange(a as int, b as int).drop_last() =~= s@.subrange(a as int, b - 1));
        b = b - 1;
    }
    (a, b)
}

/// The characters of `s[from..to]`.
pub fn slice(s: &Vec<char>, from: usize, to: usize) -> (r: Vec<char>)
    requires
        from <= to <= s@.len(),
    ensures
        r@ == s@.subrange(from as int, to as int),
{
    let mut r: Vec<char> = Vec::new();
    let mut i: usize = from;
    while i < to
        invariant
            from <= i <= to <= s@.len(),
            r@ == s@.subrange(from as int, i as int),
        decreases to - i,
    {
        r.push(s[i]);
        i = i + 1;
        assert(r@ =~= s@.subrange(from as int, i as int));
    }
    r
}

/// `s` trimmed of white space at both ends.
pub fn trim_exec(s: &Vec<char>) -> (r: Vec<char>)
    ensures
        r@ == trim(s@),
{
    let (a, b) = trim_bounds(s);
    slice(s, a, b)
}

pub proof fn lemma_rfind_bounds(s: Seq<char>, p: Seq<char>)
    ensures
        rfind(s, p) matches Some(i) ==> occurs_at(s, p, i),
{
    lemma_rfind_below_bounds(s, p, s.len() - p.len() + 1);
}

proof fn lemma_rfind_below_bounds(s: Seq<char>, p: Seq<char>, upto: int)
    ensures
        rfind_below(s, p, upto) matches Some(i) ==> occurs_at(s, p, i) && i < upto,
    decreases upto,
{
    if upto > 0 && !occurs_at(s, p, upto - 1) {
        lemma_rfind_below_bounds(s, p, upto - 1);
    }
}

/// The characters of `a` followed by those of `b`.
pub fn concat_chars(a: &Vec<char>, b: &Vec<char>) -> (r: Vec<char>)
    ensures
        r@ == a@ + b@,
{
    let mut r = slice(a, 0, a.len());
    let mut i: usize = 0;
    assert(a@.subrange(0, a@.len() as int) =~= a@);
    while i < b.len()
        invariant
            i <= b@.len(),
            r@ == a@ + b@.subrange(0, i as int),
        decreases b@.len() - i,
    {
        r.push(b[i]);
        i = i + 1;
        assert(r@ =~= a@ + b@.subrange(0, i as int));
    }
    assert(b@.subrange(0, b@.len() as int) =~= b@);
    r
}

/// The string `a` followed by `b`.
pub fn concat_str(a: &str, b: &str) -> (r: String)
    ensures
        r@ == a@ + b@,
{
    string_of(&concat_chars(&chars_of(a), &chars_of(b)))
}

} // verus!
