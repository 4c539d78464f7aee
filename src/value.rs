//! Typed field values of an action record, and how value text is read.
use vstd::prelude::*;
use crate::text::{
    occurs_at_exec, replace_all, slice, split_on, starts_with, string_of, strip_char, trim,
    trim_exec,
};

verus! {

/// What an element of a list value is.
pub enum ItemModel {
    Int(int),
    Decimal(Seq<char>),
    Text(Seq<char>),
}

/// What a field value is.
pub enum ValueModel {
    Text(Seq<char>),
    Int(int),
    Decimal(Seq<char>),
    Bool(bool),
    List(Seq<ItemModel>),
}

/// An element of a list value. A `Decimal` keeps the text of a number
/// that has the shape of a floating-point literal but not of an integer.
#[derive(Debug, Clone, PartialEq)]
pub enum ListItem {
    Int(i64),
    Decimal(String),
    Text(String),
}

/// A field value of an action record.
#[derive(Debug, Clone, PartialEq)]
pub enum ActionValue {
    Text(String),
    Int(i64),
    Decimal(String),
    Bool(bool),
    List(Vec<ListItem>),
}

impl View for ListItem {
    type V = ItemModel;

    open spec fn view(&self) -> ItemModel {
        match self {
            ListItem::Int(n) => ItemModel::Int(*n as int),
            ListItem::Decimal(s) => ItemModel::Decimal(s@),
            ListItem::Text(s) => ItemModel::Text(s@),
        }
    }
}

pub open spec fn items_view(v: Seq<ListItem>) -> Seq<ItemModel> {
    v.map_values(|x: ListItem| x@)
}

impl View for ActionValue {
    type V = ValueModel;

    open spec fn view(&self) -> ValueModel {
        match self {
            ActionValue::Text(s) => ValueModel::Text(s@),
            ActionValue::Int(n) => ValueModel::Int(*n as int),
            ActionValue::Decimal(s) => ValueModel::Decimal(s@),
            ActionValue::Bool(b) => ValueModel::Bool(*b),
            ActionValue::List(v) => ValueModel::List(items_view(v@)),
        }
    }
}

pub open spec fn is_digit(c: char) -> bool {
    '0' <= c && c <= '9'
}

pub open spec fn all_digits(s: Seq<char>) -> bool {
    forall|i: int| 0 <= i < s.len() ==> is_digit(#[trigger] s[i])
}

/// The number that a run of decimal digits denotes.
pub open spec fn digits_value(s: Seq<char>) -> int
    decreases s.len(),
{
    if s.len() == 0 {
        0
    } else {
        digits_value(s.drop_last()) * 10 + (s.last() as u32 - '0' as u32)
    }
}

pub open spec fn is_sign(c: char) -> bool {
    c == '+' || c == '-'
}

/// `s` without one leading sign character.
pub open spec fn unsigned_part(s: Seq<char>) -> Seq<char> {
    if s.len() > 0 && is_sign(s[0]) {
        s.drop_first()
    } else {
        s
    }
}

/// The integer that `s` writes in decimal: an optional sign, then one or more digits.
pub open spec fn int_value(s: Seq<char>) -> Option<int> {
    let d = unsigned_part(s);
    if d.len() > 0 && all_digits(d) {
        if s[0] == '-' {
            Some(-digits_value(d))
        } else {
            Some(digits_value(d))
        }
    } else {
        None
    }
}

/// What reading `s` as an `i64` gives: the integer it writes, if that fits.
pub open spec fn i64_of(s: Seq<char>) -> Option<int> {
    match int_value(s) {
        Some(v) => if i64::MIN <= v <= i64::MAX {
            Some(v)
        } else {
            None
        },
        None => None,
    }
}

/// The first index at or after `i` that holds `a` or `b`, else the length.
pub open spec fn first_of(s: Seq<char>, a: char, b: char, i: int) -> int
    decreases s.len() - i,
{
    if i >= s.len() {
        s.len() as int
    } else if s[i] == a || s[i] == b {
        i
    } else {
        first_of(s, a, b, i + 1)
    }
}

/// `c` is the lower-case letter `lc` in either case.
pub open spec fn same_letter(c: char, lc: char) -> bool {
    c == lc || ('A' <= c && c <= 'Z' && c as u32 + 32 == lc as u32)
}

/// `s` spells the lower-case word `w`, ignoring ASCII case.
pub open spec fn spells(s: Seq<char>, w: Seq<char>) -> bool {
    s.len() == w.len() && forall|i: int| 0 <= i < s.len() ==> same_letter(#[trigger] s[i], w[i])
}

pub open spec fn is_special_float(s: Seq<char>) -> bool {
    spells(s, seq!['i', 'n', 'f']) || spells(s, seq!['i', 'n', 'f', 'i', 'n', 'i', 't', 'y'])
        || spells(s, seq!['n', 'a', 'n'])
}

/// Digits, optionally a point and more digits, with at least one digit.
pub open spec fn is_mantissa(m: Seq<char>) -> bool {
    let d = first_of(m, '.', '.', 0);
    let whole = m.subrange(0, d);
    if d < m.len() {
        let frac = m.subrange(d + 1, m.len() as int);
        all_digits(whole) && all_digits(frac) && (whole.len() > 0 || frac.len() > 0)
    } else {
        all_digits(whole) && whole.len() > 0
    }
}

/// An exponent: `e` or `E`, an optional sign, one or more digits.
pub open spec fn is_exponent(x: Seq<char>) -> bool {
    let r = unsigned_part(x.drop_first());
    x.len() > 0 && (x[0] == 'e' || x[0] == 'E') && r.len() > 0 && all_digits(r)
}

/// `s` has the shape of a floating-point literal: an optional sign, then
/// `inf`, `infinity` or `nan` in any case, or a mantissa with an optional exponent.
pub open spec fn is_float_text(s: Seq<char>) -> bool {
    let b = unsigned_part(s);
    let e = first_of(b, 'e', 'E', 0);
    is_special_float(b) || (is_mantissa(b.subrange(0, e)) && (e == b.len() || is_exponent(
        b.subrange(e, b.len() as int),
    )))
}

pub open spec fn escapes_expanded(s: Seq<char>) -> Seq<char> {
    replace_all(
        replace_all(s, seq!['\\', 'n'], seq!['\n']),
        seq!['\\', 't'],
        seq!['\t'],
    )
}

/// How one element of a list value is read.
pub open spec fn item_of(e: Seq<char>) -> ItemModel {
    match i64_of(e) {
        Some(n) => ItemModel::Int(n),
        None => if is_float_text(e) {
            ItemModel::Decimal(e)
        } else {
            ItemModel::Text(strip_char(e, '"'))
        },
    }
}

pub open spec fn items_of(pieces: Seq<Seq<char>>) -> Seq<ItemModel> {
    pieces.map_values(|p: Seq<char>| item_of(trim(p)))
}

pub open spec fn is_quoted(s: Seq<char>) -> bool {
    s.len() >= 2 && s[0] == '"' && s.last() == '"'
}

pub open spec fn is_bracketed(s: Seq<char>) -> bool {
    s.len() >= 2 && s[0] == '[' && s.last() == ']'
}

/// How the text of a value is read: a quoted string, a list, an integer,
/// a decimal, a boolean literal, or else the text itself.
pub open spec fn value_of(raw: Seq<char>) -> ValueModel {
    let s = trim(raw);
    if is_quoted(s) {
        ValueModel::Text(escapes_expanded(s.subrange(1, s.len() - 1)))
    } else if is_bracketed(s) {
        ValueModel::List(items_of(split_on(s.subrange(1, s.len() - 1), ',')))
    } else {
        match i64_of(s) {
            Some(n) => ValueModel::Int(n),
            None => if is_float_text(s) {
                ValueModel::Decimal(s)
            } else if s == seq!['t', 'r', 'u', 'e'] || s == seq!['T', 'r', 'u', 'e'] {
                ValueModel::Bool(true)
            } else if s == seq!['f', 'a', 'l', 's', 'e'] || s == seq!['F', 'a', 'l', 's', 'e'] {
                ValueModel::Bool(false)
            } else {
                ValueModel::Text(s)
            },
        }
    }
}

fn all_digits_range(s: &Vec<char>, from: usize, to: usize) -> (r: bool)
    requires
        from <= to <= s@.len(),
    ensures
        r == all_digits(s@.subrange(from as int, to as int)),
{
    let mut i: usize = from;
    while i < to
        invariant
            from <= i <= to <= s@.len(),
            all_digits(s@.subrange(from as int, i as int)),
        decreases to - i,
    {
        if !('0' <= s[i] && s[i] <= '9') {
            assert(s@.subrange(from as int, to as int)[i - from] == s@[i as int]);
            return false;
        }
        i = i + 1;
        assert forall|k: int| 0 <= k < i - from implies is_digit(
            #[trigger] s@.subrange(from as int, i as int)[k],
        ) by {
            if k < i - 1 - from {
                assert(s@.subrange(from as int, i - 1)[k] == s@.subrange(from as int, i as int)[k]);
            }
        }
    }
    true
}

proof fn lemma_digits_step(s: Seq<char>, from: int, i: int)
    requires
        0 <= from <= i < s.len(),
    ensures
        digits_value(s.subrange(from, i + 1)) == digits_value(s.subrange(from, i)) * 10 + (
        s[i] as u32 - '0' as u32),
{
    assert(s.subrange(from, i + 1).drop_last() =~= s.subrange(from, i));
}

proof fn lemma_digits_nonneg(s: Seq<char>)
    requires
        all_digits(s),
    ensures
        digits_value(s) >= 0,
    decreases s.len(),
{
    if s.len() > 0 {
        assert(all_digits(s.drop_last())) by {
            assert forall|i: int| 0 <= i < s.drop_last().len() implies is_digit(
                #[trigger] s.drop_last()[i],
            ) by {
                assert(s.drop_last()[i] == s[i]);
            }
        }
        lemma_digits_nonneg(s.drop_last());
        assert(is_digit(s[s.len() - 1]));
    }
}

/// Reads `s` as an `i64`, as `str::parse::<i64>` does.
pub fn parse_i64(s: &Vec<char>) -> (r: Option<i64>)
    ensures
        r matches Some(n) ==> i64_of(s@) == Some(n as int),
        r is None ==> i64_of(s@) is None,
{
    let n = s.len();
    if n == 0 {
        return None;
    }
    let start: usize = if s[0] == '+' || s[0] == '-' {
        1
    } else {
        0
    };
    proof {
        assert(unsigned_part(s@) =~= s@.subrange(start as int, n as int));
    }
    if start == n {
        return None;
    }
    if !all_digits_range(s, start, n) {
        return None;
    }
    let limit: u64 = 9223372036854775808;
    let mut acc: u64 = 0;
    let mut over = false;
    let mut i: usize = start;
    while i < n
        invariant
            start <= i <= n == s@.len(),
            all_digits(s@.subrange(start as int, n as int)),
            limit == 9223372036854775808,
            !over ==> acc as int == digits_value(s@.subrange(start as int, i as int)) && acc
                <= limit,
            over ==> digits_value(s@.subrange(start as int, i as int)) > limit,
        decreases n - i,
    {
        proof {
            lemma_digits_step(s@, start as int, i as int);
            assert(is_digit(s@.subrange(start as int, n as int)[i - start]));
            assert(s@.subrange(start as int, n as int)[i - start] == s@[i as int]);
        }
        let d: u64 = (s[i] as u32 - '0' as u32) as u64;
        if !over {
            if acc > (limit - d) / 10 {
                over = true;
                assert(acc * 10 + d > limit) by (nonlinear_arith)
                    requires
                        acc > (limit - d) / 10,
                        d <= 9,
                        limit > 9,
                ;
            } else {
                assert(acc * 10 + d <= limit) by (nonlinear_arith)
                    requires
                        acc <= (limit - d) / 10,
                        d <= 9,
                        limit > 9,
                ;
                acc = acc * 10 + d;
            }
        } else {
            proof {
                let prev = digits_value(s@.subrange(start as int, i as int));
                assert(prev * 10 + d >= prev) by (nonlinear_arith)
                    requires
                        prev > 0,
                        d >= 0,
                ;
            }
        }
        i = i + 1;
    }
    if over {
        return None;
    }
    if s[0] == '-' {
        if acc == limit {
            Some(-9223372036854775807i64 - 1)
        } else {
            Some(-(acc as i64))
        }
    } else if acc == limit {
        None
    } else {
        Some(acc as i64)
    }
}

fn first_of_exec(s: &Vec<char>, a: char, b: char) -> (r: usize)
    ensures
        r as int == first_of(s@, a, b, 0),
        r <= s@.len(),
{
    let mut i: usize = 0;
    while i < s.len() && s[i] != a && s[i] != b
        invariant
            i <= s@.len(),
            first_of(s@, a, b, 0) == first_of(s@, a, b, i as int),
        decreases s@.len() - i,
    {
        i = i + 1;
    }
    i
}

fn same_letter_exec(c: char, lc: char) -> (r: bool)
    ensures
        r == same_letter(c, lc),
{
    c == lc || ('A' <= c && c <= 'Z' && c as u32 + 32 == lc as u32)
}

fn spells_exec(s: &Vec<char>, w: &Vec<char>) -> (r: bool)
    ensures
        r == spells(s@, w@),
{
    if s.len() != w.len() {
        return false;
    }
    let mut i: usize = 0;
    while i < s.len()
        invariant
            i <= s@.len() == w@.len(),
            forall|k: int| 0 <= k < i ==> same_letter(#[trigger] s@[k], w@[k]),
        decreases s@.len() - i,
    {
        if !same_letter_exec(s[i], w[i]) {
            return false;
        }
        i = i + 1;
    }
    true
}

fn unsigned_part_exec(s: &Vec<char>) -> (r: Vec<char>)
    ensures
        r@ == unsigned_part(s@),
{
    if s.len() > 0 && (s[0] == '+' || s[0] == '-') {
        let r = slice(s, 1, s.len());
        assert(r@ =~= s@.drop_first());
        r
    } else {
        let r = slice(s, 0, s.len());
        assert(r@ =~= s@);
        r
    }
}

fn is_mantissa_exec(m: &Vec<char>) -> (r: bool)
    ensures
        r == is_mantissa(m@),
{
    let d = first_of_exec(m, '.', '.');
    let whole_ok = all_digits_range(m, 0, d);
    if d < m.len() {
        whole_ok && all_digits_range(m, d + 1, m.len()) && (d > 0 || m.len() - d - 1 > 0)
    } else {
        whole_ok && d > 0
    }
}

fn is_exponent_exec(x: &Vec<char>) -> (r: bool)
    ensures
        r == is_exponent(x@),
{
    if x.len() == 0 || !(x[0] == 'e' || x[0] == 'E') {
        return false;
    }
    let rest = slice(x, 1, x.len());
    assert(rest@ =~= x@.drop_first());
    let r = unsigned_part_exec(&rest);
    r.len() > 0 && all_digits_range(&r, 0, r.len()) && {
        assert(r@.subrange(0, r@.len() as int) =~= r@);
        true
    }
}

/// Whether `s` has the shape of a floating-point literal.
pub fn is_float_exec(s: &Vec<char>) -> (r: bool)
    ensures
        r == is_float_text(s@),
{
    let b = unsigned_part_exec(s);
    let inf = vec!['i', 'n', 'f'];
    let infinity = vec!['i', 'n', 'f', 'i', 'n', 'i', 't', 'y'];
    let nan = vec!['n', 'a', 'n'];
    assert(inf@ =~= seq!['i', 'n', 'f']);
    assert(infinity@ =~= seq!['i', 'n', 'f', 'i', 'n', 'i', 't', 'y']);
    assert(nan@ =~= seq!['n', 'a', 'n']);
    if spells_exec(&b, &inf) || spells_exec(&b, &infinity) || spells_exec(&b, &nan) {
        return true;
    }
    let e = first_of_exec(&b, 'e', 'E');
    let m = slice(&b, 0, e);
    if !is_mantissa_exec(&m) {
        return false;
    }
    if e == b.len() {
        return true;
    }
    let x = slice(&b, e, b.len());
    is_exponent_exec(&x)
}

proof fn lemma_sub_sub(s: Seq<char>, i: int, k: int)
    requires
        0 <= i <= k <= s.len(),
    ensures
        s.subrange(i, s.len() as int).subrange(k - i, s.len() - i) =~= s.subrange(k, s.len() as int),
{
}

/// `s` with every occurrence of `p`, from the left, replaced by `r`.
pub fn replace_all_exec(s: &Vec<char>, p: &Vec<char>, r: &Vec<char>) -> (out: Vec<char>)
    requires
        p@.len() > 0,
    ensures
        out@ == replace_all(s@, p@, r@),
{
    let n = s.len();
    let mut out: Vec<char> = Vec::new();
    let mut i: usize = 0;
    assert(s@.subrange(0, n as int) =~= s@);
    while i < n
        invariant
            i <= n == s@.len(),
            p@.len() > 0,
            out@ + replace_all(s@.subrange(i as int, n as int), p@, r@) == replace_all(s@, p@, r@),
        decreases n - i,
    {
        let ghost rest = s@.subrange(i as int, n as int);
        if occurs_at_exec(s, p, i) {
            proof {
                assert(rest.subrange(0, p@.len() as int) =~= s@.subrange(i as int, i + p@.len()));
                assert(starts_with(rest, p@));
                lemma_sub_sub(s@, i as int, i + p@.len());
                assert(out@ + r@ + replace_all(s@.subrange(i + p@.len(), n as int), p@, r@)
                    =~= out@ + replace_all(rest, p@, r@));
            }
            let mut j: usize = 0;
            let ghost out0 = out@;
            while j < r.len()
                invariant
                    j <= r@.len(),
                    out@ == out0 + r@.subrange(0, j as int),
                decreases r@.len() - j,
            {
                out.push(r[j]);
                j = j + 1;
                assert(out@ =~= out0 + r@.subrange(0, j as int));
            }
            assert(r@.subrange(0, r@.len() as int) =~= r@);
            i = i + p.len();
        } else {
            proof {
                if starts_with(rest, p@) {
                    assert(rest.subrange(0, p@.len() as int) =~= s@.subrange(
                        i as int,
                        i + p@.len(),
                    ));
                }
                assert(rest.drop_first() =~= s@.subrange(i + 1, n as int));
                assert(out@.push(s@[i as int]) + replace_all(s@.subrange(i + 1, n as int), p@, r@)
                    =~= out@ + replace_all(rest, p@, r@));
            }
            out.push(s[i]);
            i = i + 1;
        }
    }
    assert(out@ + replace_all(s@.subrange(n as int, n as int), p@, r@) =~= out@);
    out
}

/// `s` with every leading and trailing `c` removed.
pub fn strip_char_exec(s: &Vec<char>, c: char) -> (r: Vec<char>)
    ensures
        r@ == strip_char(s@, c),
{
    let n = s.len();
    let mut a: usize = 0;
    assert(s@.subrange(0, n as int) =~= s@);
    while a < n && s[a] == c
        invariant
            a <= n == s@.len(),
            strip_char(s@, c) == strip_char(s@.subrange(a as int, n as int), c),
        decreases n - a,
    {
        assert(s@.subrange(a as int, n as int).drop_first() =~= s@.subrange(a + 1, n as int));
        a = a + 1;
    }
    let mut b: usize = n;
    while b > a && s[b - 1] == c
        invariant
            a <= b <= n == s@.len(),
            a < b ==> s@[a as int] != c,
            strip_char(s@, c) == strip_char(s@.subrange(a as int, b as int), c),
        decreases b,
    {
        assert(s@.subrange(a as int, b as int).drop_last() =~= s@.subrange(a as int, b - 1));
        b = b - 1;
    }
    slice(s, a, b)
}

fn item_exec(e: &Vec<char>) -> (r: ListItem)
    ensures
        r@ == item_of(e@),
{
    match parse_i64(e) {
        Some(n) => ListItem::Int(n),
        None => if is_float_exec(e) {
            ListItem::Decimal(string_of(e))
        } else {
            ListItem::Text(string_of(&strip_char_exec(e, '"')))
        },
    }
}

proof fn lemma_items_of_last(pieces: Seq<Seq<char>>)
    requires
        pieces.len() >= 1,
    ensures
        items_of(pieces) == items_of(pieces.drop_last()).push(item_of(trim(pieces.last()))),
{
    assert(items_of(pieces) =~= items_of(pieces.drop_last()).push(item_of(trim(pieces.last()))));
}

proof fn lemma_items_view_push(v: Seq<ListItem>, x: ListItem)
    ensures
        items_view(v.push(x)) == items_view(v).push(x@),
{
    assert(items_view(v.push(x)) =~= items_view(v).push(x@));
}

/// The elements of the list written between `s[from]` and `s[to]`.
fn items_exec(s: &Vec<char>, from: usize, to: usize) -> (r: Vec<ListItem>)
    requires
        from <= to <= s@.len(),
    ensures
        items_view(r@) == items_of(split_on(s@.subrange(from as int, to as int), ',')),
{
    let mut items: Vec<ListItem> = Vec::new();
    let mut cur: Vec<char> = Vec::new();
    let mut i: usize = from;
    assert(items_view(items@) =~= items_of(
        split_on(s@.subrange(from as int, from as int), ',').drop_last(),
    ));
    while i < to
        invariant
            from <= i <= to <= s@.len(),
            items_view(items@) == items_of(
                split_on(s@.subrange(from as int, i as int), ',').drop_last(),
            ),
            cur@ == split_on(s@.subrange(from as int, i as int), ',').last(),
            split_on(s@.subrange(from as int, i as int), ',').len() >= 1,
        decreases to - i,
    {
        let ghost prev = split_on(s@.subrange(from as int, i as int), ',');
        let ghost next_in = s@.subrange(from as int, i + 1);
        assert(next_in.drop_last() =~= s@.subrange(from as int, i as int));
        if s[i] == ',' {
            let t = trim_exec(&cur);
            let it = item_exec(&t);
            proof {
                lemma_items_view_push(items@, it);
                lemma_items_of_last(prev);
            }
            items.push(it);
            cur = Vec::new();
            proof {
                assert(split_on(next_in, ',') == prev.push(Seq::<char>::empty()));
                assert(items_view(items@) =~= items_of(prev));
            }
        } else {
            cur.push(s[i]);
            proof {
                assert(split_on(next_in, ',') == prev.update(
                    prev.len() - 1,
                    prev.last().push(s@[i as int]),
                ));
                assert(split_on(next_in, ',').drop_last() =~= prev.drop_last());
            }
        }
        i = i + 1;
    }
    let t = trim_exec(&cur);
    let it = item_exec(&t);
    proof {
        lemma_items_view_push(items@, it);
        lemma_items_of_last(split_on(s@.subrange(from as int, to as int), ','));
    }
    items.push(it);
    items
}

fn eq_chars(s: &Vec<char>, w: &Vec<char>) -> (r: bool)
    ensures
        r == (s@ == w@),
{
    if s.len() != w.len() {
        return false;
    }
    let r = occurs_at_exec(s, w, 0);
    assert(s@.subrange(0, s@.len() as int) =~= s@);
    r
}

/// Reads the text of a value, as `value_of` describes.
pub fn parse_value(raw: &Vec<char>) -> (r: ActionValue)
    ensures
        r@ == value_of(raw@),
{
    let s = trim_exec(raw);
    let n = s.len();
    if n >= 2 && s[0] == '"' && s[n - 1] == '"' {
        let inner = slice(&s, 1, n - 1);
        let esc_n = vec!['\\', 'n'];
        let nl = vec!['\n'];
        let esc_t = vec!['\\', 't'];
        let tab = vec!['\t'];
        assert(esc_n@ =~= seq!['\\', 'n']);
        assert(nl@ =~= seq!['\n']);
        assert(esc_t@ =~= seq!['\\', 't']);
        assert(tab@ =~= seq!['\t']);
        let a = replace_all_exec(&inner, &esc_n, &nl);
        let b = replace_all_exec(&a, &esc_t, &tab);
        return ActionValue::Text(string_of(&b));
    }
    if n >= 2 && s[0] == '[' && s[n - 1] == ']' {
        return ActionValue::List(items_exec(&s, 1, n - 1));
    }
    match parse_i64(&s) {
        Some(v) => ActionValue::Int(v),
        None => {
            if is_float_exec(&s) {
                return ActionValue::Decimal(string_of(&s));
            }
            let t1 = vec!['t', 'r', 'u', 'e'];
            let t2 = vec!['T', 'r', 'u', 'e'];
            let f1 = vec!['f', 'a', 'l', 's', 'e'];
            let f2 = vec!['F', 'a', 'l', 's', 'e'];
            assert(t1@ =~= seq!['t', 'r', 'u', 'e']);
            assert(t2@ =~= seq!['T', 'r', 'u', 'e']);
            assert(f1@ =~= seq!['f', 'a', 'l', 's', 'e']);
            assert(f2@ =~= seq!['F', 'a', 'l', 's', 'e']);
            if eq_chars(&s, &t1) || eq_chars(&s, &t2) {
                ActionValue::Bool(true)
            } else if eq_chars(&s, &f1) || eq_chars(&s, &f2) {
                ActionValue::Bool(false)
            } else {
                ActionValue::Text(string_of(&s))
            }
        },
    }
}

} // verus!
