//! Parsing of an action call such as `do(action="Tap", element=[500, 300])`
//! or `finish(message="Task done")` into an action record.
use vstd::prelude::*;
use crate::record::{
    args_text, call_text, fields_view, int_text, item_text, items_text, lemma_puts_distinct, lookup,
    nat_text, puts, quoted, text_of, unique_keys, value_text, ActionRecord, Field, RecordKind,
    RecordModel,
};
use crate::text::{
    chars_of, ends_with, ends_with_exec, find, find_exec, is_ws, replace_all, rfind, rfind_exec,
    slice, split_on, starts_with, starts_with_exec, string_of, string_of_range, strip_char, trim,
    trim_end, trim_exec, trim_start,
};
use crate::value::{
    all_digits, digits_value, escapes_expanded, first_of, i64_of, is_digit, is_float_text,
    is_mantissa, item_of, items_of, parse_value, unsigned_part, value_of,
    ActionValue, ItemModel, ValueModel,
};

verus! {

/// Where the scanner stands with respect to quotes and brackets.
#[derive(Debug, Clone, Copy, PartialEq, Eq, Structural)]
pub enum Nesting {
    Top,
    Quoted,
    Bracketed,
}

/// The state of the argument scanner after a prefix of the argument text.
pub struct ScanModel {
    pub key: Seq<char>,
    pub value: Seq<char>,
    pub nesting: Nesting,
    pub escape: bool,
    pub in_value: bool,
    /// Closed pairs: the trimmed key and the raw value text.
    pub pairs: Seq<(Seq<char>, Seq<char>)>,
}

pub open spec fn scan_start() -> ScanModel {
    ScanModel {
        key: Seq::empty(),
        value: Seq::empty(),
        nesting: Nesting::Top,
        escape: false,
        in_value: false,
        pairs: Seq::empty(),
    }
}

/// `c` goes to the value text while reading a value, else to the key text.
pub open spec fn keep(st: ScanModel, c: char) -> ScanModel {
    if st.in_value {
        ScanModel { value: st.value.push(c), ..st }
    } else {
        ScanModel { key: st.key.push(c), ..st }
    }
}

/// `c` goes to the value text while reading a value, and nowhere else.
pub open spec fn keep_in_value(st: ScanModel, c: char) -> ScanModel {
    if st.in_value {
        ScanModel { value: st.value.push(c), ..st }
    } else {
        st
    }
}

/// The key and value read so far become a pair, when there is a key.
pub open spec fn close_pair(st: ScanModel) -> Seq<(Seq<char>, Seq<char>)> {
    if st.key.len() > 0 {
        st.pairs.push((trim(st.key), st.value))
    } else {
        st.pairs
    }
}

/// One transition of the scanner.
pub open spec fn scan_step(st: ScanModel, c: char) -> ScanModel {
    if st.escape {
        ScanModel { escape: false, ..keep_in_value(st, c) }
    } else if c == '\\' {
        ScanModel { escape: true, ..keep_in_value(st, c) }
    } else if c == '"' && st.nesting != Nesting::Bracketed {
        let n = if st.nesting == Nesting::Quoted {
            Nesting::Top
        } else {
            Nesting::Quoted
        };
        ScanModel { nesting: n, ..keep_in_value(st, c) }
    } else if c == '[' && st.nesting != Nesting::Quoted {
        ScanModel { nesting: Nesting::Bracketed, ..keep_in_value(st, c) }
    } else if c == ']' && st.nesting != Nesting::Quoted {
        ScanModel { nesting: Nesting::Top, ..keep_in_value(st, c) }
    } else if c == '=' && st.nesting == Nesting::Top && !st.in_value {
        ScanModel { in_value: true, ..st }
    } else if c == ',' && st.nesting == Nesting::Top {
        ScanModel {
            key: Seq::empty(),
            value: Seq::empty(),
            in_value: false,
            pairs: close_pair(st),
            ..st
        }
    } else {
        keep(st, c)
    }
}

/// The scanner state after reading all of `s`.
pub open spec fn scan(s: Seq<char>) -> ScanModel
    decreases s.len(),
{
    if s.len() == 0 {
        scan_start()
    } else {
        scan_step(scan(s.drop_last()), s.last())
    }
}

pub open spec fn entries_of(pairs: Seq<(Seq<char>, Seq<char>)>) -> Seq<(Seq<char>, ValueModel)> {
    pairs.map_values(|p: (Seq<char>, Seq<char>)| (p.0, value_of(p.1)))
}

/// The entries that the argument text `inner` of a call gives: the pairs
/// set in order, a later pair replacing an earlier one under the same key.
pub open spec fn do_entries(inner: Seq<char>) -> Seq<(Seq<char>, ValueModel)> {
    puts(entries_of(close_pair(scan(inner))))
}

/// The text of a typing action, read between the first `text="` and the
/// closing `")` that ends the call.
pub open spec fn typed_text(t: Seq<char>) -> Option<Seq<char>> {
    if (starts_with(t, "do(action=\"Type\""@) || starts_with(t, "do(action=\"Type_Name\""@))
        && ends_with(t, "\")"@) {
        match find(t, "text=\""@) {
            Some(i) => {
                let rest = t.subrange(i + "text=\""@.len(), t.len() as int);
                match rfind(rest, "\")"@) {
                    Some(j) => Some(rest.subrange(0, j)),
                    None => None,
                }
            },
            None => None,
        }
    } else {
        None
    }
}

/// What parsing the text `response` gives: a record, or the error message.
pub open spec fn parse_result(response: Seq<char>) -> Result<RecordModel, Seq<char>> {
    let t = trim(response);
    match typed_text(t) {
        Some(x) => Ok(
            RecordModel {
                kind: RecordKind::Do,
                entries: seq![
                    ("action"@, ValueModel::Text("Type"@)),
                    ("text"@, ValueModel::Text(x)),
                ],
            },
        ),
        None => if starts_with(t, "do("@) {
            if t.len() >= "do("@.len() + 1 && t.last() == ')' {
                Ok(
                    RecordModel {
                        kind: RecordKind::Do,
                        entries: do_entries(t.subrange("do("@.len() as int, t.len() - 1)),
                    },
                )
            } else {
                Err("Invalid do() format: "@ + t)
            }
        } else if starts_with(t, "finish("@) {
            if t.len() >= "finish("@.len() + 1 && t.last() == ')' {
                Ok(
                    RecordModel {
                        kind: RecordKind::Finish,
                        entries: do_entries(t.subrange("finish("@.len() as int, t.len() - 1)),
                    },
                )
            } else {
                Err("Invalid finish() format: "@ + t)
            }
        } else {
            Err("Failed to parse action: "@ + t)
        },
    }
}

proof fn lemma_entries_push(pairs: Seq<(Seq<char>, Seq<char>)>, p: (Seq<char>, Seq<char>))
    ensures
        entries_of(pairs.push(p)) == entries_of(pairs).push((p.0, value_of(p.1))),
{
    assert(entries_of(pairs.push(p)) =~= entries_of(pairs).push((p.0, value_of(p.1))));
}

proof fn lemma_fields_push(v: Seq<Field>, f: Field)
    ensures
        fields_view(v.push(f)) == fields_view(v).push(f@),
{
    assert(fields_view(v.push(f)) =~= fields_view(v).push(f@));
}

/// Closes the pending pair into `fields` when there is a key.
fn close_pending(
    key: &Vec<char>,
    value: &Vec<char>,
    fields: &mut Vec<Field>,
    Ghost(pairs): Ghost<Seq<(Seq<char>, Seq<char>)>>,
)
    requires
        fields_view(old(fields)@) == entries_of(pairs),
    ensures
        fields_view(final(fields)@) == entries_of(
            close_pair(
                ScanModel {
                    key: key@,
                    value: value@,
                    nesting: Nesting::Top,
                    escape: false,
                    in_value: false,
                    pairs,
                },
            ),
        ),
{
    if key.len() > 0 {
        let k = trim_exec(key);
        let v = parse_value(value);
        let f = Field { key: string_of(&k), value: v };
        proof {
            lemma_fields_push(fields@, f);
            lemma_entries_push(pairs, (k@, value@));
        }
        fields.push(f);
    }
}

/// The fields that the argument text of a `do(...)` call gives.
fn scan_arguments(inner: &Vec<char>) -> (r: Vec<Field>)
    ensures
        fields_view(r@) == entries_of(close_pair(scan(inner@))),
{
    let mut key: Vec<char> = Vec::new();
    let mut value: Vec<char> = Vec::new();
    let mut nesting = Nesting::Top;
    let mut escape = false;
    let mut in_value = false;
    let mut fields: Vec<Field> = Vec::new();
    let ghost mut pairs: Seq<(Seq<char>, Seq<char>)> = Seq::empty();
    let mut i: usize = 0;
    assert(fields_view(fields@) =~= entries_of(pairs));
    assert(inner@.subrange(0, 0) =~= Seq::<char>::empty());
    while i < inner.len()
        invariant
            i <= inner@.len(),
            scan(inner@.subrange(0, i as int)) == (ScanModel {
                key: key@,
                value: value@,
                nesting,
                escape,
                in_value,
                pairs,
            }),
            fields_view(fields@) == entries_of(pairs),
        decreases inner@.len() - i,
    {
        let c = inner[i];
        let ghost before = scan(inner@.subrange(0, i as int));
        assert(inner@.subrange(0, i + 1).drop_last() =~= inner@.subrange(0, i as int));
        assert(scan(inner@.subrange(0, i + 1)) == scan_step(before, c));
        if escape {
            if in_value {
                value.push(c);
            }
            escape = false;
        } else if c == '\\' {
            if in_value {
                value.push(c);
            }
            escape = true;
        } else if c == '"' && nesting != Nesting::Bracketed {
            if in_value {
                value.push(c);
            }
            nesting = if nesting == Nesting::Quoted {
                Nesting::Top
            } else {
                Nesting::Quoted
            };
        } else if c == '[' && nesting != Nesting::Quoted {
            if in_value {
                value.push(c);
            }
            nesting = Nesting::Bracketed;
        } else if c == ']' && nesting != Nesting::Quoted {
            if in_value {
                value.push(c);
            }
            nesting = Nesting::Top;
        } else if c == '=' && nesting == Nesting::Top && !in_value {
            in_value = true;
        } else if c == ',' && nesting == Nesting::Top {
            close_pending(&key, &value, &mut fields, Ghost(pairs));
            proof {
                pairs = close_pair(before);
            }
            key = Vec::new();
            value = Vec::new();
            in_value = false;
        } else {
            if in_value {
                value.push(c);
            } else {
                key.push(c);
            }
        }
        i = i + 1;
    }
    assert(inner@.subrange(0, inner@.len() as int) =~= inner@);
    close_pending(&key, &value, &mut fields, Ghost(pairs));
    fields
}

/// Parses an action call.
///
/// A call that starts with `do(action="Type"` or `do(action="Type_Name"` and
/// ends with `")` has its text read whole, between the first `text="` and
/// that closing `")`, so that
/// typed text may hold commas, quotes and brackets. Other `do(...)` and
/// `finish(...)` calls are read argument by argument. A call that
/// does not end with `)`, or is neither `do(...)` nor `finish(...)`, is an
/// error naming the input.
pub fn parse_action(response: &str) -> (r: Result<ActionRecord, String>)
    ensures
        r matches Ok(rec) ==> parse_result(response@) == Ok::<RecordModel, Seq<char>>(rec@),
        r matches Err(e) ==> parse_result(response@) == Err::<RecordModel, Seq<char>>(e@),
{
    let t = trim_exec(&chars_of(response));
    let type_prefix = chars_of("do(action=\"Type\"");
    let type_name_prefix = chars_of("do(action=\"Type_Name\"");
    let type_close = chars_of("\")");
    if (starts_with_exec(&t, &type_prefix) || starts_with_exec(&t, &type_name_prefix))
        && ends_with_exec(&t, &type_close) {
        let marker = chars_of("text=\"");
        if let Some(i) = find_exec(&t, &marker) {
            proof {
                crate::text::lemma_find_from_bounds(t@, marker@, 0);
                assert(crate::text::occurs_at(t@, marker@, i as int));
            }
            assert(i + marker@.len() <= t@.len());
            let ml = marker.len();
            let tl = t.len();
            assert(i + ml <= tl);
            let rest = slice(&t, i + ml, tl);
            let close = chars_of("\")");
            if let Some(j) = rfind_exec(&rest, &close) {
                proof {
                    crate::text::lemma_rfind_bounds(rest@, close@);
                }
                proof {
                    reveal_strlit("action");
                    reveal_strlit("text");
                    assert("action"@.len() != "text"@.len());
                }
                let mut rec = ActionRecord::empty(RecordKind::Do);
                rec.insert(text_of("action"), ActionValue::Text(text_of("Type")));
                let ghost e1 = seq![("action"@, ValueModel::Text("Type"@))];
                assert(rec@.entries =~= e1);
                assert(crate::record::key_index(e1, "text"@, 1) is None);
                rec.insert(text_of("text"), ActionValue::Text(string_of_range(&rest, 0, j)));
                assert(rec@.entries =~= seq![
                    ("action"@, ValueModel::Text("Type"@)),
                    ("text"@, ValueModel::Text(rest@.subrange(0, j as int))),
                ]);
                return Ok(rec);
            }
        }
    }
    let do_prefix = chars_of("do(");
    if starts_with_exec(&t, &do_prefix) {
        if t.len() > do_prefix.len() && t[t.len() - 1] == ')' {
            let inner = slice(&t, do_prefix.len(), t.len() - 1);
            let fields = scan_arguments(&inner);
            return Ok(ActionRecord::from_fields(RecordKind::Do, fields));
        } else {
            return Err(naming("Invalid do() format: ", &t));
        }
    }
    let finish_prefix = chars_of("finish(");
    if starts_with_exec(&t, &finish_prefix) {
        if t.len() > finish_prefix.len() && t[t.len() - 1] == ')' {
            let inner = slice(&t, finish_prefix.len(), t.len() - 1);
            let fields = scan_arguments(&inner);
            return Ok(ActionRecord::from_fields(RecordKind::Finish, fields));
        } else {
            return Err(naming("Invalid finish() format: ", &t));
        }
    }
    Err(naming("Failed to parse action: ", &t))
}

/// An error message: `what` followed by the offending text.
fn naming(what: &str, t: &Vec<char>) -> (r: String)
    ensures
        r@ == what@ + t@,
{
    string_of(&crate::text::concat_chars(&chars_of(what), t))
}

/// The scanner state after reading `t` from state `st`.
pub open spec fn scan_from(st: ScanModel, t: Seq<char>) -> ScanModel
    decreases t.len(),
{
    if t.len() == 0 {
        st
    } else {
        scan_step(scan_from(st, t.drop_last()), t.last())
    }
}

proof fn lemma_scan_is_from_start(s: Seq<char>)
    ensures
        scan(s) == scan_from(scan_start(), s),
    decreases s.len(),
{
    if s.len() > 0 {
        lemma_scan_is_from_start(s.drop_last());
    }
}

proof fn lemma_scan_from_concat(st: ScanModel, a: Seq<char>, b: Seq<char>)
    ensures
        scan_from(st, a + b) == scan_from(scan_from(st, a), b),
    decreases b.len(),
{
    if b.len() == 0 {
        assert(a + b =~= a);
    } else {
        lemma_scan_from_concat(st, a, b.drop_last());
        assert((a + b).drop_last() =~= a + b.drop_last());
        assert((a + b).last() == b.last());
    }
}

proof fn lemma_scan_one(st: ScanModel, c: char)
    ensures
        scan_from(st, seq![c]) == scan_step(st, c),
{
    assert(seq![c].drop_last() =~= Seq::<char>::empty());
    assert(scan_from(st, seq![c].drop_last()) == st);
    assert(seq![c].last() == c);
}

/// `c` is copied to the key or value text without changing the scanner's mode.
pub open spec fn inert(st: ScanModel, c: char) -> bool {
    &&& !st.escape
    &&& c != '\\'
    &&& st.nesting == Nesting::Top ==> c != '"' && c != '[' && c != ']' && c != '=' && c != ','
    &&& st.nesting == Nesting::Quoted ==> c != '"'
    &&& st.nesting == Nesting::Bracketed ==> c != '[' && c != ']'
}

pub open spec fn kept(st: ScanModel, t: Seq<char>) -> ScanModel {
    if st.in_value {
        ScanModel { value: st.value + t, ..st }
    } else {
        ScanModel { key: st.key + t, ..st }
    }
}

proof fn lemma_inert_run(st: ScanModel, t: Seq<char>)
    requires
        forall|i: int| 0 <= i < t.len() ==> inert(st, #[trigger] t[i]),
    ensures
        scan_from(st, t) == kept(st, t),
    decreases t.len(),
{
    if t.len() == 0 {
        assert(st.value + t =~= st.value);
        assert(st.key + t =~= st.key);
    } else {
        let d = t.drop_last();
        assert forall|i: int| 0 <= i < d.len() implies inert(st, #[trigger] d[i]) by {
            assert(d[i] == t[i]);
        }
        lemma_inert_run(st, d);
        assert(inert(st, t[t.len() - 1]));
        assert((st.value + d).push(t.last()) =~= st.value + t);
        assert((st.key + d).push(t.last()) =~= st.key + t);
    }
}

proof fn lemma_trim_plain(s: Seq<char>)
    requires
        s.len() > 0,
        !is_ws(s[0]),
        !is_ws(s.last()),
    ensures
        trim(s) == s,
{
    assert(trim_start(s) == s);
    assert(trim_end(s) == s);
}

proof fn lemma_replace_absent(s: Seq<char>, p: Seq<char>, r: Seq<char>)
    requires
        p.len() > 0,
        forall|i: int| 0 <= i < s.len() ==> s[i] != p[0],
    ensures
        replace_all(s, p, r) == s,
    decreases s.len(),
{
    if s.len() > 0 {
        if p.len() <= s.len() {
            assert(s.subrange(0, p.len() as int)[0] == s[0]);
            assert(s.subrange(0, p.len() as int) != p);
        }
        let d = s.drop_first();
        assert forall|i: int| 0 <= i < d.len() implies d[i] != p[0] by {
            assert(d[i] == s[i + 1]);
        }
        lemma_replace_absent(d, p, r);
        assert(seq![s[0]] + d =~= s);
    }
}

proof fn lemma_split_without(s: Seq<char>, c: char)
    requires
        forall|i: int| 0 <= i < s.len() ==> s[i] != c,
    ensures
        split_on(s, c) == seq![s],
    decreases s.len(),
{
    if s.len() > 0 {
        let d = s.drop_last();
        assert forall|i: int| 0 <= i < d.len() implies d[i] != c by {
            assert(d[i] == s[i]);
        }
        lemma_split_without(d, c);
        assert(s[s.len() - 1] != c);
        assert(d.push(s.last()) =~= s);
        assert(seq![d].update(0, d.push(s.last())) =~= seq![s]);
    } else {
        assert(s =~= Seq::<char>::empty());
        assert(seq![Seq::<char>::empty()] =~= seq![s]);
    }
}

proof fn lemma_split_append(u: Seq<char>, v: Seq<char>, c: char)
    requires
        forall|i: int| 0 <= i < v.len() ==> v[i] != c,
    ensures
        split_on(u + v, c) == split_on(u, c).update(
            split_on(u, c).len() - 1,
            split_on(u, c).last() + v,
        ),
    decreases v.len(),
{
    crate::text::lemma_split_on_nonempty(u, c);
    if v.len() == 0 {
        assert(u + v =~= u);
        assert(split_on(u, c).last() + v =~= split_on(u, c).last());
        assert(split_on(u, c).update(split_on(u, c).len() - 1, split_on(u, c).last())
            =~= split_on(u, c));
    } else {
        let d = v.drop_last();
        assert forall|i: int| 0 <= i < d.len() implies d[i] != c by {
            assert(d[i] == v[i]);
        }
        lemma_split_append(u, d, c);
        assert((u + v).drop_last() =~= u + d);
        assert((u + v).last() == v.last());
        assert(v[v.len() - 1] != c);
        let prev = split_on(u, c);
        assert((prev.last() + d).push(v.last()) =~= prev.last() + v);
        assert(prev.update(prev.len() - 1, prev.last() + d).update(
            prev.len() - 1,
            prev.last() + v,
        ) =~= prev.update(prev.len() - 1, prev.last() + v));
    }
}

proof fn lemma_digit_char(d: int)
    requires
        0 <= d < 10,
    ensures
        is_digit(crate::record::digit_char(d)),
        crate::record::digit_char(d) as u32 - '0' as u32 == d,
        !is_ws(crate::record::digit_char(d)),
        crate::record::digit_char(d) != ',',
{
    let s = seq!['0', '1', '2', '3', '4', '5', '6', '7', '8', '9'];
    assert(s[0] == '0' && s[1] == '1' && s[2] == '2' && s[3] == '3' && s[4] == '4');
    assert(s[5] == '5' && s[6] == '6' && s[7] == '7' && s[8] == '8' && s[9] == '9');
}

proof fn lemma_nat_text(n: nat)
    ensures
        nat_text(n).len() > 0,
        all_digits(nat_text(n)),
        digits_value(nat_text(n)) == n,
        forall|i: int| 0 <= i < nat_text(n).len() ==> !is_ws(#[trigger] nat_text(n)[i])
            && nat_text(n)[i] != ',',
    decreases n,
{
    if n < 10 {
        lemma_digit_char(n as int);
        let s = nat_text(n);
        assert(s.drop_last() =~= Seq::<char>::empty());
        assert(digits_value(s.drop_last()) == 0);
        assert(s.last() == crate::record::digit_char(n as int));
    } else {
        let p = nat_text(n / 10);
        lemma_nat_text(n / 10);
        lemma_digit_char((n % 10) as int);
        let s = nat_text(n);
        assert(s == p + seq![crate::record::digit_char((n % 10) as int)]);
        assert(s.drop_last() =~= p);
        assert(s.last() == crate::record::digit_char((n % 10) as int));
        assert(digits_value(s) == digits_value(p) * 10 + (n % 10));
        assert(n == (n / 10) * 10 + n % 10) by (nonlinear_arith);
        assert forall|i: int| 0 <= i < s.len() implies is_digit(#[trigger] s[i]) by {
            if i < p.len() {
                assert(s[i] == p[i]);
            }
        }
        assert forall|i: int| 0 <= i < s.len() implies !is_ws(#[trigger] s[i]) && s[i] != ',' by {
            if i < p.len() {
                assert(s[i] == p[i]);
            }
        }
    }
}

proof fn lemma_nat_item(n: nat)
    requires
        n <= 1000,
    ensures
        item_of(trim(nat_text(n))) == ItemModel::Int(n as int),
{
    let s = nat_text(n);
    lemma_nat_text(n);
    lemma_trim_plain(s);
    assert(is_digit(s[0]));
    assert(unsigned_part(s) == s);
    assert(i64_of(s) == Some(n as int));
}

/// The call `do(action="Tap", element=[x,y])` with `x` and `y` in decimal,
/// and a space after the comma when `spaced`.
pub open spec fn tap_call(x: nat, y: nat, spaced: bool) -> Seq<char> {
    seq!['d', 'o', '('] + tap_arguments(x, y, spaced) + seq![')']
}

/// A space after the comma of the element, or none.
pub open spec fn gap(spaced: bool) -> Seq<char> {
    if spaced {
        seq![' ']
    } else {
        Seq::empty()
    }
}

pub open spec fn tap_arguments(x: nat, y: nat, spaced: bool) -> Seq<char> {
    seq!['a', 'c', 't', 'i', 'o', 'n'] + seq!['='] + seq!['"'] + seq!['T', 'a', 'p'] + seq!['"']
        + seq![','] + seq![' ', 'e', 'l', 'e', 'm', 'e', 'n', 't'] + seq!['='] + seq!['['] + (
    nat_text(x) + seq![','] + (gap(spaced) + nat_text(y))) + seq![']']
}

/// The pairs that the scanner reads from the arguments of a tap call.
proof fn lemma_tap_scan(x: nat, y: nat, spaced: bool)
    ensures
        close_pair(scan(tap_arguments(x, y, spaced))) == seq![
            (trim(seq!['a', 'c', 't', 'i', 'o', 'n']), seq!['"'] + seq!['T', 'a', 'p'] + seq!['"']),
            (
                trim(seq![' ', 'e', 'l', 'e', 'm', 'e', 'n', 't']),
                seq!['['] + (nat_text(x) + seq![','] + (gap(spaced) + nat_text(y))) + seq![']'],
            ),
        ],
{
    let k1 = seq!['a', 'c', 't', 'i', 'o', 'n'];
    let eq = seq!['='];
    let q = seq!['"'];
    let tap = seq!['T', 'a', 'p'];
    let comma = seq![','];
    let k2 = seq![' ', 'e', 'l', 'e', 'm', 'e', 'n', 't'];
    let lb = seq!['['];
    let rb = seq![']'];
    let dx = nat_text(x);
    let dy = nat_text(y);
    let gy = gap(spaced) + dy;
    let mid = dx + comma + gy;
    let inner = tap_arguments(x, y, spaced);
    lemma_nat_text(x);
    lemma_nat_text(y);
    let s0 = scan_start();
    assert forall|i: int| 0 <= i < k1.len() implies inert(s0, #[trigger] k1[i]) by {}
    lemma_inert_run(s0, k1);
    let s1 = kept(s0, k1);
    lemma_scan_one(s1, '=');
    let s2 = scan_step(s1, '=');
    lemma_scan_one(s2, '"');
    let s3 = scan_step(s2, '"');
    assert(s3.nesting == Nesting::Quoted && s3.in_value && !s3.escape);
    assert forall|i: int| 0 <= i < tap.len() implies inert(s3, #[trigger] tap[i]) by {}
    lemma_inert_run(s3, tap);
    let s4 = kept(s3, tap);
    lemma_scan_one(s4, '"');
    let s5 = scan_step(s4, '"');
    assert(s5.nesting == Nesting::Top && s5.in_value);
    lemma_scan_one(s5, ',');
    let s6 = scan_step(s5, ',');
    assert(!s6.in_value && s6.nesting == Nesting::Top && !s6.escape);
    assert forall|i: int| 0 <= i < k2.len() implies inert(s6, #[trigger] k2[i]) by {}
    lemma_inert_run(s6, k2);
    let s7 = kept(s6, k2);
    lemma_scan_one(s7, '=');
    let s8 = scan_step(s7, '=');
    lemma_scan_one(s8, '[');
    let s9 = scan_step(s8, '[');
    assert(s9.nesting == Nesting::Bracketed && s9.in_value && !s9.escape);
    assert forall|i: int| 0 <= i < mid.len() implies inert(s9, #[trigger] mid[i]) by {
        if i < dx.len() {
            assert(mid[i] == dx[i]);
            assert(is_digit(dx[i]));
        } else if i == dx.len() {
            assert(mid[i] == ',');
        } else {
            assert(mid[i] == gy[i - dx.len() - 1]);
            if i - dx.len() - 1 >= gap(spaced).len() {
                assert(gy[i - dx.len() - 1] == dy[i - dx.len() - 1 - gap(spaced).len()]);
                assert(is_digit(dy[i - dx.len() - 1 - gap(spaced).len()]));
            }
        }
    }
    lemma_inert_run(s9, mid);
    let s10 = kept(s9, mid);
    lemma_scan_one(s10, ']');
    let s11 = scan_step(s10, ']');
    let a1 = k1 + eq;
    let a2 = a1 + q;
    let a3 = a2 + tap;
    let a4 = a3 + q;
    let a5 = a4 + comma;
    let a6 = a5 + k2;
    let a7 = a6 + eq;
    let a8 = a7 + lb;
    let a9 = a8 + mid;
    assert(inner =~= a9 + rb);
    lemma_scan_from_concat(s0, k1, eq);
    lemma_scan_from_concat(s0, a1, q);
    lemma_scan_from_concat(s0, a2, tap);
    lemma_scan_from_concat(s0, a3, q);
    lemma_scan_from_concat(s0, a4, comma);
    lemma_scan_from_concat(s0, a5, k2);
    lemma_scan_from_concat(s0, a6, eq);
    lemma_scan_from_concat(s0, a7, lb);
    lemma_scan_from_concat(s0, a8, mid);
    lemma_scan_from_concat(s0, a9, rb);
    lemma_scan_is_from_start(inner);
    assert(scan(inner) == s11);
    assert(s5.value =~= q + tap + q);
    assert(s11.value =~= lb + mid + rb);
    assert(s11.key =~= k2);
    assert(s11.pairs =~= seq![(trim(k1), q + tap + q)]);
    assert(close_pair(s11) =~= seq![(trim(k1), q + tap + q), (trim(k2), lb + mid + rb)]);
}

/// The values of the two pairs of a tap call.
proof fn lemma_tap_values(x: nat, y: nat, spaced: bool)
    requires
        x <= 1000,
        y <= 1000,
    ensures
        entries_of(close_pair(scan(tap_arguments(x, y, spaced)))) == seq![
            ("action"@, ValueModel::Text("Tap"@)),
            ("element"@, ValueModel::List(seq![ItemModel::Int(x as int), ItemModel::Int(y as int)])),
        ],
{
    reveal_strlit("action");
    reveal_strlit("element");
    reveal_strlit("Tap");
    let k1 = seq!['a', 'c', 't', 'i', 'o', 'n'];
    let q = seq!['"'];
    let tap = seq!['T', 'a', 'p'];
    let comma = seq![','];
    let k2 = seq![' ', 'e', 'l', 'e', 'm', 'e', 'n', 't'];
    let lb = seq!['['];
    let rb = seq![']'];
    let dx = nat_text(x);
    let dy = nat_text(y);
    let gy = gap(spaced) + dy;
    let mid = dx + comma + gy;
    lemma_tap_scan(x, y, spaced);
    lemma_nat_text(x);
    lemma_nat_text(y);
    lemma_trim_plain(k1);
    assert(k1 =~= "action"@);
    assert(trim(k2) == k2.drop_first()) by {
        assert(trim_start(k2) == trim_start(k2.drop_first()));
        lemma_trim_plain(k2.drop_first());
    }
    assert(k2.drop_first() =~= "element"@);
    let v1 = q + tap + q;
    lemma_trim_plain(v1);
    assert(v1.subrange(1, v1.len() - 1) =~= tap);
    lemma_replace_absent(tap, seq!['\\', 'n'], seq!['\n']);
    lemma_replace_absent(tap, seq!['\\', 't'], seq!['\t']);
    assert(tap =~= "Tap"@);
    assert(value_of(v1) == ValueModel::Text("Tap"@));
    let v2 = lb + mid + rb;
    assert(v2[0] == '[');
    assert(v2.last() == ']');
    lemma_trim_plain(v2);
    assert(v2.subrange(1, v2.len() - 1) =~= mid);
    assert(split_on(dx + comma, ',') == seq![dx, Seq::<char>::empty()]) by {
        lemma_split_without(dx, ',');
        assert((dx + comma).drop_last() =~= dx);
        assert((dx + comma).last() == ',');
    }
    assert forall|i: int| 0 <= i < gy.len() implies gy[i] != ',' by {
        if i >= gap(spaced).len() {
            assert(gy[i] == dy[i - gap(spaced).len()]);
        }
    }
    lemma_split_append(dx + comma, gy, ',');
    assert(split_on(mid, ',') =~= seq![dx, gy]) by {
        assert(Seq::<char>::empty() + gy =~= gy);
    }
    lemma_nat_item(x);
    lemma_nat_item(y);
    assert(trim(gy) == trim(dy)) by {
        if spaced {
            assert(gy.drop_first() =~= dy);
            assert(trim_start(gy) == trim_start(dy));
        } else {
            assert(gy =~= dy);
        }
    }
    assert(items_of(seq![dx, gy]) =~= seq![ItemModel::Int(x as int), ItemModel::Int(y as int)]);
    assert(value_of(v2) == ValueModel::List(
        seq![ItemModel::Int(x as int), ItemModel::Int(y as int)],
    ));
    assert(entries_of(seq![(trim(k1), v1), (trim(k2), v2)]) =~= seq![
        ("action"@, ValueModel::Text("Tap"@)),
        ("element"@, ValueModel::List(seq![ItemModel::Int(x as int), ItemModel::Int(y as int)])),
    ]);
}

/// Parsing `do(action="Tap", element=[x,y])`, with or without a space after
/// the comma, for normalized coordinates gives a `do` record whose action is
/// `Tap` and whose element is `[x, y]` as integers.
pub proof fn lemma_tap_element_kept(x: nat, y: nat, spaced: bool)
    requires
        x <= 1000,
        y <= 1000,
    ensures
        parse_result(tap_call(x, y, spaced)) matches Ok(r) && r.kind == RecordKind::Do && lookup(
            r.entries,
            "action"@,
        ) == Some(ValueModel::Text("Tap"@)) && lookup(r.entries, "element"@) == Some(
            ValueModel::List(seq![ItemModel::Int(x as int), ItemModel::Int(y as int)]),
        ),
{
    reveal_strlit("do(action=\"Type\"");
    reveal_strlit("do(action=\"Type_Name\"");
    reveal_strlit("do(");
    reveal_strlit("action");
    reveal_strlit("element");
    let inner = tap_arguments(x, y, spaced);
    let t = tap_call(x, y, spaced);
    assert(t[0] == 'd');
    assert(t.last() == ')');
    lemma_trim_plain(t);
    assert(t.subrange(0, 16)[12] == 'a');
    assert("do(action=\"Type\""@[12] == 'y');
    assert(t.subrange(0, 21)[12] == 'a');
    assert("do(action=\"Type_Name\""@[12] == 'y');
    assert(!starts_with(t, "do(action=\"Type\""@));
    assert(!starts_with(t, "do(action=\"Type_Name\""@));
    assert(typed_text(t) is None);
    assert(t.subrange(0, 3) =~= "do("@);
    assert(starts_with(t, "do("@));
    assert(t.subrange(3, t.len() - 1) =~= inner);
    assert(trim(t) == t);
    lemma_tap_values(x, y, spaced);
    reveal_strlit("action");
    reveal_strlit("element");
    assert("action"@.len() != "element"@.len());
    lemma_puts_distinct(entries_of(close_pair(scan(inner))));
    let entries = do_entries(inner);
    assert(parse_result(t) == Ok::<RecordModel, Seq<char>>(
        RecordModel { kind: RecordKind::Do, entries },
    ));
    assert(entries == seq![
        ("action"@, ValueModel::Text("Tap"@)),
        ("element"@, ValueModel::List(seq![ItemModel::Int(x as int), ItemModel::Int(y as int)])),
    ]);
    assert("element"@ != "action"@) by {
        assert("element"@.len() != "action"@.len());
    }
    assert(entries.drop_last() =~= seq![("action"@, ValueModel::Text("Tap"@))]);
    assert(entries.last().0 == "element"@);
    assert(lookup(entries, "element"@) == Some(
        ValueModel::List(seq![ItemModel::Int(x as int), ItemModel::Int(y as int)]),
    ));
    assert(lookup(entries.drop_last(), "action"@) == Some(ValueModel::Text("Tap"@)));
    assert(lookup(entries, "action"@) == lookup(entries.drop_last(), "action"@));
}

/// A character that may stand in a key, a number or a bare word of a call.
pub open spec fn word_char(c: char) -> bool {
    !is_ws(c) && c != '=' && c != ',' && c != '"' && c != '[' && c != ']' && c != '\\'
}

/// A character that may stand inside a quoted text.
pub open spec fn text_char(c: char) -> bool {
    c != '"' && c != '\\'
}

pub open spec fn is_word(s: Seq<char>) -> bool {
    s.len() > 0 && forall|i: int| 0 <= i < s.len() ==> word_char(#[trigger] s[i])
}

pub open spec fn is_text(s: Seq<char>) -> bool {
    forall|i: int| 0 <= i < s.len() ==> text_char(#[trigger] s[i])
}

/// A decimal as the reader produces it: a word with the shape of a
/// floating-point literal that is not an `i64`.
pub open spec fn is_decimal_word(s: Seq<char>) -> bool {
    is_word(s) && is_float_text(s) && i64_of(s) is None
}

pub open spec fn simple_item(i: ItemModel) -> bool {
    match i {
        ItemModel::Int(n) => i64::MIN <= n <= i64::MAX,
        ItemModel::Decimal(s) => is_decimal_word(s),
        ItemModel::Text(s) => is_text(s) && forall|k: int|
            0 <= k < s.len() ==> #[trigger] s[k] != ',' && s[k] != '[' && s[k] != ']',
    }
}

/// A value that its call syntax writes unambiguously.
pub open spec fn simple_value(v: ValueModel) -> bool {
    match v {
        ValueModel::Text(s) => is_text(s),
        ValueModel::Int(n) => i64::MIN <= n <= i64::MAX,
        ValueModel::Decimal(s) => is_decimal_word(s),
        ValueModel::Bool(_) => true,
        ValueModel::List(items) => items.len() > 0 && forall|k: int|
            0 <= k < items.len() ==> simple_item(#[trigger] items[k]),
    }
}

proof fn lemma_int_text(n: int)
    requires
        i64::MIN <= n <= i64::MAX,
    ensures
        i64_of(int_text(n)) == Some(n),
        is_word(int_text(n)),
        is_digit(int_text(n).last()),
{
    if n < 0 {
        let d = nat_text((-n) as nat);
        lemma_nat_text((-n) as nat);
        let s = int_text(n);
        assert(s == seq!['-'] + d);
        assert(s.drop_first() =~= d);
        assert(unsigned_part(s) == d);
        assert forall|i: int| 0 <= i < s.len() implies word_char(#[trigger] s[i]) by {
            if i > 0 {
                assert(s[i] == d[i - 1]);
                assert(is_digit(d[i - 1]));
            }
        }
        assert(s.last() == d.last());
        assert(is_digit(d[d.len() - 1]));
    } else {
        let d = nat_text(n as nat);
        lemma_nat_text(n as nat);
        assert(is_digit(d[0]));
        assert(unsigned_part(d) == d);
        assert forall|i: int| 0 <= i < d.len() implies word_char(#[trigger] d[i]) by {
            assert(is_digit(d[i]));
        }
        assert(is_digit(d[d.len() - 1]));
    }
}

proof fn lemma_word_inert(st: ScanModel, w: Seq<char>)
    requires
        forall|i: int| 0 <= i < w.len() ==> word_char(#[trigger] w[i]),
        !st.escape,
    ensures
        forall|i: int| 0 <= i < w.len() ==> inert(st, #[trigger] w[i]),
{
    assert forall|i: int| 0 <= i < w.len() implies inert(st, #[trigger] w[i]) by {
        assert(word_char(w[i]));
    }
}

/// Scanning a written value from a top-level value position appends it and
/// comes back to the top level.
proof fn lemma_scan_value(st: ScanModel, v: ValueModel)
    requires
        simple_value(v),
        st.nesting == Nesting::Top,
        st.in_value,
        !st.escape,
    ensures
        scan_from(st, value_text(v)) == (ScanModel { value: st.value + value_text(v), ..st }),
{
    let t = value_text(v);
    match v {
        ValueModel::Int(n) => {
            lemma_int_text(n);
            lemma_word_inert(st, t);
            lemma_inert_run(st, t);
        },
        ValueModel::Decimal(s) => {
            lemma_word_inert(st, t);
            lemma_inert_run(st, t);
        },
        ValueModel::Bool(b) => {
            assert forall|i: int| 0 <= i < t.len() implies inert(st, #[trigger] t[i]) by {}
            lemma_inert_run(st, t);
        },
        ValueModel::Text(s) => {
            let q = seq!['"'];
            lemma_scan_one(st, '"');
            let s1 = scan_step(st, '"');
            assert forall|i: int| 0 <= i < s.len() implies inert(s1, #[trigger] s[i]) by {
                assert(text_char(s[i]));
            }
            lemma_inert_run(s1, s);
            let s2 = kept(s1, s);
            lemma_scan_one(s2, '"');
            lemma_scan_from_concat(st, q, s);
            lemma_scan_from_concat(st, q + s, q);
            assert(t =~= q + s + q);
            assert(scan_step(s2, '"').value =~= st.value + t);
        },
        ValueModel::List(items) => {
            let body = items_text(items);
            let lb = seq!['['];
            let rb = seq![']'];
            lemma_scan_one(st, '[');
            let s1 = scan_step(st, '[');
            lemma_items_inert(s1, items);
            lemma_inert_run(s1, body);
            let s2 = kept(s1, body);
            lemma_scan_one(s2, ']');
            lemma_scan_from_concat(st, lb, body);
            lemma_scan_from_concat(st, lb + body, rb);
            assert(t =~= lb + body + rb);
            assert(scan_step(s2, ']').value =~= st.value + t);
        },
    }
}

/// Inside brackets, the written elements of a list change nothing but the value text.
proof fn lemma_items_inert(st: ScanModel, items: Seq<ItemModel>)
    requires
        st.nesting == Nesting::Bracketed,
        !st.escape,
        forall|k: int| 0 <= k < items.len() ==> simple_item(#[trigger] items[k]),
    ensures
        forall|i: int| 0 <= i < items_text(items).len() ==> inert(st, #[trigger] items_text(items)[i]),
    decreases items.len(),
{
    if items.len() == 0 {
    } else {
        let last = items.last();
        let lt = item_text(last);
        assert(simple_item(items[items.len() - 1]));
        assert forall|i: int| 0 <= i < lt.len() implies inert(st, #[trigger] lt[i]) by {
            match last {
                ItemModel::Int(n) => {
                    lemma_int_text(n);
                    assert(word_char(lt[i]));
                },
                ItemModel::Decimal(s) => {
                    assert(word_char(s[i]));
                },
                ItemModel::Text(s) => {
                    if 0 < i < lt.len() - 1 {
                        assert(lt[i] == s[i - 1]);
                        assert(text_char(s[i - 1]));
                        assert(s[i - 1] != '[' && s[i - 1] != ']');
                    }
                },
            }
        }
        if items.len() == 1 {
        } else {
            let d = items.drop_last();
            assert forall|k: int| 0 <= k < d.len() implies simple_item(#[trigger] d[k]) by {
                assert(d[k] == items[k]);
            }
            lemma_items_inert(st, d);
            let u = items_text(d);
            let all = items_text(items);
            assert(all == u + seq![','] + lt);
            assert forall|i: int| 0 <= i < all.len() implies inert(st, #[trigger] all[i]) by {
                if i < u.len() {
                    assert(all[i] == u[i]);
                } else if i == u.len() {
                    assert(all[i] == ',');
                } else {
                    assert(all[i] == lt[i - u.len() - 1]);
                }
            }
        }
    }
}

pub open spec fn raw_pairs(e: Seq<(Seq<char>, ValueModel)>) -> Seq<(Seq<char>, Seq<char>)> {
    e.map_values(|p: (Seq<char>, ValueModel)| (p.0, value_text(p.1)))
}

/// The keys are words and the values are written unambiguously.
pub open spec fn simple_entries(e: Seq<(Seq<char>, ValueModel)>) -> bool {
    forall|k: int| 0 <= k < e.len() ==> is_word(#[trigger] e[k].0) && simple_value(e[k].1)
}

/// The scanner state after the written arguments: the last pair still open.
pub open spec fn pending(e: Seq<(Seq<char>, ValueModel)>) -> ScanModel {
    ScanModel {
        key: (if e.len() > 1 {
            seq![' ']
        } else {
            Seq::empty()
        }) + e.last().0,
        value: value_text(e.last().1),
        nesting: Nesting::Top,
        escape: false,
        in_value: true,
        pairs: raw_pairs(e.drop_last()),
    }
}

proof fn lemma_trim_word(k: Seq<char>)
    requires
        is_word(k),
    ensures
        trim(k) == k,
        trim(seq![' '] + k) == k,
{
    assert(!is_ws(k[0]) && word_char(k[0]));
    assert(word_char(k[k.len() - 1]));
    lemma_trim_plain(k);
    let sk = seq![' '] + k;
    assert(sk.drop_first() =~= k);
    assert(trim_start(sk) == trim_start(k));
}

proof fn lemma_scan_args(e: Seq<(Seq<char>, ValueModel)>)
    requires
        e.len() >= 1,
        simple_entries(e),
    ensures
        scan(args_text(e)) == pending(e),
    decreases e.len(),
{
    let k = e.last().0;
    let v = e.last().1;
    let vt = value_text(v);
    let eq = seq!['='];
    assert(is_word(e[e.len() - 1].0) && simple_value(e[e.len() - 1].1));
    lemma_scan_is_from_start(args_text(e));
    if e.len() == 1 {
        let s0 = scan_start();
        lemma_word_inert(s0, k);
        lemma_inert_run(s0, k);
        let s1 = kept(s0, k);
        lemma_scan_one(s1, '=');
        let s2 = scan_step(s1, '=');
        lemma_scan_value(s2, v);
        lemma_scan_from_concat(s0, k, eq);
        lemma_scan_from_concat(s0, k + eq, vt);
        assert(s1.key =~= k);
        assert(s2.value + vt =~= vt);
        assert(e.drop_last() =~= Seq::<(Seq<char>, ValueModel)>::empty());
        assert(raw_pairs(e.drop_last()) =~= Seq::<(Seq<char>, Seq<char>)>::empty());
        assert(Seq::<char>::empty() + k =~= k);
    } else {
        let d = e.drop_last();
        assert(simple_entries(d)) by {
            assert forall|j: int| 0 <= j < d.len() implies is_word(#[trigger] d[j].0)
                && simple_value(d[j].1) by {
                assert(d[j] == e[j]);
            }
        }
        lemma_scan_args(d);
        lemma_scan_is_from_start(args_text(d));
        let x = args_text(d);
        let st = pending(d);
        assert(is_word(d[d.len() - 1].0));
        lemma_trim_word(d.last().0);
        lemma_scan_one(st, ',');
        let s1 = scan_step(st, ',');
        assert(st.key.len() > 0);
        assert(s1.pairs =~= raw_pairs(d)) by {
            assert(trim(st.key) == d.last().0);
            assert(d =~= d.drop_last().push(d.last()));
        }
        lemma_scan_one(s1, ' ');
        let s2 = scan_step(s1, ' ');
        assert(s2.key =~= seq![' ']);
        lemma_word_inert(s2, k);
        lemma_inert_run(s2, k);
        let s3 = kept(s2, k);
        lemma_scan_one(s3, '=');
        let s4 = scan_step(s3, '=');
        lemma_scan_value(s4, v);
        let s0 = scan_start();
        let comma = seq![','];
        let space = seq![' '];
        assert(args_text(e) =~= x + comma + space + k + eq + vt);
        lemma_scan_from_concat(s0, x, comma);
        lemma_scan_from_concat(s0, x + comma, space);
        lemma_scan_from_concat(s0, x + comma + space, k);
        lemma_scan_from_concat(s0, x + comma + space + k, eq);
        lemma_scan_from_concat(s0, x + comma + space + k + eq, vt);
        assert(s4.value + vt =~= vt);
        assert(s3.key =~= seq![' '] + k);
    }
}

/// A text whose first character cannot begin a number is no decimal.
proof fn lemma_not_float(t: Seq<char>)
    requires
        t.len() > 0,
        !is_digit(t[0]),
        t[0] != '.' && t[0] != '+' && t[0] != '-' && t[0] != 'e' && t[0] != 'E',
        t[0] != 'i' && t[0] != 'I' && t[0] != 'n' && t[0] != 'N',
    ensures
        !is_float_text(t),
        i64_of(t) is None,
{
    assert(unsigned_part(t) == t);
    assert(!crate::value::same_letter(t[0], 'i'));
    assert(!crate::value::same_letter(t[0], 'n'));
    assert(!crate::value::spells(t, seq!['i', 'n', 'f'])) by {
        if t.len() == 3 {
            assert(seq!['i', 'n', 'f'][0] == 'i');
        }
    }
    assert(!crate::value::spells(t, seq!['i', 'n', 'f', 'i', 'n', 'i', 't', 'y'])) by {
        if t.len() == 8 {
            assert(seq!['i', 'n', 'f', 'i', 'n', 'i', 't', 'y'][0] == 'i');
        }
    }
    assert(!crate::value::spells(t, seq!['n', 'a', 'n'])) by {
        if t.len() == 3 {
            assert(seq!['n', 'a', 'n'][0] == 'n');
        }
    }
    let e = first_of(t, 'e', 'E', 0);
    lemma_first_of_after(t, 'e', 'E', 1);
    assert(e >= 1);
    let m = t.subrange(0, e);
    lemma_first_of_after(m, '.', '.', 1);
    let d = first_of(m, '.', '.', 0);
    assert(d >= 1);
    assert(m.subrange(0, d)[0] == t[0]);
    assert(!is_mantissa(m));
    assert(!all_digits(t));
}

proof fn lemma_first_of_after(s: Seq<char>, a: char, b: char, i: int)
    requires
        i == 1,
        s.len() > 0,
        s[0] != a && s[0] != b,
    ensures
        first_of(s, a, b, 0) >= 1,
        first_of(s, a, b, 0) <= s.len(),
{
    lemma_first_of_bounds(s, a, b, 1);
}

proof fn lemma_first_of_bounds(s: Seq<char>, a: char, b: char, i: int)
    requires
        0 <= i,
    ensures
        i <= s.len() ==> i <= first_of(s, a, b, i) <= s.len(),
        i > s.len() ==> first_of(s, a, b, i) == s.len(),
    decreases s.len() - i,
{
    if i < s.len() && !(s[i] == a || s[i] == b) {
        lemma_first_of_bounds(s, a, b, i + 1);
    }
}

proof fn lemma_quoted_text(s: Seq<char>)
    requires
        is_text(s),
    ensures
        strip_char(quoted(s), '"') == s,
        escapes_expanded(s) == s,
        quoted(s).subrange(1, quoted(s).len() - 1) == s,
{
    let t = quoted(s);
    assert(t.subrange(1, t.len() - 1) =~= s);
    assert(t.drop_first() =~= s + seq!['"']);
    let u = s + seq!['"'];
    assert(strip_char(t, '"') == strip_char(u, '"'));
    if s.len() > 0 {
        assert(text_char(s[0]));
        assert(text_char(s[s.len() - 1]));
        assert(u[0] == s[0]);
        assert(u.drop_last() =~= s);
        assert(strip_char(u, '"') == strip_char(s, '"'));
        assert(strip_char(s, '"') == s);
    } else {
        assert(u =~= seq!['"']);
        assert(u.drop_first() =~= s);
        assert(strip_char(u, '"') == strip_char(s, '"'));
    }
    assert forall|i: int| 0 <= i < s.len() implies s[i] != seq!['\\', 'n'][0] by {
        assert(text_char(s[i]));
    }
    lemma_replace_absent(s, seq!['\\', 'n'], seq!['\n']);
    assert forall|i: int| 0 <= i < s.len() implies s[i] != seq!['\\', 't'][0] by {
        assert(text_char(s[i]));
    }
    lemma_replace_absent(s, seq!['\\', 't'], seq!['\t']);
}

proof fn lemma_item_back(i: ItemModel)
    requires
        simple_item(i),
    ensures
        item_of(trim(item_text(i))) == i,
        forall|k: int| 0 <= k < item_text(i).len() ==> #[trigger] item_text(i)[k] != ',',
{
    let t = item_text(i);
    match i {
        ItemModel::Int(n) => {
            lemma_int_text(n);
            assert(word_char(t[0]));
            assert(word_char(t[t.len() - 1]));
            lemma_trim_plain(t);
            assert forall|k: int| 0 <= k < t.len() implies #[trigger] t[k] != ',' by {
                assert(word_char(t[k]));
            }
        },
        ItemModel::Decimal(s) => {
            assert(word_char(s[0]));
            assert(word_char(s[s.len() - 1]));
            lemma_trim_plain(s);
            assert forall|k: int| 0 <= k < t.len() implies #[trigger] t[k] != ',' by {
                assert(word_char(t[k]));
            }
        },
        ItemModel::Text(s) => {
            lemma_trim_plain(t);
            lemma_not_float(t);
            lemma_quoted_text(s);
            assert forall|k: int| 0 <= k < t.len() implies #[trigger] t[k] != ',' by {
                if 0 < k < t.len() - 1 {
                    assert(t[k] == s[k - 1]);
                }
            }
        },
    }
}

proof fn lemma_split_items(items: Seq<ItemModel>)
    requires
        items.len() >= 1,
        forall|k: int| 0 <= k < items.len() ==> simple_item(#[trigger] items[k]),
    ensures
        split_on(items_text(items), ',') == items.map_values(|i: ItemModel| item_text(i)),
    decreases items.len(),
{
    let lt = item_text(items.last());
    lemma_item_back(items[items.len() - 1]);
    if items.len() == 1 {
        lemma_split_without(lt, ',');
        assert(items.map_values(|i: ItemModel| item_text(i)) =~= seq![lt]);
    } else {
        let d = items.drop_last();
        assert forall|k: int| 0 <= k < d.len() implies simple_item(#[trigger] d[k]) by {
            assert(d[k] == items[k]);
        }
        lemma_split_items(d);
        let u = items_text(d);
        let comma = seq![','];
        assert((u + comma).drop_last() =~= u);
        assert(split_on(u + comma, ',') == split_on(u, ',').push(Seq::<char>::empty()));
        lemma_split_append(u + comma, lt, ',');
        assert(Seq::<char>::empty() + lt =~= lt);
        assert(items_text(items) == u + comma + lt);
        assert(items.map_values(|i: ItemModel| item_text(i)) =~= d.map_values(
            |i: ItemModel| item_text(i),
        ).push(lt));
    }
}

/// Reading a written value gives the value back.
proof fn lemma_value_back(v: ValueModel)
    requires
        simple_value(v),
    ensures
        value_of(value_text(v)) == v,
{
    let t = value_text(v);
    match v {
        ValueModel::Int(n) => {
            lemma_int_text(n);
            assert(word_char(t[0]));
            assert(word_char(t[t.len() - 1]));
            lemma_trim_plain(t);
        },
        ValueModel::Decimal(s) => {
            assert(word_char(s[0]));
            assert(word_char(s[s.len() - 1]));
            lemma_trim_plain(s);
        },
        ValueModel::Bool(b) => {
            lemma_trim_plain(t);
            lemma_not_float(t);
        },
        ValueModel::Text(s) => {
            lemma_trim_plain(t);
            lemma_quoted_text(s);
        },
        ValueModel::List(items) => {
            let body = items_text(items);
            assert(t == seq!['['] + body + seq![']']);
            assert(t[0] == '[');
            assert(t.last() == ']');
            lemma_trim_plain(t);
            assert(t.subrange(1, t.len() - 1) =~= body);
            lemma_split_items(items);
            assert forall|k: int| 0 <= k < items.len() implies item_of(
                trim(#[trigger] item_text(items[k])),
            ) == items[k] by {
                lemma_item_back(items[k]);
            }
            assert(items_of(items.map_values(|i: ItemModel| item_text(i))) =~= items);
        },
    }
}

/// Writing a `do` record back as a call and reading that call gives the
/// same record, for records whose keys (each held once, as in every record) are words and whose values the call
/// syntax writes unambiguously (texts without quotes or backslashes; list
/// elements that are numbers or such texts without commas or brackets),
/// unless the written call reads as a typing call, which is read whole.
pub proof fn lemma_call_text_reparses(r: RecordModel)
    requires
        r.kind == RecordKind::Do,
        simple_entries(r.entries),
        unique_keys(r.entries),
        typed_text(call_text(r)) is None,
    ensures
        parse_result(call_text(r)) == Ok::<RecordModel, Seq<char>>(r),
{
    reveal_strlit("do(");
    reveal_strlit(")");
    let args = args_text(r.entries);
    let t = call_text(r);
    assert(t == seq!['d', 'o', '('] + args + seq![')']);
    assert(t[0] == 'd');
    assert(t.last() == ')');
    lemma_trim_plain(t);
    assert(t.subrange(0, 3) =~= "do("@);
    assert(t.subrange(3, t.len() - 1) =~= args);
    let e = r.entries;
    if e.len() == 0 {
        assert(args =~= Seq::<char>::empty());
        assert(scan(args) == scan_start());
        assert(entries_of(close_pair(scan(args))) =~= e);
    } else {
        lemma_scan_args(e);
        let st = pending(e);
        assert(is_word(e[e.len() - 1].0));
        lemma_trim_word(e.last().0);
        assert(trim(st.key) == e.last().0);
        assert(close_pair(st) =~= raw_pairs(e)) by {
            assert(e =~= e.drop_last().push(e.last()));
        }
        assert forall|k: int| 0 <= k < e.len() implies value_of(value_text(#[trigger] e[k].1))
            == e[k].1 by {
            assert(is_word(e[k].0) && simple_value(e[k].1));
            lemma_value_back(e[k].1);
        }
        assert(entries_of(raw_pairs(e)) =~= e);
        lemma_puts_distinct(e);
    }
    assert(parse_result(t) == Ok::<RecordModel, Seq<char>>(
        RecordModel { kind: RecordKind::Do, entries: e },
    ));
}

} // verus!
