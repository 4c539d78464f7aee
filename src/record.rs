//! The action record: a discriminator and an ordered list of named values.
use vstd::prelude::*;
use crate::text::{chars_of, concat_chars, occurs_at_exec, string_of};
use crate::value::{ActionValue, ItemModel, ListItem, ValueModel};

verus! {

/// Whether a record asks for a device action or ends the task.
#[derive(Debug, Clone, Copy, PartialEq, Eq, Structural)]
pub enum RecordKind {
    Do,
    Finish,
}

/// One named value of a record.
#[derive(Debug, Clone, PartialEq)]
pub struct Field {
    pub key: String,
    pub value: ActionValue,
}

impl View for Field {
    type V = (Seq<char>, ValueModel);

    open spec fn view(&self) -> (Seq<char>, ValueModel) {
        (self.key@, self.value@)
    }
}

pub open spec fn fields_view(v: Seq<Field>) -> Seq<(Seq<char>, ValueModel)> {
    v.map_values(|f: Field| f@)
}

/// What a record is: its kind and its entries in the order they were added.
pub struct RecordModel {
    pub kind: RecordKind,
    pub entries: Seq<(Seq<char>, ValueModel)>,
}

/// The value under `key`: the one added last wins, as in a map.
pub open spec fn lookup(entries: Seq<(Seq<char>, ValueModel)>, key: Seq<char>) -> Option<ValueModel>
    decreases entries.len(),
{
    if entries.len() == 0 {
        None
    } else if entries.last().0 == key {
        Some(entries.last().1)
    } else {
        lookup(entries.drop_last(), key)
    }
}

/// No key appears twice.
pub open spec fn unique_keys(entries: Seq<(Seq<char>, ValueModel)>) -> bool {
    forall|i: int, j: int|
        0 <= i < j < entries.len() ==> (#[trigger] entries[i]).0 != (#[trigger] entries[j]).0
}

/// The index of the entry under `key`, looking from index `i` on.
pub open spec fn key_index(entries: Seq<(Seq<char>, ValueModel)>, key: Seq<char>, i: int) -> Option<
    int,
>
    decreases entries.len() - i,
{
    if i < 0 || i >= entries.len() {
        None
    } else if entries[i].0 == key {
        Some(i)
    } else {
        key_index(entries, key, i + 1)
    }
}

/// Setting `key` to `v`: its entry is replaced where it stands, or added at the end.
pub open spec fn put(entries: Seq<(Seq<char>, ValueModel)>, key: Seq<char>, v: ValueModel) -> Seq<
    (Seq<char>, ValueModel),
> {
    match key_index(entries, key, 0) {
        Some(i) => entries.update(i, (key, v)),
        None => entries.push((key, v)),
    }
}

/// Setting each entry of `s` in turn, starting from no entries.
pub open spec fn puts(s: Seq<(Seq<char>, ValueModel)>) -> Seq<(Seq<char>, ValueModel)>
    decreases s.len(),
{
    if s.len() == 0 {
        s
    } else {
        put(puts(s.drop_last()), s.last().0, s.last().1)
    }
}

proof fn lemma_key_index(entries: Seq<(Seq<char>, ValueModel)>, key: Seq<char>, i: int)
    requires
        0 <= i,
    ensures
        key_index(entries, key, i) matches Some(k) ==> i <= k < entries.len() && entries[k].0
            == key,
        key_index(entries, key, i) is None ==> forall|k: int|
            i <= k < entries.len() ==> (#[trigger] entries[k]).0 != key,
    decreases entries.len() - i,
{
    if i < entries.len() && entries[i].0 != key {
        lemma_key_index(entries, key, i + 1);
    }
}

pub proof fn lemma_put_unique(entries: Seq<(Seq<char>, ValueModel)>, key: Seq<char>, v: ValueModel)
    requires
        unique_keys(entries),
    ensures
        unique_keys(put(entries, key, v)),
{
    lemma_key_index(entries, key, 0);
    let r = put(entries, key, v);
    assert forall|i: int, j: int| 0 <= i < j < r.len() implies (#[trigger] r[i]).0 != (
    #[trigger] r[j]).0 by {
        if key_index(entries, key, 0) is None && j == entries.len() {
            assert(entries[i].0 != key);
        } else {
            assert(entries[i].0 != entries[j].0);
        }
    }
}

/// With unique keys, the value under a key is the one of its entry.
pub proof fn lemma_lookup_unique(entries: Seq<(Seq<char>, ValueModel)>, key: Seq<char>)
    requires
        unique_keys(entries),
    ensures
        key_index(entries, key, 0) matches Some(k) ==> lookup(entries, key) == Some(entries[k].1),
        key_index(entries, key, 0) is None ==> lookup(entries, key) is None,
    decreases entries.len(),
{
    lemma_key_index(entries, key, 0);
    if entries.len() > 0 {
        let d = entries.drop_last();
        assert(unique_keys(d)) by {
            assert forall|i: int, j: int| 0 <= i < j < d.len() implies (#[trigger] d[i]).0 != (
            #[trigger] d[j]).0 by {
                assert(d[i] == entries[i] && d[j] == entries[j]);
            }
        }
        lemma_lookup_unique(d, key);
        lemma_key_index(d, key, 0);
        if entries.last().0 != key {
            if let Some(k) = key_index(entries, key, 0) {
                assert(k < d.len());
                assert(d[k] == entries[k]);
                if let Some(k2) = key_index(d, key, 0) {
                    assert(d[k2] == entries[k2]);
                    if k2 != k {
                        assert(entries[k].0 == entries[k2].0);
                    }
                }
            } else {
                assert forall|k: int| 0 <= k < d.len() implies (#[trigger] d[k]).0 != key by {
                    assert(d[k] == entries[k]);
                }
            }
        } else {
            let n = entries.len() - 1;
            if let Some(k) = key_index(entries, key, 0) {
                if k != n {
                    assert(entries[k].0 == entries[n].0);
                }
            }
        }
    }
}

pub proof fn lemma_puts_unique(s: Seq<(Seq<char>, ValueModel)>)
    ensures
        unique_keys(puts(s)),
    decreases s.len(),
{
    if s.len() > 0 {
        lemma_puts_unique(s.drop_last());
        lemma_put_unique(puts(s.drop_last()), s.last().0, s.last().1);
    }
}

/// Setting entries whose keys are already unique gives them back unchanged.
pub proof fn lemma_puts_distinct(s: Seq<(Seq<char>, ValueModel)>)
    requires
        unique_keys(s),
    ensures
        puts(s) == s,
    decreases s.len(),
{
    if s.len() > 0 {
        let d = s.drop_last();
        assert(unique_keys(d)) by {
            assert forall|i: int, j: int| 0 <= i < j < d.len() implies (#[trigger] d[i]).0 != (
            #[trigger] d[j]).0 by {
                assert(d[i] == s[i] && d[j] == s[j]);
            }
        }
        lemma_puts_distinct(d);
        lemma_key_index(d, s.last().0, 0);
        if let Some(k) = key_index(d, s.last().0, 0) {
            assert(d[k] == s[k]);
            assert(s[k].0 == s[s.len() - 1].0);
        }
        assert(d.push(s.last()) =~= s);
    }
}

/// A parsed action call. The discriminator is always present and is one of
/// the two kinds; the other fields map names to typed values, each name once.
#[derive(Debug, PartialEq)]
pub struct ActionRecord {
    kind: RecordKind,
    fields: Vec<Field>,
}

impl View for ActionRecord {
    type V = RecordModel;

    closed spec fn view(&self) -> RecordModel {
        RecordModel { kind: self.kind, entries: fields_view(self.fields@) }
    }
}

/// The string holding the characters of `lit`.
pub fn text_of(lit: &str) -> (r: String)
    ensures
        r@ == lit@,
{
    string_of(&chars_of(lit))
}

proof fn lemma_fields_view_push(v: Seq<Field>, f: Field)
    ensures
        fields_view(v.push(f)) == fields_view(v).push(f@),
{
    assert(fields_view(v.push(f)) =~= fields_view(v).push(f@));
}

impl Clone for ActionRecord {
    fn clone(&self) -> (r: ActionRecord) {
        ActionRecord::from_fields(self.kind, self.fields.clone())
    }
}

impl ActionRecord {
    #[verifier::type_invariant]
    spec fn keys_distinct(&self) -> bool {
        unique_keys(fields_view(self.fields@))
    }

    /// A record of the given kind with no fields.
    pub fn empty(kind: RecordKind) -> (r: ActionRecord)
        ensures
            r@.kind == kind,
            r@.entries == Seq::<(Seq<char>, ValueModel)>::empty(),
            unique_keys(r@.entries),
    {
        let r = ActionRecord { kind, fields: Vec::new() };
        assert(fields_view(Seq::<Field>::empty()) =~= Seq::<(Seq<char>, ValueModel)>::empty());
        r
    }

    /// A record built by setting the given fields in order; a later field
    /// replaces an earlier one under the same key.
    pub fn from_fields(kind: RecordKind, fields: Vec<Field>) -> (r: ActionRecord)
        ensures
            r@.kind == kind,
            r@.entries == puts(fields_view(fields@)),
            unique_keys(r@.entries),
    {
        let mut r = ActionRecord::empty(kind);
        let mut rest = fields;
        let ghost all = fields_view(rest@);
        assert(all.subrange(0, 0) =~= Seq::<(Seq<char>, ValueModel)>::empty());
        let mut i: usize = 0;
        let n = rest.len();
        while i < n
            invariant
                i <= n == all.len(),
                rest@.len() == n - i,
                forall|k: int| 0 <= k < n - i ==> (#[trigger] rest@[k])@ == all[i + k],
                r@.kind == kind,
                r@.entries == puts(all.subrange(0, i as int)),
            decreases n - i,
        {
            let ghost before = rest@;
            let f = rest.remove(0);
            assert(f@ == all[i as int]);
            assert forall|k: int| 0 <= k < n - i - 1 implies (#[trigger] rest@[k])@ == all[i + 1 + k] by {
                assert(rest@[k] == before[k + 1]);
            }
            let ghost next = all.subrange(0, i + 1);
            assert(next.drop_last() =~= all.subrange(0, i as int));
            r.insert(f.key, f.value);
            i = i + 1;
        }
        assert(all.subrange(0, n as int) =~= all);
        proof {
            use_type_invariant(&r);
        }
        r
    }

    pub fn kind(&self) -> (r: RecordKind)
        ensures
            r == self@.kind,
    {
        self.kind
    }

    /// The discriminator as text: `do` or `finish`.
    pub fn discriminator(&self) -> (r: &'static str)
        ensures
            self@.kind == RecordKind::Do ==> r@ == "do"@,
            self@.kind == RecordKind::Finish ==> r@ == "finish"@,
    {
        match self.kind {
            RecordKind::Do => "do",
            RecordKind::Finish => "finish",
        }
    }

    /// The fields in the order they were added.
    pub fn fields(&self) -> (r: &Vec<Field>)
        ensures
            fields_view(r@) == self@.entries,
    {
        &self.fields
    }

    /// Sets `key` to `value`, replacing the value it had.
    pub fn insert(&mut self, key: String, value: ActionValue)
        ensures
            final(self)@.kind == old(self)@.kind,
            final(self)@.entries == put(old(self)@.entries, key@, value@),
            unique_keys(final(self)@.entries),
    {
        proof {
            use_type_invariant(&*self);
        }
        let ghost old_entries = fields_view(self.fields@);
        let mut fields: Vec<Field> = Vec::new();
        std::mem::swap(&mut fields, &mut self.fields);
        let k = chars_of(key.as_str());
        let mut i: usize = 0;
        while i < fields.len()
            invariant
                i <= fields@.len(),
                fields_view(fields@) == old_entries,
                unique_keys(old_entries),
                old_entries == old(self)@.entries,
                self.kind == old(self).kind,
                k@ == key@,
                key_index(old_entries, key@, 0) == key_index(old_entries, key@, i as int),
            decreases fields@.len() - i,
        {
            if eq_chars(&chars_of(fields[i].key.as_str()), &k) {
                assert(old_entries[i as int].0 == key@);
                let f = Field { key, value };
                fields.set(i, f);
                assert(fields_view(fields@) =~= old_entries.update(i as int, (key@, value@)));
                proof {
                    lemma_put_unique(old_entries, key@, value@);
                }
                self.fields = fields;
                return;
            }
            i = i + 1;
        }
        let f = Field { key, value };
        proof {
            lemma_fields_view_push(fields@, f);
            lemma_put_unique(old_entries, key@, value@);
        }
        fields.push(f);
        self.fields = fields;
    }

    /// The value under `key`.
    pub fn get(&self, key: &str) -> (r: Option<&ActionValue>)
        ensures
            r matches Some(v) ==> lookup(self@.entries, key@) == Some(v@),
            r is None ==> lookup(self@.entries, key@) is None,
    {
        let k = chars_of(key);
        let mut i: usize = self.fields.len();
        assert(fields_view(self.fields@).subrange(0, i as int) =~= fields_view(self.fields@));
        while i > 0
            invariant
                i <= self.fields@.len(),
                k@ == key@,
                lookup(self@.entries, key@) == lookup(fields_view(self.fields@).subrange(0, i as int), key@),
            decreases i,
        {
            let ghost pre = fields_view(self.fields@).subrange(0, i as int);
            assert(pre.drop_last() =~= fields_view(self.fields@).subrange(0, i - 1));
            let fk = chars_of(self.fields[i - 1].key.as_str());
            if crate::text::starts_with_exec(&fk, &k) && fk.len() == k.len() {
                assert(fk@ =~= k@);
                return Some(&self.fields[i - 1].value);
            }
            proof {
                if fk@ == k@ {
                    assert(fk@.subrange(0, k@.len() as int) =~= fk@);
                }
            }
            i = i - 1;
        }
        None
    }

    /// The text under `key`, if that value is text.
    pub fn get_str(&self, key: &str) -> (r: Option<&str>)
        ensures
            r matches Some(s) ==> lookup(self@.entries, key@) == Some(ValueModel::Text(s@)),
            r is None ==> !(lookup(self@.entries, key@) matches Some(ValueModel::Text(_))),
    {
        match self.get(key) {
            Some(ActionValue::Text(s)) => Some(s.as_str()),
            _ => None,
        }
    }
}

/// A `do` record for the named action.
pub fn do_action(action_name: &str) -> (r: ActionRecord)
    ensures
        r@.kind == RecordKind::Do,
        r@.entries == seq![("action"@, ValueModel::Text(action_name@))],
{
    let mut r = ActionRecord::empty(RecordKind::Do);
    r.insert(text_of("action"), ActionValue::Text(text_of(action_name)));
    assert(r@.entries =~= seq![("action"@, ValueModel::Text(action_name@))]);
    r
}

/// A `finish` record, with the message if one is given.
pub fn finish_action(message: Option<&str>) -> (r: ActionRecord)
    ensures
        r@.kind == RecordKind::Finish,
        message matches Some(m) ==> r@.entries == seq![("message"@, ValueModel::Text(m@))],
        message is None ==> r@.entries.len() == 0,
{
    let mut r = ActionRecord::empty(RecordKind::Finish);
    if let Some(m) = message {
        r.insert(text_of("message"), ActionValue::Text(text_of(m)));
        assert(r@.entries =~= seq![("message"@, ValueModel::Text(m@))]);
    }
    r
}

/// The decimal digit for `d` below ten.
pub open spec fn digit_char(d: int) -> char {
    seq!['0', '1', '2', '3', '4', '5', '6', '7', '8', '9'][d]
}

/// The decimal digits of a natural number.
pub open spec fn nat_text(n: nat) -> Seq<char>
    decreases n,
{
    if n < 10 {
        seq![digit_char(n as int)]
    } else {
        nat_text(n / 10) + seq![digit_char((n % 10) as int)]
    }
}

/// An integer in decimal, with a minus sign when negative.
pub open spec fn int_text(n: int) -> Seq<char> {
    if n < 0 {
        seq!['-'] + nat_text((-n) as nat)
    } else {
        nat_text(n as nat)
    }
}

pub open spec fn quoted(s: Seq<char>) -> Seq<char> {
    seq!['"'] + s + seq!['"']
}

pub open spec fn item_text(i: ItemModel) -> Seq<char> {
    match i {
        ItemModel::Int(n) => int_text(n),
        ItemModel::Decimal(s) => s,
        ItemModel::Text(s) => quoted(s),
    }
}

/// The elements of a list, written with commas between them.
pub open spec fn items_text(items: Seq<ItemModel>) -> Seq<char>
    decreases items.len(),
{
    if items.len() == 0 {
        Seq::empty()
    } else if items.len() == 1 {
        item_text(items[0])
    } else {
        items_text(items.drop_last()) + seq![','] + item_text(items.last())
    }
}

/// A value written as call syntax.
pub open spec fn value_text(v: ValueModel) -> Seq<char> {
    match v {
        ValueModel::Text(s) => quoted(s),
        ValueModel::Int(n) => int_text(n),
        ValueModel::Decimal(s) => s,
        ValueModel::Bool(b) => if b {
            seq!['t', 'r', 'u', 'e']
        } else {
            seq!['f', 'a', 'l', 's', 'e']
        },
        ValueModel::List(items) => seq!['['] + items_text(items) + seq![']'],
    }
}

/// The arguments of a call: `key=value` pairs with `, ` between them.
pub open spec fn args_text(entries: Seq<(Seq<char>, ValueModel)>) -> Seq<char>
    decreases entries.len(),
{
    if entries.len() == 0 {
        Seq::empty()
    } else {
        let e = entries.last();
        let pair = e.0 + seq!['='] + value_text(e.1);
        if entries.len() == 1 {
            pair
        } else {
            args_text(entries.drop_last()) + seq![',', ' '] + pair
        }
    }
}

/// A record written back as an action call.
pub open spec fn call_text(r: RecordModel) -> Seq<char> {
    if r.kind == RecordKind::Do {
        "do("@ + args_text(r.entries) + ")"@
    } else {
        "finish("@ + args_text(r.entries) + ")"@
    }
}

fn digit_exec(d: u64) -> (c: char)
    requires
        d < 10,
    ensures
        c == digit_char(d as int),
{
    match d {
        0 => '0',
        1 => '1',
        2 => '2',
        3 => '3',
        4 => '4',
        5 => '5',
        6 => '6',
        7 => '7',
        8 => '8',
        _ => '9',
    }
}

fn nat_text_exec(n: u64) -> (r: Vec<char>)
    ensures
        r@ == nat_text(n as nat),
    decreases n,
{
    if n < 10 {
        let mut v: Vec<char> = Vec::new();
        v.push(digit_exec(n));
        v
    } else {
        let mut v = nat_text_exec(n / 10);
        v.push(digit_exec(n % 10));
        v
    }
}

fn int_text_exec(n: i64) -> (r: Vec<char>)
    ensures
        r@ == int_text(n as int),
{
    if n < 0 {
        let m: u64 = if n == i64::MIN {
            9223372036854775808u64
        } else {
            (-n) as u64
        };
        let mut v: Vec<char> = Vec::new();
        v.push('-');
        let d = nat_text_exec(m);
        concat_chars(&v, &d)
    } else {
        nat_text_exec(n as u64)
    }
}

fn quoted_exec(s: &String) -> (r: Vec<char>)
    ensures
        r@ == quoted(s@),
{
    let mut q: Vec<char> = Vec::new();
    q.push('"');
    let a = concat_chars(&q, &chars_of(s.as_str()));
    let r = concat_chars(&a, &q);
    assert(q@ =~= seq!['"']);
    r
}

fn item_text_exec(i: &ListItem) -> (r: Vec<char>)
    ensures
        r@ == item_text(i@),
{
    match i {
        ListItem::Int(n) => int_text_exec(*n),
        ListItem::Decimal(s) => chars_of(s.as_str()),
        ListItem::Text(s) => quoted_exec(s),
    }
}

fn value_text_exec(v: &ActionValue) -> (r: Vec<char>)
    ensures
        r@ == value_text(v@),
{
    match v {
        ActionValue::Text(s) => quoted_exec(s),
        ActionValue::Int(n) => int_text_exec(*n),
        ActionValue::Decimal(s) => chars_of(s.as_str()),
        ActionValue::Bool(b) => {
            let r = if *b {
                vec!['t', 'r', 'u', 'e']
            } else {
                vec!['f', 'a', 'l', 's', 'e']
            };
            assert(r@ =~= value_text(v@));
            r
        },
        ActionValue::List(items) => {
            let mut out: Vec<char> = Vec::new();
            out.push('[');
            let mut i: usize = 0;
            while i < items.len()
                invariant
                    i <= items@.len(),
                    out@ == seq!['['] + items_text(
                        crate::value::items_view(items@).subrange(0, i as int),
                    ),
                decreases items@.len() - i,
            {
                let ghost pre = crate::value::items_view(items@).subrange(0, i as int);
                let ghost next = crate::value::items_view(items@).subrange(0, i + 1);
                assert(next.drop_last() =~= pre);
                let t = item_text_exec(&items[i]);
                if i > 0 {
                    let mut comma: Vec<char> = Vec::new();
                    comma.push(',');
                    let with_comma = concat_chars(&out, &comma);
                    out = concat_chars(&with_comma, &t);
                    assert(out@ =~= seq!['['] + items_text(next));
                } else {
                    out = concat_chars(&out, &t);
                    assert(out@ =~= seq!['['] + items_text(next));
                }
                i = i + 1;
            }
            assert(crate::value::items_view(items@).subrange(0, items@.len() as int)
                =~= crate::value::items_view(items@));
            let mut close: Vec<char> = Vec::new();
            close.push(']');
            let r = concat_chars(&out, &close);
            assert(r@ =~= value_text(v@));
            r
        },
    }
}

impl ActionRecord {
    /// The record written back as an action call, such as
    /// `do(action="Tap", element=[500,300])`.
    pub fn to_call_text(&self) -> (r: String)
        ensures
            r@ == call_text(self@),
    {
        let mut out = match self.kind {
            RecordKind::Do => chars_of("do("),
            RecordKind::Finish => chars_of("finish("),
        };
        let ghost head = out@;
        let mut i: usize = 0;
        assert(args_text(fields_view(self.fields@).subrange(0, 0)) =~= Seq::<char>::empty());
        assert(out@ =~= head + Seq::<char>::empty());
        while i < self.fields.len()
            invariant
                i <= self.fields@.len(),
                out@ == head + args_text(fields_view(self.fields@).subrange(0, i as int)),
            decreases self.fields@.len() - i,
        {
            let ghost pre = fields_view(self.fields@).subrange(0, i as int);
            let ghost next = fields_view(self.fields@).subrange(0, i + 1);
            assert(next.drop_last() =~= pre);
            let f = &self.fields[i];
            let mut eq: Vec<char> = Vec::new();
            eq.push('=');
            let k = concat_chars(&chars_of(f.key.as_str()), &eq);
            let pair = concat_chars(&k, &value_text_exec(&f.value));
            if i > 0 {
                let mut sep: Vec<char> = Vec::new();
                sep.push(',');
                sep.push(' ');
                let with_sep = concat_chars(&out, &sep);
                out = concat_chars(&with_sep, &pair);
                assert(out@ =~= head + args_text(next));
            } else {
                out = concat_chars(&out, &pair);
                assert(out@ =~= head + args_text(next));
            }
            i = i + 1;
        }
        assert(fields_view(self.fields@).subrange(0, self.fields@.len() as int) =~= fields_view(
            self.fields@,
        ));
        let close = chars_of(")");
        string_of(&concat_chars(&out, &close))
    }
}

fn eq_chars(s: &Vec<char>, w: &Vec<char>) -> (r: bool)
    ensures
        r == (s@ == w@),
{
    if s.len() != w.len() {
        return false;
    }
    let r = occurs_at_exec(s, w, 0);
    assert(s@.subrange(0, s@.len() as int) =~= s@);
    r
}

} // verus!
