//! Splitting a model's streamed output into its reasoning and its action call.
use vstd::prelude::*;
use crate::text::{
    chars_of, ends_with, ends_with_exec, find, find_exec, lemma_find_from_bounds, occurs_at,
    replace_all, slice, string_of, trim, trim_exec,
};
use crate::value::replace_all_exec;

verus! {

/// The marker that starts a `finish` call.
pub open spec fn finish_marker() -> Seq<char> {
    "finish(message="@
}

/// The marker that starts a `do` call.
pub open spec fn do_marker() -> Seq<char> {
    "do(action="@
}

/// The earlier of two optional positions.
pub open spec fn earliest(a: Option<int>, b: Option<int>) -> Option<int> {
    match (a, b) {
        (Some(x), Some(y)) => if x <= y {
            Some(x)
        } else {
            Some(y)
        },
        (Some(x), None) => Some(x),
        (None, y) => y,
    }
}

/// Where the first action marker of either kind starts in `s`.
pub open spec fn marker_pos(s: Seq<char>) -> Option<int> {
    earliest(find(s, finish_marker()), find(s, do_marker()))
}

/// `s` with every occurrence of `p` removed.
pub open spec fn remove_all(s: Seq<char>, p: Seq<char>) -> Seq<char> {
    replace_all(s, p, Seq::empty())
}

/// The reasoning and the action text of a complete model output.
///
/// Text before the first action marker is reasoning (trimmed), the marker
/// onward is the action. Without a marker, an `<answer>` envelope is read;
/// without that, the whole text is the action.
pub open spec fn split_output(s: Seq<char>) -> (Seq<char>, Seq<char>) {
    match marker_pos(s) {
        Some(p) => (trim(s.subrange(0, p)), s.subrange(p, s.len() as int)),
        None => match find(s, "<answer>"@) {
            Some(i) => (
                trim(remove_all(remove_all(s.subrange(0, i), "<think>"@), "</think>"@)),
                trim(remove_all(s.subrange(i + "<answer>"@.len(), s.len() as int), "</answer>"@)),
            ),
            None => (Seq::empty(), s),
        },
    }
}

/// The reasoning and the action text of a model output.
pub struct SplitResult {
    pub thinking: String,
    pub action: String,
}

fn marker_pos_exec(s: &Vec<char>) -> (r: Option<usize>)
    ensures
        r matches Some(p) ==> marker_pos(s@) == Some(p as int),
        r is None ==> marker_pos(s@) is None,
{
    let f = chars_of("finish(message=");
    let d = chars_of("do(action=");
    let a = find_exec(s, &f);
    let b = find_exec(s, &d);
    match (a, b) {
        (Some(x), Some(y)) => if x <= y {
            Some(x)
        } else {
            Some(y)
        },
        (Some(x), None) => Some(x),
        (None, y) => y,
    }
}

/// `s` with every occurrence of the literal `p` removed.
pub fn remove_all_exec(s: &Vec<char>, p: &str) -> (r: Vec<char>)
    requires
        p@.len() > 0,
    ensures
        r@ == remove_all(s@, p@),
{
    let pc = chars_of(p);
    let none: Vec<char> = Vec::new();
    assert(none@ =~= Seq::<char>::empty());
    replace_all_exec(s, &pc, &none)
}

/// Splits a complete model output into reasoning and action text.
pub fn split_output_exec(content: &Vec<char>) -> (r: SplitResult)
    ensures
        (r.thinking@, r.action@) == split_output(content@),
{
    let n = content.len();
    if let Some(p) = marker_pos_exec(content) {
        proof {
            crate::text::lemma_find_from_bounds(content@, finish_marker(), 0);
            crate::text::lemma_find_from_bounds(content@, do_marker(), 0);
        }
        let before = slice(content, 0, p);
        let thinking = trim_exec(&before);
        let action = slice(content, p, n);
        return SplitResult { thinking: string_of(&thinking), action: string_of(&action) };
    }
    let open = chars_of("<answer>");
    if let Some(i) = find_exec(content, &open) {
        proof {
            crate::text::lemma_find_from_bounds(content@, open@, 0);
            reveal_strlit("<think>");
            reveal_strlit("</think>");
            reveal_strlit("</answer>");
        }
        let ol = open.len();
        assert(i + ol <= n);
        let before = slice(content, 0, i);
        let a = remove_all_exec(&before, "<think>");
        let b = remove_all_exec(&a, "</think>");
        let thinking = trim_exec(&b);
        let after = slice(content, i + ol, n);
        let c = remove_all_exec(&after, "</answer>");
        let action = trim_exec(&c);
        return SplitResult { thinking: string_of(&thinking), action: string_of(&action) };
    }
    SplitResult { thinking: String::new(), action: string_of(content) }
}

/// Splits a complete model output into reasoning and action text.
pub fn parse_response(content: &str) -> (r: SplitResult)
    ensures
        (r.thinking@, r.action@) == split_output(content@),
{
    split_output_exec(&chars_of(content))
}

/// `m` and `s[q..]` agree on every index that both have.
pub open spec fn agrees(s: Seq<char>, q: int, m: Seq<char>) -> bool {
    forall|k: int| 0 <= k < m.len() && q + k < s.len() ==> s[q + k] == m[k]
}

/// No marker can start inside `s`, whatever text follows it.
pub open spec fn clean(s: Seq<char>) -> bool {
    forall|q: int|
        0 <= q < s.len() ==> !agrees(s, q, finish_marker()) && !agrees(s, q, do_marker())
}

/// `s` ends with a proper prefix of `m`, which the next text may complete.
pub open spec fn ends_with_part_of(s: Seq<char>, m: Seq<char>) -> bool {
    exists|i: int| 1 <= i < m.len() && ends_with(s, #[trigger] m.subrange(0, i))
}

/// The text ends with what may be the start of either marker.
pub open spec fn pending_marker_start(s: Seq<char>) -> bool {
    ends_with_part_of(s, finish_marker()) || ends_with_part_of(s, do_marker())
}

proof fn lemma_pending_extends(a: Seq<char>, b: Seq<char>)
    requires
        pending_marker_start(b),
    ensures
        pending_marker_start(a + b),
{
    let ab = a + b;
    if ends_with_part_of(b, finish_marker()) {
        let i = choose|i: int| 1 <= i < finish_marker().len() && ends_with(
            b,
            #[trigger] finish_marker().subrange(0, i),
        );
        assert(ab.subrange(ab.len() - i, ab.len() as int) =~= b.subrange(b.len() - i, b.len() as int));
        assert(ends_with(ab, finish_marker().subrange(0, i)));
    } else {
        let i = choose|i: int| 1 <= i < do_marker().len() && ends_with(
            b,
            #[trigger] do_marker().subrange(0, i),
        );
        assert(ab.subrange(ab.len() - i, ab.len() as int) =~= b.subrange(b.len() - i, b.len() as int));
        assert(ends_with(ab, do_marker().subrange(0, i)));
    }
}

/// `p` does not occur in `s`.
pub open spec fn absent(s: Seq<char>, p: Seq<char>) -> bool {
    forall|q: int| !occurs_at(s, p, q)
}

proof fn lemma_find_is(s: Seq<char>, p: Seq<char>, i: int)
    requires
        occurs_at(s, p, i),
        forall|q: int| 0 <= q < i ==> !occurs_at(s, p, q),
    ensures
        find(s, p) == Some(i),
{
    lemma_find_from_bounds(s, p, 0);
}

proof fn lemma_find_none(s: Seq<char>, p: Seq<char>)
    requires
        absent(s, p),
    ensures
        find(s, p) is None,
{
    lemma_find_from_bounds(s, p, 0);
}

/// Occurrences in `a + b` that start at or after `a.len()` are those of `b`, shifted.
proof fn lemma_occurs_shift(a: Seq<char>, b: Seq<char>, p: Seq<char>, q: int)
    requires
        q >= a.len(),
    ensures
        occurs_at(a + b, p, q) == occurs_at(b, p, q - a.len()),
{
    if occurs_at(a + b, p, q) {
        assert((a + b).subrange(q, q + p.len()) =~= b.subrange(q - a.len(), q - a.len() + p.len()));
    }
    if occurs_at(b, p, q - a.len()) {
        assert((a + b).subrange(q, q + p.len()) =~= b.subrange(q - a.len(), q - a.len() + p.len()));
    }
}

/// An occurrence in `a + t` that starts inside `a` agrees with `a` there.
proof fn lemma_occurs_agrees(a: Seq<char>, t: Seq<char>, p: Seq<char>, q: int)
    requires
        0 <= q < a.len(),
        occurs_at(a + t, p, q),
    ensures
        agrees(a, q, p),
{
    assert forall|k: int| 0 <= k < p.len() && q + k < a.len() implies a[q + k] == p[k] by {
        assert((a + t).subrange(q, q + p.len())[k] == (a + t)[q + k]);
    }
}

/// After a clean prefix, the first occurrence of a marker is the one in the rest, shifted.
proof fn lemma_find_after_clean(a: Seq<char>, b: Seq<char>, m: Seq<char>)
    requires
        clean(a),
        m == finish_marker() || m == do_marker(),
    ensures
        find(a + b, m) == (match find(b, m) {
            Some(j) => Some(j + a.len()),
            None => None::<int>,
        }),
{
    lemma_find_from_bounds(b, m, 0);
    assert forall|q: int| 0 <= q < a.len() implies !occurs_at(a + b, m, q) by {
        if occurs_at(a + b, m, q) {
            lemma_occurs_agrees(a, b, m, q);
        }
    }
    match find(b, m) {
        Some(j) => {
            lemma_occurs_shift(a, b, m, j + a.len());
            assert forall|q: int| 0 <= q < j + a.len() implies !occurs_at(a + b, m, q) by {
                if q >= a.len() {
                    lemma_occurs_shift(a, b, m, q);
                }
            }
            lemma_find_is(a + b, m, j + a.len());
        },
        None => {
            assert forall|q: int| !occurs_at(a + b, m, q) by {
                if q >= a.len() {
                    lemma_occurs_shift(a, b, m, q);
                }
            }
            lemma_find_none(a + b, m);
        },
    }
}

proof fn lemma_marker_pos_after_clean(a: Seq<char>, b: Seq<char>)
    requires
        clean(a),
    ensures
        marker_pos(a + b) == (match marker_pos(b) {
            Some(j) => Some(j + a.len()),
            None => None::<int>,
        }),
{
    lemma_find_after_clean(a, b, finish_marker());
    lemma_find_after_clean(a, b, do_marker());
}

/// Text with no marker and no unfinished marker at its end keeps a clean prefix clean.
proof fn lemma_clean_extend(a: Seq<char>, b: Seq<char>)
    requires
        clean(a),
        marker_pos(b) is None,
        !ends_with_part_of(b, finish_marker()),
        !ends_with_part_of(b, do_marker()),
    ensures
        clean(a + b),
{
    lemma_find_from_bounds(b, finish_marker(), 0);
    lemma_find_from_bounds(b, do_marker(), 0);
    let s = a + b;
    assert forall|q: int| 0 <= q < s.len() implies !agrees(s, q, finish_marker()) && !agrees(
        s,
        q,
        do_marker(),
    ) by {
        lemma_agree_part(a, b, q, finish_marker());
        lemma_agree_part(a, b, q, do_marker());
    }
}

proof fn lemma_agree_part(a: Seq<char>, b: Seq<char>, q: int, m: Seq<char>)
    requires
        clean(a),
        m == finish_marker() || m == do_marker(),
        0 <= q < a.len() + b.len(),
        find(b, m) is None,
        forall|k: int| 0 <= k ==> !occurs_at(b, m, k),
        !ends_with_part_of(b, m),
    ensures
        !agrees(a + b, q, m),
{
    let s = a + b;
    if agrees(s, q, m) {
        if q < a.len() {
            assert(agrees(a, q, m)) by {
                assert forall|k: int| 0 <= k < m.len() && q + k < a.len() implies a[q + k]
                    == m[k] by {
                    assert(s[q + k] == a[q + k]);
                }
            }
        } else {
            let r = q - a.len();
            let l = b.len() - r;
            if l >= m.len() {
                assert(b.subrange(r, r + m.len()) =~= m) by {
                    assert forall|k: int| 0 <= k < m.len() implies b.subrange(r, r + m.len())[k]
                        == m[k] by {
                        assert(s[q + k] == b[r + k]);
                    }
                }
                assert(occurs_at(b, m, r));
            } else {
                assert(b.subrange(b.len() - l, b.len() as int) =~= m.subrange(0, l)) by {
                    assert forall|k: int| 0 <= k < l implies b.subrange(
                        b.len() - l,
                        b.len() as int,
                    )[k] == m.subrange(0, l)[k] by {
                        assert(s[q + k] == b[r + k]);
                    }
                }
                assert(ends_with(b, m.subrange(0, l)));
            }
        }
    }
}

/// A marker found in `s` stays the first one when text is appended.
proof fn lemma_marker_pos_stable(s: Seq<char>, t: Seq<char>)
    requires
        marker_pos(s) is Some,
    ensures
        marker_pos(s + t) == marker_pos(s),
{
    reveal_strlit("finish(message=");
    reveal_strlit("do(action=");
    let f = finish_marker();
    let d = do_marker();
    lemma_find_from_bounds(s, f, 0);
    lemma_find_from_bounds(s, d, 0);
    let p = marker_pos(s)->0;
    let m0 = if find(s, f) == Some(p) {
        f
    } else {
        d
    };
    assert(occurs_at(s, m0, p));
    assert forall|q: int, m: Seq<char>| 0 <= q < p && (m == f || m == d) implies !occurs_at(
        s + t,
        m,
        q,
    ) by {
        if occurs_at(s + t, m, q) {
            if q + m.len() <= s.len() {
                assert((s + t).subrange(q, q + m.len()) =~= s.subrange(q, q + m.len()));
                assert(occurs_at(s, m, q));
            } else {
                // The other marker would have to hold a `d` or an `f` at an inner position.
                assert(m == f && m0 == d);
                assert((s + t)[p] == s[p]);
                assert(s.subrange(p, p + m0.len())[0] == s[p]);
                assert((s + t).subrange(q, q + m.len())[p - q] == (s + t)[p]);
                assert(f[p - q] == 'd');
            }
        }
    }
    assert(occurs_at(s + t, m0, p)) by {
        assert((s + t).subrange(p, p + m0.len()) =~= s.subrange(p, p + m0.len()));
    }
    lemma_find_from_bounds(s + t, f, 0);
    lemma_find_from_bounds(s + t, d, 0);
    if find(s, f) == Some(p) {
        lemma_find_is(s + t, f, p);
    } else {
        lemma_find_is(s + t, d, p);
    }
    if let Some(x) = find(s + t, f) {
        if x < p {
            assert(!occurs_at(s + t, f, x));
        }
    }
    if let Some(x) = find(s + t, d) {
        if x < p {
            assert(!occurs_at(s + t, d, x));
        }
    }
}

/// Splits an output that arrives in fragments.
///
/// Reasoning text is handed back as soon as it is known not to begin a
/// marker; a tail that may be the start of a marker is held back until the
/// next fragment decides it. From the first marker on, nothing more is handed
/// back, and the complete output is split by `split_output`.
pub struct StreamSplitter {
    raw: Vec<char>,
    buffer: Vec<char>,
    in_action: bool,
    shown: Ghost<Seq<char>>,
}

impl StreamSplitter {
    /// Everything received so far.
    pub closed spec fn raw(&self) -> Seq<char> {
        self.raw@
    }

    /// Everything handed back as reasoning so far.
    pub closed spec fn shown(&self) -> Seq<char> {
        self.shown@
    }

    /// Whether a marker has been seen.
    pub closed spec fn in_action(&self) -> bool {
        self.in_action
    }

    pub closed spec fn wf(&self) -> bool {
        &&& !self.in_action ==> {
            &&& self.shown@ + self.buffer@ == self.raw@
            &&& clean(self.shown@)
            &&& marker_pos(self.buffer@) is None
            &&& self.buffer@.len() == 0 || pending_marker_start(self.buffer@)
        }
        &&& self.in_action ==> marker_pos(self.raw@) == Some(self.shown@.len() as int)
            && self.shown@ == self.raw@.subrange(0, self.shown@.len() as int)
        &&& !self.in_action <==> marker_pos(self.raw@) is None
    }

    pub fn new() -> (r: StreamSplitter)
        ensures
            r.wf(),
            r.raw() == Seq::<char>::empty(),
            r.shown() == Seq::<char>::empty(),
            !r.in_action(),
    {
        let r = StreamSplitter {
            raw: Vec::new(),
            buffer: Vec::new(),
            in_action: false,
            shown: Ghost(Seq::empty()),
        };
        proof {
            reveal_strlit("finish(message=");
            reveal_strlit("do(action=");
            lemma_find_from_bounds(r.raw@, finish_marker(), 0);
            lemma_find_from_bounds(r.raw@, do_marker(), 0);
            assert(r.shown@ + r.buffer@ =~= r.raw@);
        }
        r
    }

    /// Takes the next fragment and returns the reasoning text that it releases.
    ///
    /// What has been released is always a prefix of what was received; with
    /// no marker seen, everything is released unless the received text ends
    /// with what may be the start of a marker.
    pub fn feed(&mut self, fragment: &str) -> (out: String)
        requires
            old(self).wf(),
        ensures
            final(self).wf(),
            final(self).raw() == old(self).raw() + fragment@,
            final(self).shown() == old(self).shown() + out@,
            old(self).in_action() ==> out@.len() == 0,
            final(self).shown().len() <= final(self).raw().len(),
            final(self).shown() == final(self).raw().subrange(0, final(self).shown().len() as int),
            !final(self).in_action() && !pending_marker_start(final(self).raw())
                ==> final(self).shown() == final(self).raw(),
    {
        let out = self.take(fragment);
        proof {
            self.lemma_released_prefix();
        }
        out
    }

    /// Released text is a prefix of the received text, and all of it when
    /// no marker has been seen and no marker start is pending.
    pub proof fn lemma_released_prefix(&self)
        requires
            self.wf(),
        ensures
            self.shown().len() <= self.raw().len(),
            self.shown() == self.raw().subrange(0, self.shown().len() as int),
            !self.in_action() && !pending_marker_start(self.raw()) ==> self.shown() == self.raw(),
    {
        if !self.in_action {
            assert(self.raw@.subrange(0, self.shown@.len() as int) =~= self.shown@);
            if self.buffer@.len() > 0 {
                lemma_pending_extends(self.shown@, self.buffer@);
            } else {
                assert(self.shown@ =~= self.raw@);
            }
        } else {
            lemma_find_from_bounds(self.raw@, finish_marker(), 0);
            lemma_find_from_bounds(self.raw@, do_marker(), 0);
        }
    }

    fn take(&mut self, fragment: &str) -> (out: String)
        requires
            old(self).wf(),
        ensures
            final(self).wf(),
            final(self).raw() == old(self).raw() + fragment@,
            final(self).shown() == old(self).shown() + out@,
            old(self).in_action() ==> out@.len() == 0,
    {
        let frag = chars_of(fragment);
        let ghost raw0 = self.raw@;
        let mut k: usize = 0;
        while k < frag.len()
            invariant
                k <= frag@.len(),
                self.raw@ == raw0 + frag@.subrange(0, k as int),
                self.buffer == old(self).buffer,
                self.in_action == old(self).in_action,
                self.shown == old(self).shown,
            decreases frag@.len() - k,
        {
            self.raw.push(frag[k]);
            k = k + 1;
            assert(self.raw@ =~= raw0 + frag@.subrange(0, k as int));
        }
        assert(frag@.subrange(0, frag@.len() as int) =~= frag@);
        if self.in_action {
            proof {
                lemma_marker_pos_stable(raw0, frag@);
                lemma_find_from_bounds(raw0, finish_marker(), 0);
                lemma_find_from_bounds(raw0, do_marker(), 0);
                assert(self.raw@.subrange(0, self.shown@.len() as int) =~= raw0.subrange(
                    0,
                    self.shown@.len() as int,
                ));
            }
            let out = String::new();
            assert(self.shown@ + out@ =~= self.shown@);
            return out;
        }
        let ghost buf0 = self.buffer@;
        let mut k: usize = 0;
        while k < frag.len()
            invariant
                k <= frag@.len(),
                self.buffer@ == buf0 + frag@.subrange(0, k as int),
                self.raw@ == raw0 + frag@,
                self.in_action == old(self).in_action,
                self.shown == old(self).shown,
            decreases frag@.len() - k,
        {
            self.buffer.push(frag[k]);
            k = k + 1;
            assert(self.buffer@ =~= buf0 + frag@.subrange(0, k as int));
        }
        assert(self.shown@ + self.buffer@ =~= self.raw@);
        proof {
            lemma_marker_pos_after_clean(self.shown@, self.buffer@);
        }
        if let Some(p) = marker_pos_exec(&self.buffer) {
            proof {
                lemma_find_from_bounds(self.buffer@, finish_marker(), 0);
                lemma_find_from_bounds(self.buffer@, do_marker(), 0);
            }
            let before = slice(&self.buffer, 0, p);
            let out = string_of(&before);
            self.in_action = true;
            self.shown = Ghost(self.shown@ + before@);
            assert(self.shown@ =~= self.raw@.subrange(0, self.shown@.len() as int));
            return out;
        }
        if self.holds_partial_marker() {
            let out = String::new();
            assert(self.shown@ + out@ =~= self.shown@);
            return out;
        }
        proof {
            lemma_clean_extend(self.shown@, self.buffer@);
        }
        let out = string_of(&self.buffer);
        self.shown = Ghost(self.shown@ + self.buffer@);
        self.buffer = Vec::new();
        proof {
            reveal_strlit("finish(message=");
            reveal_strlit("do(action=");
            assert(self.shown@ + self.buffer@ =~= self.raw@);
            lemma_find_from_bounds(self.buffer@, finish_marker(), 0);
            lemma_find_from_bounds(self.buffer@, do_marker(), 0);
        }
        out
    }

    /// Whether the held text ends with the start of a marker.
    fn holds_partial_marker(&self) -> (r: bool)
        ensures
            r == (ends_with_part_of(self.buffer@, finish_marker()) || ends_with_part_of(
                self.buffer@,
                do_marker(),
            )),
    {
        let f = chars_of("finish(message=");
        let d = chars_of("do(action=");
        ends_with_prefix_of(&self.buffer, &f) || ends_with_prefix_of(&self.buffer, &d)
    }

    /// Whether a marker has been seen, so that the action call has begun.
    pub fn marker_seen(&self) -> (r: bool)
        ensures
            r == self.in_action(),
    {
        self.in_action
    }

    /// The reasoning and action text of everything received.
    pub fn finish(&self) -> (r: SplitResult)
        ensures
            (r.thinking@, r.action@) == split_output(self.raw()),
    {
        split_output_exec(&self.raw)
    }

    /// Everything received so far.
    pub fn raw_text(&self) -> (r: String)
        ensures
            r@ == self.raw(),
    {
        string_of(&self.raw)
    }
}

/// Whether `s` ends with a proper, non-empty prefix of `m`.
fn ends_with_prefix_of(s: &Vec<char>, m: &Vec<char>) -> (r: bool)
    ensures
        r == ends_with_part_of(s@, m@),
{
    let mut i: usize = 1;
    while i < m.len()
        invariant
            1 <= i,
            forall|j: int| 1 <= j < i && j < m@.len() ==> !ends_with(s@, #[trigger] m@.subrange(0, j)),
        decreases m@.len() - i,
    {
        let part = slice(m, 0, i);
        if ends_with_exec(s, &part) {
            return true;
        }
        i = i + 1;
    }
    false
}

/// When the whole output holds a marker, the splitter has released exactly
/// the text before the first marker, however the output was cut into fragments.
pub proof fn lemma_release_stops_at_marker(sp: &StreamSplitter)
    requires
        sp.wf(),
        marker_pos(sp.raw()) is Some,
    ensures
        sp.in_action(),
        sp.shown() == sp.raw().subrange(0, marker_pos(sp.raw())->0),
        split_output(sp.raw()).0 == trim(sp.shown()),
        split_output(sp.raw()).1 == sp.raw().subrange(marker_pos(sp.raw())->0, sp.raw().len() as int),
{
}

/// The joining of a sequence of fragments.
pub open spec fn joined(frags: Seq<Seq<char>>) -> Seq<char>
    decreases frags.len(),
{
    if frags.len() == 0 {
        Seq::empty()
    } else {
        joined(frags.drop_last()) + frags.last()
    }
}

proof fn lemma_joined_chars(s: Seq<char>)
    ensures
        joined(s.map_values(|c: char| seq![c])) == s,
    decreases s.len(),
{
    let frags = s.map_values(|c: char| seq![c]);
    if s.len() > 0 {
        lemma_joined_chars(s.drop_last());
        assert(frags.drop_last() =~= s.drop_last().map_values(|c: char| seq![c]));
        assert(frags.last() == seq![s.last()]);
        assert(s =~= s.drop_last() + seq![s.last()]);
    } else {
        assert(joined(frags) =~= s);
    }
}

pub open spec fn fragment_views(frags: Seq<String>) -> Seq<Seq<char>> {
    frags.map_values(|f: String| f@)
}

/// Feeds the fragments, in order, to a new splitter and splits what it
/// received: the result depends only on the joined text, however it was cut.
pub fn split_fragments(frags: &Vec<String>) -> (r: SplitResult)
    ensures
        (r.thinking@, r.action@) == split_output(joined(fragment_views(frags@))),
{
    let mut sp = StreamSplitter::new();
    let mut i: usize = 0;
    assert(fragment_views(frags@).subrange(0, 0) =~= Seq::<Seq<char>>::empty());
    while i < frags.len()
        invariant
            i <= frags@.len(),
            sp.wf(),
            sp.raw() == joined(fragment_views(frags@).subrange(0, i as int)),
        decreases frags@.len() - i,
    {
        let ghost pre = fragment_views(frags@).subrange(0, i as int);
        let ghost next = fragment_views(frags@).subrange(0, i + 1);
        assert(next.drop_last() =~= pre);
        assert(next.last() == frags@[i as int]@);
        sp.feed(frags[i].as_str());
        i = i + 1;
    }
    assert(fragment_views(frags@).subrange(0, frags@.len() as int) =~= fragment_views(frags@));
    sp.finish()
}

/// A text cut into single characters and the same text as one fragment
/// join to that text, so `split_fragments` gives the same split for both.
pub proof fn lemma_split_ignores_fragmentation(s: Seq<char>)
    ensures
        joined(s.map_values(|c: char| seq![c])) == s,
        joined(seq![s]) == s,
{
    lemma_joined_chars(s);
    assert(joined(seq![s]) =~= s) by {
        assert(seq![s].drop_last() =~= Seq::<Seq<char>>::empty());
        assert(joined(seq![s].drop_last()) == Seq::<char>::empty());
        assert(seq![s].last() == s);
    }
}

proof fn lemma_absent_first(s: Seq<char>, m: Seq<char>, upto: int)
    requires
        m.len() > 0,
        0 <= upto <= s.len(),
        forall|q: int| 0 <= q < upto ==> s[q] != m[0],
    ensures
        forall|q: int| 0 <= q < upto ==> !occurs_at(s, m, q),
{
    assert forall|q: int| 0 <= q < upto implies !occurs_at(s, m, q) by {
        if occurs_at(s, m, q) {
            assert(s.subrange(q, q + m.len())[0] == s[q]);
        }
    }
}

/// However `"thinking text" + "do(action=" + "\"Tap\")"` is cut into
/// fragments, a splitter that received all of it has released exactly
/// `thinking text`, and the split gives that reasoning and the call
/// `do(action="Tap")`.
pub proof fn lemma_straddled_tap_call(sp: &StreamSplitter)
    requires
        sp.wf(),
        sp.raw() == "thinking text"@ + "do(action="@ + "\"Tap\")"@,
    ensures
        sp.in_action(),
        sp.shown() == "thinking text"@,
        split_output(sp.raw()) == ("thinking text"@, "do(action=\"Tap\")"@),
{
    reveal_strlit("thinking text");
    reveal_strlit("do(action=");
    reveal_strlit("\"Tap\")");
    reveal_strlit("do(action=\"Tap\")");
    reveal_strlit("finish(message=");
    let s = sp.raw();
    let f = finish_marker();
    let d = do_marker();
    assert(s.len() == 29);
    lemma_absent_first(s, f, s.len() as int);
    lemma_find_none(s, f);
    lemma_absent_first(s, d, 13);
    assert(s.subrange(13, 23) =~= d);
    lemma_find_is(s, d, 13);
    assert(marker_pos(s) == Some(13int));
    lemma_release_stops_at_marker(sp);
    assert(s.subrange(0, 13) =~= "thinking text"@);
    assert(s.subrange(13, 29) =~= "do(action=\"Tap\")"@);
    assert(crate::text::trim_start(s.subrange(0, 13)) == s.subrange(0, 13));
    assert(crate::text::trim_end(s.subrange(0, 13)) == s.subrange(0, 13));
}

} // verus!
