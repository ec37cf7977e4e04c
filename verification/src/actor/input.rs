//! Field paths of a function's input: how a path such as `/a/0/b/` is read
//! step by step, and how the paths of child fields are named.
use vstd::prelude::*;

use crate::text::{compare_text, decimal, push_char, write_decimal, KeyCmp};

verus! {

/// The parts of a text between `/` separators (`str::split('/')`).
pub open spec fn split_slash(s: Seq<char>) -> Seq<Seq<char>>
    decreases s.len(),
{
    if s.len() == 0 {
        seq![Seq::<char>::empty()]
    } else {
        let t = split_slash(s.drop_last());
        if s.last() == '/' {
            t.push(Seq::empty())
        } else {
            t.update(t.len() - 1, t.last().push(s.last()))
        }
    }
}

pub open spec fn is_digit(c: char) -> bool {
    '0' <= c && c <= '9'
}

/// The number that decimal digits stand for.
pub open spec fn digits_value(s: Seq<char>) -> nat
    decreases s.len(),
{
    if s.len() == 0 {
        0
    } else {
        digits_value(s.drop_last()) * 10 + (s.last() as nat - 48) as nat
    }
}

/// A text as `usize::from_str` reads it: an optional `+`, then one or more
/// decimal digits whose value fits a `usize`.
pub open spec fn parse_index(s: Seq<char>) -> Option<nat> {
    let body = index_body(s);
    if body.len() > 0 && all_digits(body) && digits_value(body) <= usize::MAX {
        Some(digits_value(body))
    } else {
        None
    }
}

/// A text without its leading `+`, if any.
pub open spec fn index_body(s: Seq<char>) -> Seq<char> {
    if s.len() > 0 && s[0] == '+' {
        s.drop_first()
    } else {
        s
    }
}

pub open spec fn all_digits(s: Seq<char>) -> bool {
    forall|i: int| 0 <= i < s.len() ==> is_digit(#[trigger] s[i])
}

pub(crate) proof fn lemma_digits_value_grows(s: Seq<char>, c: char)
    requires
        is_digit(c),
    ensures
        digits_value(s.push(c)) >= digits_value(s),
        digits_value(s.push(c)) == digits_value(s) * 10 + (c as nat - 48),
{
    assert(s.push(c).drop_last() =~= s);
}

pub(crate) proof fn lemma_digits_value_monotone(s: Seq<char>, k: int)
    requires
        0 <= k <= s.len(),
        forall|i: int| 0 <= i < s.len() ==> is_digit(#[trigger] s[i]),
    ensures
        digits_value(s) >= digits_value(s.take(k)),
    decreases s.len() - k,
{
    if k < s.len() {
        lemma_digits_value_monotone(s, k + 1);
        assert(s.take(k + 1) =~= s.take(k).push(s[k]));
        lemma_digits_value_grows(s.take(k), s[k]);
    } else {
        assert(s.take(k) =~= s);
    }
}

/// Reads a path part as an array index.
pub fn parse_index_text(s: &str) -> (r: Option<usize>)
    ensures
        match r {
            Some(i) => parse_index(s@) == Some(i as nat),
            None => parse_index(s@) is None,
        },
{
    let n = s.unicode_len();
    let mut start: usize = 0;
    if n > 0 && s.get_char(0) == '+' {
        start = 1;
    }
    let ghost body = index_body(s@);
    assert(body =~= s@.skip(start as int));
    if start == n {
        return None;
    }
    let mut value: u128 = 0;
    let mut i: usize = start;
    while i < n
        invariant
            n == s@.len(),
            start <= i <= n,
            body == s@.skip(start as int),
            body == index_body(s@),
            forall|j: int| start <= j < i ==> is_digit(#[trigger] s@[j]),
            value as nat == digits_value(body.take(i - start)),
            value <= usize::MAX,
        decreases n - i,
    {
        let c = s.get_char(i);
        if !('0' <= c && c <= '9') {
            assert(!is_digit(body[i - start]));
            assert(!all_digits(body));
            return None;
        }
        let d = (c as u32 - 48) as u128;
        proof {
            assert(body.take(i - start + 1) =~= body.take(i - start).push(c));
            lemma_digits_value_grows(body.take(i - start), c);
        }
        let next = value * 10 + d;
        if next > usize::MAX as u128 {
            proof {
                if all_digits(body) {
                    lemma_digits_value_monotone(body, i - start + 1);
                    assert(digits_value(body) > usize::MAX);
                }
            }
            return None;
        }
        value = next;
        i = i + 1;
    }
    assert(body.take(n - start) =~= body);
    Some(value as usize)
}

/// A text without its leading sign, if any.
pub open spec fn signed_body(s: Seq<char>) -> Seq<char> {
    if s.len() > 0 && (s[0] == '+' || s[0] == '-') {
        s.drop_first()
    } else {
        s
    }
}

/// A text as `i64::from_str` reads it: an optional sign, then one or more
/// decimal digits whose value fits an `i64`.
pub open spec fn parse_i64(s: Seq<char>) -> Option<int> {
    let body = signed_body(s);
    if body.len() > 0 && all_digits(body) {
        let v = if s[0] == '-' {
            -digits_value(body)
        } else {
            digits_value(body) as int
        };
        if i64::MIN <= v <= i64::MAX {
            Some(v)
        } else {
            None
        }
    } else {
        None
    }
}

/// Reads a text as a signed 64-bit integer.
pub fn parse_i64_text(s: &str) -> (r: Option<i64>)
    ensures
        match r {
            Some(v) => parse_i64(s@) == Some(v as int),
            None => parse_i64(s@) is None,
        },
{
    let n = s.unicode_len();
    let mut start: usize = 0;
    let mut negative = false;
    if n > 0 {
        let c0 = s.get_char(0);
        if c0 == '+' {
            start = 1;
        } else if c0 == '-' {
            start = 1;
            negative = true;
        }
    }
    let ghost body = signed_body(s@);
    assert(body =~= s@.skip(start as int));
    if start == n {
        return None;
    }
    let limit: u128 = if negative { 0x8000_0000_0000_0000u128 } else { 0x7fff_ffff_ffff_ffffu128 };
    let mut value: u128 = 0;
    let mut i: usize = start;
    while i < n
        invariant
            n == s@.len(),
            start <= i <= n,
            body == s@.skip(start as int),
            body == signed_body(s@),
            forall|j: int| start <= j < i ==> is_digit(#[trigger] s@[j]),
            value as nat == digits_value(body.take(i - start)),
            value <= limit,
            n > 0,
            negative <==> s@[0] == '-',
            limit == (if negative { 0x8000_0000_0000_0000u128 } else { 0x7fff_ffff_ffff_ffffu128 }),
        decreases n - i,
    {
        let c = s.get_char(i);
        if !('0' <= c && c <= '9') {
            assert(!is_digit(body[i - start]));
            assert(!all_digits(body));
            return None;
        }
        let d = (c as u32 - 48) as u128;
        proof {
            assert(body.take(i - start + 1) =~= body.take(i - start).push(c));
            lemma_digits_value_grows(body.take(i - start), c);
        }
        let next = value * 10 + d;
        if next > limit {
            proof {
                if all_digits(body) {
                    lemma_digits_value_monotone(body, i - start + 1);
                    assert(digits_value(body) > limit);
                    if negative {
                        assert(s@[0] == '-');
                    } else {
                        assert(s@[0] != '-');
                    }
                }
            }
            return None;
        }
        value = next;
        i = i + 1;
    }
    assert(body.take(n - start) =~= body);
    proof {
        if negative {
            assert(s@[0] == '-');
        } else {
            assert(s@[0] != '-');
        }
    }
    if negative {
        let v: i128 = -(value as i128);
        Some(v as i64)
    } else {
        Some(value as i64)
    }
}

/// A text as `bool::from_str` reads it: exactly `true` or `false`.
pub open spec fn parse_bool(s: Seq<char>) -> Option<bool> {
    if s == "true"@ {
        Some(true)
    } else if s == "false"@ {
        Some(false)
    } else {
        None
    }
}

/// Reads a text as a boolean.
pub fn parse_bool_text(s: &str) -> (r: Option<bool>)
    ensures
        r == parse_bool(s@),
{
    match compare_text(s, "true") {
        KeyCmp::Equal => Some(true),
        _ => match compare_text(s, "false") {
            KeyCmp::Equal => Some(false),
            _ => None,
        },
    }
}

/// A step of a field path.
#[derive(Clone, Debug, PartialEq, Eq)]
pub enum CursorEntry {
    /// Enter the array field named `basename` at an index.
    EnterArray { basename: String, index: usize },
    /// Enter the object field `child`; `basename` names the field reached.
    EnterObject { basename: String, child: String },
}

pub enum CursorEntryView {
    EnterArray { basename: Seq<char>, index: nat },
    EnterObject { basename: Seq<char>, child: Seq<char> },
}

impl View for CursorEntry {
    type V = CursorEntryView;

    open spec fn view(&self) -> CursorEntryView {
        match self {
            CursorEntry::EnterArray { basename, index } => CursorEntryView::EnterArray { basename: basename@, index: *index as nat },
            CursorEntry::EnterObject { basename, child } => CursorEntryView::EnterObject { basename: basename@, child: child@ },
        }
    }
}

/// The steps of the path parts from a field named `base`: a part read as an
/// index enters an array; any other part enters an object, and a non-empty
/// one extends the field name with `part/`.
pub open spec fn cursor_from(parts: Seq<Seq<char>>, base: Seq<char>) -> Seq<CursorEntryView>
    decreases parts.len(),
{
    if parts.len() == 0 {
        Seq::empty()
    } else {
        let part = parts[0];
        match parse_index(part) {
            Some(i) => seq![CursorEntryView::EnterArray { basename: base, index: i }] + cursor_from(parts.drop_first(), base),
            None => {
                let next = if part.len() > 0 {
                    base + part + seq!['/']
                } else {
                    base
                };
                seq![CursorEntryView::EnterObject { basename: next, child: part }] + cursor_from(parts.drop_first(), next)
            },
        }
    }
}

/// The steps of a field path, from the root field `/`.
pub open spec fn cursor_steps(name: Seq<char>) -> Seq<CursorEntryView> {
    cursor_from(split_slash(name), seq!['/'])
}

fn split_path(name: &str) -> (r: Vec<String>)
    ensures
        r@.map_values(|s: String| s@) == split_slash(name@),
{
    let n = name.unicode_len();
    let mut parts: Vec<String> = Vec::new();
    let mut current = String::new();
    let mut i: usize = 0;
    while i < n
        invariant
            n == name@.len(),
            i <= n,
            parts@.map_values(|s: String| s@).push(current@) == split_slash(name@.take(i as int)),
        decreases n - i,
    {
        let c = name.get_char(i);
        let ghost before = parts@.map_values(|s: String| s@);
        proof {
            assert(name@.take(i + 1).drop_last() =~= name@.take(i as int));
            assert(name@.take(i + 1).last() == c);
        }
        if c == '/' {
            parts.push(current);
            current = String::new();
            assert(parts@.map_values(|s: String| s@) =~= before.push(parts@[parts@.len() - 1]@));
            assert(parts@.map_values(|s: String| s@).push(current@) =~= split_slash(name@.take(i + 1)));
        } else {
            let ghost old_current = current@;
            push_char(&mut current, c);
            assert(parts@.map_values(|s: String| s@).push(current@) =~= before.push(old_current).update(before.len() as int, old_current.push(c)));
        }
        i = i + 1;
    }
    assert(name@.take(n as int) =~= name@);
    let ghost before = parts@.map_values(|s: String| s@);
    parts.push(current);
    assert(parts@.map_values(|s: String| s@) =~= before.push(parts@[parts@.len() - 1]@));
    parts
}

/// All the steps of a field path, in order.
pub fn cursor_entries(name: &str) -> (r: Vec<CursorEntry>)
    ensures
        r@.map_values(|e: CursorEntry| e@) == cursor_steps(name@),
{
    let parts = split_path(name);
    let ghost ps = parts@.map_values(|s: String| s@);
    let mut base = String::new();
    push_char(&mut base, '/');
    let mut out: Vec<CursorEntry> = Vec::new();
    let n = parts.len();
    let mut i: usize = 0;
    assert(ps.skip(0) =~= ps);
    assert(out@.map_values(|e: CursorEntry| e@) =~= Seq::<CursorEntryView>::empty());
    while i < n
        invariant
            n == parts@.len(),
            ps == parts@.map_values(|s: String| s@),
            ps == split_slash(name@),
            i <= n,
            out@.map_values(|e: CursorEntry| e@) + cursor_from(ps.skip(i as int), base@) == cursor_steps(name@),
        decreases n - i,
    {
        let part = &parts[i];
        assert(part@ == ps[i as int]);
        assert(ps.skip(i as int)[0] == ps[i as int]);
        assert(ps.skip(i as int).drop_first() =~= ps.skip(i + 1));
        let ghost before = out@.map_values(|e: CursorEntry| e@);
        let ghost old_base = base@;
        match parse_index_text(part.as_str()) {
            Some(index) => {
                out.push(CursorEntry::EnterArray { basename: base.clone(), index });
                assert(out@.map_values(|e: CursorEntry| e@) =~= before + seq![CursorEntryView::EnterArray { basename: base@, index: index as nat }]);
                assert(cursor_from(ps.skip(i as int), old_base) == seq![CursorEntryView::EnterArray { basename: base@, index: index as nat }] + cursor_from(ps.skip(i + 1), base@));
            },
            None => {
                if part.as_str().unicode_len() > 0 {
                    base.append(part.as_str());
                    push_char(&mut base, '/');
                }
                assert(base@ == if part@.len() > 0 { old_base + part@ + seq!['/'] } else { old_base });
                out.push(CursorEntry::EnterObject { basename: base.clone(), child: part.clone() });
                assert(out@.map_values(|e: CursorEntry| e@) =~= before + seq![CursorEntryView::EnterObject { basename: base@, child: part@ }]);
                assert(cursor_from(ps.skip(i as int), old_base) == seq![CursorEntryView::EnterObject { basename: base@, child: part@ }] + cursor_from(ps.skip(i + 1), base@));
            },
        }
        assert(out@.map_values(|e: CursorEntry| e@) + cursor_from(ps.skip(i + 1), base@) =~= before + cursor_from(ps.skip(i as int), old_base));
        i = i + 1;
    }
    assert(out@.map_values(|e: CursorEntry| e@) =~= out@.map_values(|e: CursorEntry| e@) + cursor_from(ps.skip(n as int), base@));
    out
}

/// The steps of a field path, handed out one by one.
pub struct CursorIterator {
    /// The steps not handed out yet, the next one last.
    rest: Vec<CursorEntry>,
}

impl CursorIterator {
    /// The steps not handed out yet, in order.
    pub closed spec fn remaining(&self) -> Seq<CursorEntryView> {
        self.rest@.map_values(|e: CursorEntry| e@).reverse()
    }

    /// Starts walking a field path.
    pub fn from_name(name: &str) -> (r: CursorIterator)
        ensures
            r.remaining() == cursor_steps(name@),
    {
        let mut steps = cursor_entries(name);
        let ghost all = steps@.map_values(|e: CursorEntry| e@);
        let mut rest: Vec<CursorEntry> = Vec::new();
        let n = steps.len();
        let mut k: usize = n;
        while k > 0
            invariant
                all.len() == n,
                k <= n,
                steps@.len() == k,
                steps@.map_values(|e: CursorEntry| e@) == all.take(k as int),
                rest@.map_values(|e: CursorEntry| e@).reverse() == all.skip(k as int),
            decreases k,
        {
            let ghost before = rest@.map_values(|e: CursorEntry| e@);
            let ghost old_steps = steps@;
            let e = steps.pop().unwrap();
            assert(old_steps =~= steps@.push(e));
            assert(e@ == all.take(k as int)[k - 1]);
            rest.push(e);
            proof {
                assert(steps@.map_values(|e: CursorEntry| e@) =~= all.take(k - 1));
                assert(rest@.map_values(|e: CursorEntry| e@) =~= before.push(all[k - 1]));
                assert(before.push(all[k - 1]).reverse() =~= seq![all[k - 1]] + before.reverse());
                assert(all.skip(k - 1) =~= seq![all[k - 1]] + all.skip(k as int));
            }
            k = k - 1;
        }
        assert(all.skip(0) =~= all);
        CursorIterator { rest }
    }

    /// The next step, if any.
    pub fn next(&mut self) -> (r: Option<CursorEntry>)
        ensures
            match r {
                Some(e) => old(self).remaining().len() > 0 && e@ == old(self).remaining()[0]
                    && final(self).remaining() == old(self).remaining().drop_first(),
                None => old(self).remaining().len() == 0 && final(self).remaining() == old(self).remaining(),
            },
    {
        let ghost before = self.rest@.map_values(|e: CursorEntry| e@);
        match self.rest.pop() {
            Some(e) => {
                proof {
                    assert(before =~= self.rest@.map_values(|e: CursorEntry| e@).push(e@));
                    assert(before.reverse() =~= seq![e@] + self.rest@.map_values(|e: CursorEntry| e@).reverse());
                }
                Some(e)
            },
            None => None,
        }
    }
}

/// The snake case of a name (`inflector`'s `to_snake_case`).
pub uninterp spec fn snake_case(s: Seq<char>) -> Seq<char>;

/// Converts a name to snake case (`inflector::cases::snakecase::to_snake_case`).
#[verifier::external_body]
fn to_snake_case(s: &str) -> (r: String)
    ensures
        r@ == snake_case(s@),
{
    inflector::cases::snakecase::to_snake_case(s)
}

/// The path of a child field: the parent's path, the child's segment, and `/`.
pub fn child_path(parent: &str, segment: &str) -> (r: String)
    ensures
        r@ == parent@ + segment@ + seq!['/'],
{
    let mut name = String::new();
    name.append(parent);
    name.append(segment);
    push_char(&mut name, '/');
    name
}

/// A named input for a function: a field path and its value.
#[derive(Clone, Debug, PartialEq, Eq)]
pub struct InputField<Value> {
    pub name: String,
    pub value: Value,
}

impl<Value> InputField<Value> {
    /// The input of an array element: the parent path, the index, and `/`.
    pub fn sub_array(parent: &str, index: usize, value: Value) -> (r: InputField<Value>)
        ensures
            r.name@ == parent@ + decimal(index as nat) + seq!['/'],
            r.value == value,
    {
        let mut segment = String::new();
        write_decimal(&mut segment, index as u128);
        InputField { name: child_path(parent, segment.as_str()), value }
    }

    /// The input of an object member: the parent path, the member's name in
    /// snake case, and `/`.
    pub fn sub_object(parent: &str, child: &str, value: Value) -> (r: InputField<Value>)
        ensures
            r.name@ == parent@ + snake_case(child@) + seq!['/'],
            r.value == value,
    {
        let snake = to_snake_case(child);
        InputField { name: child_path(parent, snake.as_str()), value }
    }
}

} // verus!
