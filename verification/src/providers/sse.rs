//! Incremental parser for `text/event-stream` bodies: collects the `data:`
//! payload of each complete event, with bounds on buffered and event sizes.
use vstd::prelude::*;
use vstd::utf8::encode_utf8;

use crate::providers::provider::ProviderError;
use crate::text::{char_is_ws, chars_of, is_ws, push_str, seq_join, string_from_chars, trim_start};

verus! {

/// Most bytes the parser buffers while waiting for an event to complete.
pub const MAX_SSE_BUFFER_BYTES: usize = 262144;

/// Most bytes of one event or of its data.
pub const MAX_SSE_EVENT_BYTES: usize = 262144;

/// UTF-8 length of a character sequence.
pub open spec fn utf8_len(s: Seq<char>) -> nat {
    encode_utf8(s).len()
}

/// The first index `i` from `start` where `s` holds two newlines in a row.
pub open spec fn find_blank_line_from(s: Seq<char>, start: int) -> Option<int>
    decreases s.len() - start,
{
    if start < 0 || start + 1 >= s.len() {
        None
    } else if s[start] == '\n' && s[start + 1] == '\n' {
        Some(start)
    } else {
        find_blank_line_from(s, start + 1)
    }
}

pub open spec fn find_blank_line(s: Seq<char>) -> Option<int> {
    find_blank_line_from(s, 0)
}

/// `s` split at every newline (the pieces between newlines, possibly empty).
pub open spec fn split_newlines(s: Seq<char>) -> Seq<Seq<char>>
    decreases s.len(),
{
    if s.len() == 0 {
        seq![Seq::<char>::empty()]
    } else {
        let p = split_newlines(s.drop_last());
        if s.last() == '\n' {
            p.push(Seq::empty())
        } else {
            p.update(p.len() - 1, p.last().push(s.last()))
        }
    }
}

/// A line that ended in `\r\n` loses its `\r`.
pub open spec fn strip_cr(p: Seq<char>) -> Seq<char> {
    if p.len() > 0 && p.last() == '\r' { p.drop_last() } else { p }
}

/// The value of a `data:` line, without its leading whitespace.
pub open spec fn data_value(line: Seq<char>) -> Option<Seq<char>> {
    if line.len() >= 5 && line.take(5) == "data:"@ {
        Some(trim_start(line.skip(5)))
    } else {
        None
    }
}

/// The non-empty data values of a line, as a sequence of zero or one items.
pub open spec fn value_items(line: Seq<char>) -> Seq<Seq<char>> {
    match data_value(line) {
        Some(v) => if v.len() > 0 { seq![v] } else { Seq::empty() },
        None => Seq::empty(),
    }
}

/// Data values of complete lines (those followed by a newline).
pub open spec fn complete_line_values(ps: Seq<Seq<char>>) -> Seq<Seq<char>>
    decreases ps.len(),
{
    if ps.len() == 0 {
        Seq::empty()
    } else {
        complete_line_values(ps.drop_last()) + value_items(strip_cr(ps.last()))
    }
}

/// The data of a raw event: its non-empty `data:` values joined by newlines,
/// or `None` when it has none.
pub open spec fn event_data(raw: Seq<char>) -> Option<Seq<char>> {
    let ps = split_newlines(raw);
    let vals = complete_line_values(ps.drop_last()) + value_items(ps.last());
    if vals.len() == 0 { None } else { Some(seq_join(vals, seq!['\n'])) }
}

/// The events that a buffer yields, and what stays buffered; `None` when an
/// event or its data is too large (what stays buffered is then as it was when
/// the oversize was found).
pub open spec fn scan_events(buf: Seq<char>) -> (Option<Seq<Seq<char>>>, Seq<char>)
    decreases buf.len(),
{
    match find_blank_line(buf) {
        None => (Some(Seq::empty()), buf),
        Some(d) => {
            if d < 0 || d + 2 > buf.len() {
                (None, buf)
            } else if utf8_len(buf.take(d)) > MAX_SSE_EVENT_BYTES {
                (None, buf)
            } else {
                let rest = buf.skip(d + 2);
                let ev = event_data(buf.take(d));
                if ev matches Some(data) && utf8_len(data) > MAX_SSE_EVENT_BYTES {
                    (None, rest)
                } else {
                    let tail = scan_events(rest);
                    let first = match ev {
                        Some(data) => seq![data],
                        None => Seq::empty(),
                    };
                    (
                        match tail.0 {
                            Some(es) => Some(first + es),
                            None => None,
                        },
                        tail.1,
                    )
                }
            }
        },
    }
}

proof fn lemma_find_bounds(s: Seq<char>, start: int)
    ensures
        find_blank_line_from(s, start) matches Some(d) ==> start <= d && d + 1 < s.len() && s[d] == '\n' && s[d + 1] == '\n',
    decreases s.len() - start,
{
    if !(start < 0 || start + 1 >= s.len()) && !(s[start] == '\n' && s[start + 1] == '\n') {
        lemma_find_bounds(s, start + 1);
    }
}

fn find_blank_line_exec(s: &[char]) -> (r: Option<usize>)
    ensures
        match r {
            Some(d) => find_blank_line(s@) == Some(d as int),
            None => find_blank_line(s@) is None,
        },
{
    let n = s.len();
    let mut i: usize = 0;
    while i < n && i + 1 < n
        invariant
            n == s@.len(),
            find_blank_line(s@) == find_blank_line_from(s@, i as int),
        decreases n - i,
    {
        if s[i] == '\n' && s[i + 1] == '\n' {
            return Some(i);
        }
        i = i + 1;
    }
    None
}

/// Appends `items` to the pieces of `ps`.
proof fn lemma_split_step(s: Seq<char>, i: int)
    requires
        0 <= i < s.len(),
    ensures
        split_newlines(s.take(i + 1)) == if s[i] == '\n' {
            split_newlines(s.take(i)).push(Seq::empty())
        } else {
            let p = split_newlines(s.take(i));
            p.update(p.len() - 1, p.last().push(s[i]))
        },
{
    assert(s.take(i + 1).drop_last() =~= s.take(i));
}

proof fn lemma_split_nonempty(s: Seq<char>)
    ensures
        split_newlines(s).len() >= 1,
    decreases s.len(),
{
    if s.len() > 0 {
        lemma_split_nonempty(s.drop_last());
    }
}

/// Whether `line` starts with `data:`.
fn has_data_prefix(line: &[char]) -> (b: bool)
    ensures
        b == (line@.len() >= 5 && line@.take(5) == "data:"@),
{
    proof {
        reveal_strlit("data:");
    }
    if line.len() < 5 {
        return false;
    }
    let r = line[0] == 'd' && line[1] == 'a' && line[2] == 't' && line[3] == 'a' && line[4] == ':';
    proof {
        if r {
            assert(line@.take(5) =~= "data:"@);
        } else {
            if line@.take(5) == "data:"@ {
                assert(line@.take(5)[0] == 'd');
                assert(line@.take(5)[1] == 'a');
                assert(line@.take(5)[2] == 't');
                assert(line@.take(5)[3] == 'a');
                assert(line@.take(5)[4] == ':');
            }
        }
    }
    r
}

/// `s` without leading whitespace.
fn trim_start_chars(s: &[char]) -> (r: Vec<char>)
    ensures
        r@ == trim_start(s@),
{
    let n = s.len();
    let mut i: usize = 0;
    assert(s@.skip(0) =~= s@);
    while i < n && char_is_ws(s[i])
        invariant
            n == s@.len(),
            i <= n,
            trim_start(s@) == trim_start(s@.skip(i as int)),
        decreases n - i,
    {
        proof {
            assert(s@.skip(i as int).drop_first() =~= s@.skip(i + 1));
        }
        i = i + 1;
    }
    let mut r: Vec<char> = Vec::new();
    let mut j = i;
    while j < n
        invariant
            n == s@.len(),
            i <= j <= n,
            r@ == s@.subrange(i as int, j as int),
        decreases n - j,
    {
        r.push(s[j]);
        proof {
            assert(s@.subrange(i as int, j + 1) =~= s@.subrange(i as int, j as int).push(s@[j as int]));
        }
        j = j + 1;
    }
    proof {
        assert(r@ =~= s@.skip(i as int));
    }
    r
}

/// The non-empty data value of `line` appended to `vals`.
fn push_value(vals: &mut Vec<Vec<char>>, line: &[char])
    ensures
        final(vals)@.len() == old(vals)@.len() + value_items(line@).len(),
        forall|k: int| 0 <= k < old(vals)@.len() ==> #[trigger] final(vals)@[k]@ == old(vals)@[k]@,
        forall|k: int| 0 <= k < value_items(line@).len() ==> final(vals)@[old(vals)@.len() + k]@ == value_items(line@)[k],
{
    if has_data_prefix(line) {
        let mut tail: Vec<char> = Vec::new();
        let n = line.len();
        let mut j: usize = 5;
        while j < n
            invariant
                n == line@.len(),
                5 <= j <= n,
                tail@ == line@.subrange(5, j as int),
            decreases n - j,
        {
            tail.push(line[j]);
            proof {
                assert(line@.subrange(5, j + 1) =~= line@.subrange(5, j as int).push(line@[j as int]));
            }
            j = j + 1;
        }
        assert(tail@ =~= line@.skip(5));
        let v = trim_start_chars(tail.as_slice());
        if v.len() > 0 {
            vals.push(v);
        }
    }
}

/// The views of a vector of character vectors.
pub open spec fn views(v: Seq<Vec<char>>) -> Seq<Seq<char>> {
    v.map_values(|x: Vec<char>| x@)
}

/// The first `k` characters of `s`.
fn slice_prefix(s: &[char], k: usize) -> (r: Vec<char>)
    requires
        k <= s@.len(),
    ensures
        r@ == s@.take(k as int),
{
    let mut r: Vec<char> = Vec::new();
    for j in 0..k
        invariant
            k <= s@.len(),
            r@ == s@.take(j as int),
    {
        r.push(s[j]);
        proof {
            assert(s@.take(j + 1) =~= s@.take(j as int).push(s@[j as int]));
        }
    }
    r
}

/// The characters of `s` from `k` on.
fn slice_suffix(s: &[char], k: usize) -> (r: Vec<char>)
    requires
        k <= s@.len(),
    ensures
        r@ == s@.skip(k as int),
{
    let n = s.len();
    let mut r: Vec<char> = Vec::new();
    let mut j = k;
    while j < n
        invariant
            n == s@.len(),
            k <= j <= n,
            r@ == s@.subrange(k as int, j as int),
        decreases n - j,
    {
        r.push(s[j]);
        proof {
            assert(s@.subrange(k as int, j + 1) =~= s@.subrange(k as int, j as int).push(s@[j as int]));
        }
        j = j + 1;
    }
    assert(r@ =~= s@.skip(k as int));
    r
}

/// The lines joined by newlines.
fn join_lines(vals: &Vec<Vec<char>>) -> (r: Vec<char>)
    ensures
        r@ == seq_join(views(vals@), seq!['\n']),
{
    let n = vals.len();
    let mut r: Vec<char> = Vec::new();
    for i in 0..n
        invariant
            n == vals@.len(),
            r@ == seq_join(views(vals@.take(i as int)), seq!['\n']),
    {
        let ghost prev = views(vals@.take(i as int));
        proof {
            assert(views(vals@.take(i + 1)) =~= prev.push(vals@[i as int]@));
            crate::text::lemma_join_push(prev, vals@[i as int]@, seq!['\n']);
        }
        if i > 0 {
            r.push('\n');
        }
        let m = vals[i].len();
        let ghost start = r@;
        for j in 0..m
            invariant
                n == vals@.len(),
                i < n,
                m == vals@[i as int]@.len(),
                r@ == start + vals@[i as int]@.take(j as int),
        {
            r.push(vals[i][j]);
            proof {
                assert(vals@[i as int]@.take(j + 1) =~= vals@[i as int]@.take(j as int).push(vals@[i as int]@[j as int]));
            }
        }
        proof {
            assert(vals@[i as int]@.take(m as int) =~= vals@[i as int]@);
            if i == 0 {
                assert(prev.len() == 0);
                assert(r@ =~= vals@[i as int]@);
            } else {
                assert(r@ =~= seq_join(prev, seq!['\n']) + seq!['\n'] + vals@[i as int]@);
            }
        }
    }
    assert(vals@.take(n as int) =~= vals@);
    r
}

/// The data payload of one raw event.
fn parse_event_data(raw: &[char]) -> (r: Option<Vec<char>>)
    ensures
        match r {
            Some(d) => event_data(raw@) == Some(d@),
            None => event_data(raw@) is None,
        },
{
    let n = raw.len();
    let mut vals: Vec<Vec<char>> = Vec::new();
    let mut cur: Vec<char> = Vec::new();
    let ghost mut done: Seq<Seq<char>> = Seq::empty();
    for i in 0..n
        invariant
            n == raw@.len(),
            split_newlines(raw@.take(i as int)) == done.push(cur@),
            views(vals@) == complete_line_values(done),
    {
        proof {
            lemma_split_step(raw@, i as int);
        }
        if raw[i] == '\n' {
            let ghost old_vals = vals@;
            let stripped_len = if cur.len() > 0 && cur[cur.len() - 1] == '\r' { cur.len() - 1 } else { cur.len() };
            let line = slice_prefix(cur.as_slice(), stripped_len);
            proof {
                assert(line@ == strip_cr(cur@));
            }
            push_value(&mut vals, line.as_slice());
            proof {
                let nd = done.push(cur@);
                assert(nd.drop_last() =~= done);
                assert(views(vals@) =~= complete_line_values(done) + value_items(strip_cr(cur@)));
                done = nd;
            }
            cur = Vec::new();
            proof {
                assert(split_newlines(raw@.take(i + 1)) =~= done.push(cur@));
            }
        } else {
            let ghost old_cur = cur@;
            cur.push(raw[i]);
            proof {
                let p = done.push(old_cur);
                assert(p.update(p.len() - 1, p.last().push(raw@[i as int])) =~= done.push(cur@));
            }
        }
    }
    let ghost before_last = views(vals@);
    push_value(&mut vals, cur.as_slice());
    proof {
        assert(raw@.take(n as int) =~= raw@);
        assert(views(vals@) =~= before_last + value_items(cur@));
        assert(split_newlines(raw@).drop_last() =~= done);
    }
    if vals.len() == 0 {
        return None;
    }
    Some(join_lines(&vals))
}

/// `es` followed by the events of `r`.
pub open spec fn prepend_events(es: Seq<Seq<char>>, r: (Option<Seq<Seq<char>>>, Seq<char>)) -> (Option<Seq<Seq<char>>>, Seq<char>) {
    (
        match r.0 {
            Some(x) => Some(es + x),
            None => None,
        },
        r.1,
    )
}

proof fn lemma_find_in_prefix(x: Seq<char>, y: Seq<char>, start: int)
    requires
        0 <= start,
        find_blank_line_from(x, start) is Some,
    ensures
        find_blank_line_from(x + y, start) == find_blank_line_from(x, start),
    decreases x.len() - start,
{
    lemma_find_bounds(x, start);
    if x[start] == '\n' && x[start + 1] == '\n' {
        assert((x + y)[start] == x[start]);
        assert((x + y)[start + 1] == x[start + 1]);
    } else {
        assert(start + 1 < x.len());
        assert((x + y)[start] == x[start]);
        assert((x + y)[start + 1] == x[start + 1]);
        lemma_find_in_prefix(x, y, start + 1);
    }
}

/// Splitting a stream anywhere changes nothing: scanning `x`, then what stays
/// buffered followed by `y`, yields exactly the events of scanning `x + y`, in
/// order, and leaves the same text buffered; when scanning `x` already fails,
/// scanning `x + y` fails too.
pub proof fn law_sse_split_keeps_events(x: Seq<char>, y: Seq<char>)
    ensures
        match scan_events(x).0 {
            Some(es) => scan_events(x + y) == prepend_events(es, scan_events(scan_events(x).1 + y)),
            None => scan_events(x + y).0 is None,
        },
    decreases x.len(),
{
    match find_blank_line(x) {
        None => {
            let r = scan_events(x + y);
            if r.0 is Some {
                assert(Seq::<Seq<char>>::empty() + r.0->0 =~= r.0->0);
            }
        },
        Some(d) => {
            lemma_find_bounds(x, 0);
            lemma_find_in_prefix(x, y, 0);
            assert((x + y).take(d) =~= x.take(d));
            let rest = x.skip(d + 2);
            assert((x + y).skip(d + 2) =~= rest + y);
            if utf8_len(x.take(d)) > MAX_SSE_EVENT_BYTES {
            } else {
                let ev = event_data(x.take(d));
                if ev matches Some(data) && utf8_len(data) > MAX_SSE_EVENT_BYTES {
                } else {
                    law_sse_split_keeps_events(rest, y);
                    let first = match ev {
                        Some(data) => seq![data],
                        None => Seq::<Seq<char>>::empty(),
                    };
                    let tr = scan_events(rest);
                    if tr.0 is Some {
                        let t2 = scan_events(tr.1 + y);
                        if t2.0 is Some {
                            assert(first + (tr.0->0 + t2.0->0) =~= (first + tr.0->0) + t2.0->0);
                        }
                    }
                }
            }
        },
    }
}

proof fn lemma_utf8_concat(a: Seq<char>, b: Seq<char>)
    ensures
        encode_utf8(a + b) == encode_utf8(a) + encode_utf8(b),
        utf8_len(a + b) == utf8_len(a) + utf8_len(b),
    decreases a.len(),
{
    if a.len() > 0 {
        lemma_utf8_concat(a.drop_first(), b);
        assert((a + b).drop_first() =~= a.drop_first() + b);
        assert((a + b)[0] == a[0]);
        assert(encode_utf8(a + b) =~= encode_utf8(a) + encode_utf8(b));
    } else {
        assert(a + b =~= b);
        assert(encode_utf8(a) + encode_utf8(b) =~= encode_utf8(b));
    }
}

proof fn lemma_utf8_at_least_chars(a: Seq<char>)
    ensures
        utf8_len(a) >= a.len(),
    decreases a.len(),
{
    if a.len() > 0 {
        lemma_utf8_at_least_chars(a.drop_first());
    }
}

proof fn lemma_utf8_parts(a: Seq<char>, i: int)
    requires
        0 <= i <= a.len(),
    ensures
        utf8_len(a) == utf8_len(a.take(i)) + utf8_len(a.skip(i)),
{
    assert(a =~= a.take(i) + a.skip(i));
    lemma_utf8_concat(a.take(i), a.skip(i));
}

proof fn lemma_utf8_newline()
    ensures
        utf8_len(seq!['\n']) == 1,
{
    assert(vstd::utf8::is_ascii_chars(seq!['\n']));
    vstd::utf8::is_ascii_chars_encode_utf8(seq!['\n']);
}

proof fn lemma_trim_start_shorter(x: Seq<char>)
    ensures
        utf8_len(trim_start(x)) <= utf8_len(x),
    decreases x.len(),
{
    if x.len() > 0 && is_ws(x[0]) {
        lemma_trim_start_shorter(x.drop_first());
        lemma_utf8_parts(x, 1);
        assert(x.skip(1) =~= x.drop_first());
    }
}

/// The total UTF-8 length of the pieces.
spec fn lens_sum(ps: Seq<Seq<char>>) -> nat
    decreases ps.len(),
{
    if ps.len() == 0 {
        0
    } else {
        lens_sum(ps.drop_last()) + utf8_len(ps.last())
    }
}

proof fn lemma_lens_sum_concat(a: Seq<Seq<char>>, b: Seq<Seq<char>>)
    ensures
        lens_sum(a + b) == lens_sum(a) + lens_sum(b),
    decreases b.len(),
{
    if b.len() > 0 {
        lemma_lens_sum_concat(a, b.drop_last());
        assert((a + b).drop_last() =~= a + b.drop_last());
    } else {
        assert(a + b =~= a);
    }
}

/// A piece's data value, if any, is at least 5 bytes shorter than the piece.
proof fn lemma_value_items_small(p: Seq<char>)
    ensures
        value_items(p).len() <= 1,
        value_items(p).len() == 1 ==> utf8_len(value_items(p)[0]) + 5 <= utf8_len(p),
{
    if data_value(p) is Some {
        lemma_utf8_parts(p, 5);
        lemma_utf8_at_least_chars(p.take(5));
        lemma_trim_start_shorter(p.skip(5));
    }
}

proof fn lemma_strip_cr_shorter(p: Seq<char>)
    ensures
        utf8_len(strip_cr(p)) <= utf8_len(p),
{
    if p.len() > 0 && p.last() == '\r' {
        lemma_utf8_parts(p, p.len() - 1);
        assert(p.take(p.len() - 1) =~= p.drop_last());
    }
}

proof fn lemma_values_small(ps: Seq<Seq<char>>)
    ensures
        lens_sum(complete_line_values(ps)) + complete_line_values(ps).len() <= lens_sum(ps),
    decreases ps.len(),
{
    if ps.len() > 0 {
        lemma_values_small(ps.drop_last());
        let items = value_items(strip_cr(ps.last()));
        lemma_value_items_small(strip_cr(ps.last()));
        lemma_strip_cr_shorter(ps.last());
        lemma_lens_sum_concat(complete_line_values(ps.drop_last()), items);
        assert(complete_line_values(ps) == complete_line_values(ps.drop_last()) + items);
        assert(lens_sum(ps) == lens_sum(ps.drop_last()) + utf8_len(ps.last()));
        lemma_items_size(items, utf8_len(strip_cr(ps.last())));
    }
}

proof fn lemma_items_size(items: Seq<Seq<char>>, bound: nat)
    requires
        items.len() <= 1,
        items.len() == 1 ==> utf8_len(items[0]) + 5 <= bound,
    ensures
        lens_sum(items) + items.len() <= bound,
{
    if items.len() == 1 {
        assert(items.drop_last() =~= Seq::<Seq<char>>::empty());
        assert(lens_sum(items.drop_last()) == 0);
        assert(items.last() == items[0]);
    } else {
        assert(lens_sum(items) == 0);
    }
}

proof fn lemma_join_size(vals: Seq<Seq<char>>)
    ensures
        utf8_len(seq_join(vals, seq!['\n'])) <= lens_sum(vals) + vals.len(),
    decreases vals.len(),
{
    if vals.len() == 1 {
        assert(vals.drop_last() =~= Seq::<Seq<char>>::empty());
    } else if vals.len() > 1 {
        lemma_join_size(vals.drop_last());
        lemma_utf8_newline();
        let j = seq_join(vals.drop_last(), seq!['\n']);
        lemma_utf8_concat(j, seq!['\n']);
        lemma_utf8_concat(j + seq!['\n'], vals.last());
    }
}

proof fn lemma_split_size(raw: Seq<char>)
    ensures
        split_newlines(raw).len() >= 1,
        lens_sum(split_newlines(raw)) + split_newlines(raw).len() - 1 == utf8_len(raw),
    decreases raw.len(),
{
    if raw.len() == 0 {
        assert(utf8_len(raw) == 0);
        let q = split_newlines(raw);
        assert(q == seq![Seq::<char>::empty()]);
        assert(q.drop_last() =~= Seq::<Seq<char>>::empty());
        assert(lens_sum(q.drop_last()) == 0);
        assert(utf8_len(Seq::<char>::empty()) == 0);
        assert(lens_sum(q) == lens_sum(q.drop_last()) + utf8_len(q.last()));
    } else {
        lemma_split_size(raw.drop_last());
        let p = split_newlines(raw.drop_last());
        let c = raw.last();
        lemma_utf8_parts(raw, raw.len() - 1);
        assert(raw.take(raw.len() - 1) =~= raw.drop_last());
        assert(raw.skip(raw.len() - 1) =~= seq![c]);
        if c == '\n' {
            lemma_utf8_newline();
            let q = p.push(Seq::<char>::empty());
            assert(split_newlines(raw) == q);
            assert(q.drop_last() =~= p);
            assert(utf8_len(Seq::<char>::empty()) == 0);
            assert(lens_sum(q) == lens_sum(q.drop_last()) + utf8_len(q.last()));
        } else {
            let q = p.update(p.len() - 1, p.last().push(c));
            assert(split_newlines(raw) == q);
            assert(q.drop_last() =~= p.drop_last());
            lemma_utf8_concat(p.last(), seq![c]);
            assert(p.last().push(c) =~= p.last() + seq![c]);
            assert(q.last() == p.last().push(c));
            assert(lens_sum(q) == lens_sum(q.drop_last()) + utf8_len(q.last()));
            assert(lens_sum(p) == lens_sum(p.drop_last()) + utf8_len(p.last()));
        }
    }
}

/// An event's data is no longer, in UTF-8, than the event's raw text.
proof fn lemma_event_data_small(raw: Seq<char>)
    ensures
        event_data(raw) matches Some(d) ==> utf8_len(d) <= utf8_len(raw),
{
    let ps = split_newlines(raw);
    lemma_split_size(raw);
    let vals = complete_line_values(ps.drop_last()) + value_items(ps.last());
    lemma_values_small(ps.drop_last());
    lemma_value_items_small(ps.last());
    lemma_lens_sum_concat(complete_line_values(ps.drop_last()), value_items(ps.last()));
    lemma_join_size(vals);
    lemma_items_size(value_items(ps.last()), utf8_len(ps.last()));
    assert(lens_sum(ps) == lens_sum(ps.drop_last()) + utf8_len(ps.last()));
}

/// A buffer within the event bound scans without a size error, and what stays
/// buffered is no longer than it.
pub proof fn lemma_scan_within_bound(buf: Seq<char>)
    ensures
        utf8_len(scan_events(buf).1) <= utf8_len(buf),
        utf8_len(buf) <= MAX_SSE_EVENT_BYTES ==> scan_events(buf).0 is Some,
    decreases buf.len(),
{
    if let Some(d) = find_blank_line(buf) {
        lemma_find_bounds(buf, 0);
        lemma_utf8_parts(buf, d);
        lemma_utf8_parts(buf, d + 2);
        if utf8_len(buf.take(d)) <= MAX_SSE_EVENT_BYTES {
            lemma_event_data_small(buf.take(d));
            lemma_scan_within_bound(buf.skip(d + 2));
        }
    }
}

/// A stream of at most `MAX_SSE_BUFFER_BYTES` bytes, split into `a` then `b`
/// and pushed to a fresh parser, is taken in full: the first push is within
/// the buffer bound and scans without error, and so does the second, on what
/// stayed buffered followed by `b` (and, by `law_sse_split_keeps_events`, the
/// two together give the events of pushing `a + b` at once).
pub proof fn law_sse_bounded_stream_is_accepted(a: Seq<char>, b: Seq<char>)
    requires
        utf8_len(a + b) <= MAX_SSE_BUFFER_BYTES,
    ensures
        utf8_len(Seq::<char>::empty()) + utf8_len(a) <= MAX_SSE_BUFFER_BYTES,
        scan_events(Seq::<char>::empty() + a).0 is Some,
        utf8_len(scan_events(Seq::<char>::empty() + a).1) + utf8_len(b) <= MAX_SSE_BUFFER_BYTES,
        scan_events(scan_events(Seq::<char>::empty() + a).1 + b).0 is Some,
        scan_events(Seq::<char>::empty() + (a + b)).0 is Some,
{
    assert(Seq::<char>::empty() + a =~= a);
    assert(Seq::<char>::empty() + (a + b) =~= a + b);
    assert(utf8_len(Seq::<char>::empty()) == 0);
    lemma_utf8_concat(a, b);
    lemma_scan_within_bound(a);
    let rest = scan_events(a).1;
    lemma_utf8_concat(rest, b);
    lemma_scan_within_bound(rest + b);
    lemma_scan_within_bound(a + b);
}

/// The views of a vector of strings.
pub open spec fn string_views(v: Seq<String>) -> Seq<Seq<char>> {
    v.map_values(|x: String| x@)
}

/// Collects the `data:` payloads of complete events from a byte stream delivered in chunks.
pub struct SseDataParser {
    buffer: String,
}

impl SseDataParser {
    /// The text received but not yet part of a complete event.
    pub closed spec fn buffered(&self) -> Seq<char> {
        self.buffer@
    }

    /// A parser with nothing buffered.
    pub fn new() -> (p: Self)
        ensures
            p.buffered() == Seq::<char>::empty(),
    {
        SseDataParser { buffer: String::new() }
    }

    /// Adds `chunk` to the buffer and returns the data of every event it completes.
    /// Refuses (with a bad-response error) a chunk that would grow the buffer past
    /// its bound, or an event or data payload that is too large.
    pub fn push_chunk(&mut self, chunk: &str) -> (r: Result<Vec<String>, ProviderError>)
        ensures
            if utf8_len(old(self).buffered()) + utf8_len(chunk@) > MAX_SSE_BUFFER_BYTES {
                &&& r == Err::<Vec<String>, ProviderError>(ProviderError::ProviderBadResponse)
                &&& final(self).buffered() == old(self).buffered()
            } else {
                let scanned = scan_events(old(self).buffered() + chunk@);
                &&& final(self).buffered() == scanned.1
                &&& match scanned.0 {
                    None => r == Err::<Vec<String>, ProviderError>(ProviderError::ProviderBadResponse),
                    Some(es) => r matches Ok(v) && string_views(v@) == es,
                }
            },
    {
        let buffered = self.buffer.as_str().as_bytes().len();
        let incoming = chunk.as_bytes().len();
        if buffered.saturating_add(incoming) > MAX_SSE_BUFFER_BYTES {
            return Err(ProviderError::ProviderBadResponse);
        }
        push_str(&mut self.buffer, chunk);
        let ghost combined = self.buffer@;
        let mut rest: Vec<char> = chars_of(self.buffer.as_str());
        let mut events: Vec<String> = Vec::new();
        proof {
            assert(Seq::<Seq<char>>::empty() + scan_events(rest@).0->0 =~= scan_events(rest@).0->0);
            assert(string_views(events@) =~= Seq::<Seq<char>>::empty());
        }
        loop
            invariant
                combined == old(self).buffered() + chunk@,
                utf8_len(old(self).buffered()) + utf8_len(chunk@) <= MAX_SSE_BUFFER_BYTES,
                scan_events(combined) == prepend_events(string_views(events@), scan_events(rest@)),
            ensures
                scan_events(combined) == prepend_events(string_views(events@), scan_events(rest@)),
                find_blank_line(rest@) is None,
            decreases rest@.len(),
        {
            let found = find_blank_line_exec(rest.as_slice());
            match found {
                None => {
                    break;
                },
                Some(d) => {
                    proof {
                        lemma_find_bounds(rest@, 0);
                        assert(find_blank_line_from(rest@, 0) == Some(d as int));
                        assert(d + 1 < rest@.len());
                    }
                    let rest_len = rest.len();
                    assert(d + 1 < rest_len);
                    let prefix = slice_prefix(rest.as_slice(), d);
                    let prefix_text = string_from_chars(prefix.as_slice());
                    if prefix_text.as_str().as_bytes().len() > MAX_SSE_EVENT_BYTES {
                        self.buffer = string_from_chars(rest.as_slice());
                        return Err(ProviderError::ProviderBadResponse);
                    }
                    let next = slice_suffix(rest.as_slice(), d + 2);
                    let ev = parse_event_data(prefix.as_slice());
                    let ghost old_views = string_views(events@);
                    match ev {
                        Some(data) => {
                            let data_text = string_from_chars(data.as_slice());
                            if data_text.as_str().as_bytes().len() > MAX_SSE_EVENT_BYTES {
                                self.buffer = string_from_chars(next.as_slice());
                                return Err(ProviderError::ProviderBadResponse);
                            }
                            events.push(data_text);
                            proof {
                                assert(string_views(events@) =~= old_views.push(data@));
                                let t = scan_events(next@);
                                if t.0 is Some {
                                    assert(old_views + (seq![data@] + t.0->0) =~= old_views.push(data@) + t.0->0);
                                }
                            }
                        },
                        None => {
                            proof {
                                let t = scan_events(next@);
                                if t.0 is Some {
                                    assert(old_views + (Seq::<Seq<char>>::empty() + t.0->0) =~= old_views + t.0->0);
                                }
                            }
                        },
                    }
                    rest = next;
                },
            }
        }
        proof {
            assert(string_views(events@) + Seq::<Seq<char>>::empty() =~= string_views(events@));
        }
        self.buffer = string_from_chars(rest.as_slice());
        Ok(events)
    }
}

impl Default for SseDataParser {
    fn default() -> (p: Self)
        ensures
            p.buffered() == Seq::<char>::empty(),
    {
        SseDataParser::new()
    }
}

} // verus!
