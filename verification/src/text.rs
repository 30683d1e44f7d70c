//! Character-level text helpers shared by the gateway: Unicode whitespace,
//! word splitting, normalisation and string building.
use vstd::prelude::*;

verus! {

/// Unicode `White_Space` property, as used by `char::is_whitespace`.
pub open spec fn is_ws(c: char) -> bool {
    let u = c as u32;
    (0x9 <= u && u <= 0xD) || u == 0x20 || u == 0x85 || u == 0xA0 || u == 0x1680
        || (0x2000 <= u && u <= 0x200A) || u == 0x2028 || u == 0x2029 || u == 0x202F
        || u == 0x205F || u == 0x3000
}

/// Executable whitespace test.
pub fn char_is_ws(c: char) -> (r: bool)
    ensures
        r == is_ws(c),
{
    let u = c as u32;
    (0x9 <= u && u <= 0xD) || u == 0x20 || u == 0x85 || u == 0xA0 || u == 0x1680 || (0x2000
        <= u && u <= 0x200A) || u == 0x2028 || u == 0x2029 || u == 0x202F || u == 0x205F || u
        == 0x3000
}

/// The whitespace-delimited words of `s`, in order (what `split_whitespace` yields).
pub open spec fn words(s: Seq<char>) -> Seq<Seq<char>>
    decreases s.len(),
{
    if s.len() == 0 {
        Seq::empty()
    } else {
        let w = words(s.drop_last());
        let c = s.last();
        if is_ws(c) {
            w
        } else if s.len() >= 2 && !is_ws(s[s.len() - 2]) {
            w.update(w.len() - 1, w.last().push(c))
        } else {
            w.push(seq![c])
        }
    }
}

/// `list` joined with `sep` between consecutive items.
pub open spec fn seq_join(list: Seq<Seq<char>>, sep: Seq<char>) -> Seq<char>
    decreases list.len(),
{
    if list.len() == 0 {
        Seq::empty()
    } else if list.len() == 1 {
        list[0]
    } else {
        seq_join(list.drop_last(), sep) + sep + list.last()
    }
}

/// The words of `s` joined by single spaces.
pub open spec fn normalized(s: Seq<char>) -> Seq<char> {
    seq_join(words(s), seq![' '])
}

/// Every character of `s` is whitespace (`s.trim().is_empty()`).
pub open spec fn is_blank(s: Seq<char>) -> bool {
    forall|i: int| 0 <= i < s.len() ==> is_ws(#[trigger] s[i])
}

/// `s` without its leading whitespace (`trim_start`).
pub open spec fn trim_start(s: Seq<char>) -> Seq<char>
    decreases s.len(),
{
    if s.len() > 0 && is_ws(s[0]) {
        trim_start(s.drop_first())
    } else {
        s
    }
}

/// `s` without its trailing whitespace (`trim_end`).
pub open spec fn trim_end(s: Seq<char>) -> Seq<char>
    decreases s.len(),
{
    if s.len() > 0 && is_ws(s.last()) {
        trim_end(s.drop_last())
    } else {
        s
    }
}

pub proof fn lemma_join_push(w: Seq<Seq<char>>, x: Seq<char>, sep: Seq<char>)
    ensures
        seq_join(w.push(x), sep) == if w.len() == 0 {
            x
        } else {
            seq_join(w, sep) + sep + x
        },
{
    assert(w.push(x).drop_last() =~= w);
}

pub proof fn lemma_join_extend_last(w: Seq<Seq<char>>, c: char, sep: Seq<char>)
    requires
        w.len() > 0,
    ensures
        seq_join(w.update(w.len() - 1, w.last().push(c)), sep) == seq_join(w, sep).push(c),
{
    let w2 = w.update(w.len() - 1, w.last().push(c));
    if w.len() == 1 {
        assert(seq_join(w2, sep) == w2[0]);
    } else {
        assert(w2.drop_last() =~= w.drop_last());
        assert(seq_join(w2, sep) =~= seq_join(w, sep).push(c));
    }
}

/// A non-empty text that ends in a non-whitespace character has a last word.
pub proof fn lemma_words_nonempty(s: Seq<char>)
    requires
        s.len() > 0,
        !is_ws(s.last()),
    ensures
        words(s).len() > 0,
    decreases s.len(),
{
    if s.len() >= 2 && !is_ws(s[s.len() - 2]) {
        lemma_words_nonempty(s.drop_last());
    }
}

/// The whitespace-delimited words of `s` (`split_whitespace`).
pub fn split_words(s: &str) -> (r: Vec<String>)
    ensures
        r@.len() == words(s@).len(),
        forall|i: int| 0 <= i < r@.len() ==> #[trigger] r@[i]@ == words(s@)[i],
{
    let chars = chars_of(s);
    let n = chars.len();
    let mut acc: Vec<Vec<char>> = Vec::new();
    let mut i: usize = 0;
    while i < n
        invariant
            n == chars.len(),
            chars@ == s@,
            i <= n,
            acc@.len() == words(chars@.take(i as int)).len(),
            forall|j: int| 0 <= j < acc@.len() ==> #[trigger] acc@[j]@ == words(chars@.take(i as int))[j],
        decreases n - i,
    {
        let c = chars[i];
        let ghost prev = chars@.take(i as int);
        let ghost next = chars@.take(i as int + 1);
        assert(next.drop_last() =~= prev);
        assert(next.last() == c);
        if char_is_ws(c) {
        } else if i >= 1 && !char_is_ws(chars[i - 1]) {
            assert(next[next.len() - 2] == chars@[i - 1]);
            proof {
                lemma_words_nonempty(prev);
            }
            let ghost before = acc@;
            let last = acc.len() - 1;
            let mut w = acc.remove(last);
            w.push(c);
            acc.push(w);
            assert forall|j: int| 0 <= j < acc@.len() implies #[trigger] acc@[j]@ == words(next)[j] by {
                if j < last as int {
                    assert(acc@[j] == before[j]);
                }
            }
        } else {
            let mut w: Vec<char> = Vec::new();
            w.push(c);
            assert(w@ =~= seq![c]);
            acc.push(w);
        }
        i = i + 1;
    }
    assert(chars@.take(n as int) =~= chars@);
    let mut r: Vec<String> = Vec::new();
    let m = acc.len();
    for k in 0..m
        invariant
            m == acc@.len(),
            r@.len() == k,
            forall|j: int| 0 <= j < k ==> #[trigger] r@[j]@ == acc@[j]@,
    {
        r.push(string_from_chars(acc[k].as_slice()));
    }
    r
}

/// Appends one character to a string.
#[verifier::external_body]
pub(crate) fn push_char(s: &mut String, c: char)
    ensures
        final(s)@ == old(s)@.push(c),
{
    s.push(c);
}

/// The characters of a string, in order.
pub fn chars_of(s: &str) -> (v: Vec<char>)
    ensures
        v@ == s@,
{
    let mut v: Vec<char> = Vec::new();
    for c in it: s.chars()
        invariant
            v@ == it.seq().take(it.index() as int),
    {
        v.push(c);
    }
    v
}

/// The string made of the given characters.
pub fn string_from_chars(v: &[char]) -> (s: String)
    ensures
        s@ == v@,
{
    let mut s = String::new();
    let n = v.len();
    for i in 0..n
        invariant
            n == v@.len(),
            s@ == v@.take(i as int),
    {
        push_char(&mut s, v[i]);
        assert(v@.take(i + 1) =~= v@.take(i as int).push(v@[i as int]));
    }
    assert(v@.take(n as int) =~= v@);
    s
}

/// Number of whitespace-delimited words in `s`.
pub fn word_count(s: &[char]) -> (n: usize)
    ensures
        n == words(s@).len(),
{
    let len = s.len();
    let mut count: usize = 0;
    let mut prev_ws = true;
    for i in 0..len
        invariant
            len == s@.len(),
            count == words(s@.take(i as int)).len(),
            count <= i,
            prev_ws == (i == 0 || is_ws(s@[i - 1])),
    {
        let c = s[i];
        let ghost t = s@.take(i + 1);
        assert(t.drop_last() =~= s@.take(i as int));
        if char_is_ws(c) {
            prev_ws = true;
        } else {
            if prev_ws {
                count = count + 1;
            } else {
                proof {
                    let prev = s@.take(i as int);
                    assert(prev.last() == s@[i - 1]);
                    lemma_words_nonempty(prev);
                }
            }
            prev_ws = false;
        }
    }
    assert(s@.take(len as int) =~= s@);
    count
}

/// The words of `s` joined with single spaces (`split_whitespace().join(" ")`).
pub fn normalize_chars(s: &[char]) -> (r: Vec<char>)
    ensures
        r@ == normalized(s@),
{
    let len = s.len();
    let mut out: Vec<char> = Vec::new();
    let mut prev_ws = true;
    let mut have_word = false;
    for i in 0..len
        invariant
            len == s@.len(),
            out@ == seq_join(words(s@.take(i as int)), seq![' ']),
            prev_ws == (i == 0 || is_ws(s@[i - 1])),
            have_word == (words(s@.take(i as int)).len() > 0),
    {
        let c = s[i];
        let ghost t = s@.take(i + 1);
        let ghost prev = s@.take(i as int);
        assert(t.drop_last() =~= prev);
        if char_is_ws(c) {
            prev_ws = true;
        } else {
            proof {
                if prev_ws {
                    lemma_join_push(words(prev), seq![c], seq![' ']);
                } else {
                    assert(prev.last() == s@[i - 1]);
                    lemma_words_nonempty(prev);
                    lemma_join_extend_last(words(prev), c, seq![' ']);
                }
            }
            if prev_ws && have_word {
                out.push(' ');
            }
            out.push(c);
            prev_ws = false;
            have_word = true;
        }
    }
    assert(s@.take(len as int) =~= s@);
    out
}

/// Decimal digit character for `d < 10`.
pub open spec fn digit_char(d: nat) -> char {
    ((d + 48) as u32) as char
}

/// Decimal representation of `n`, most significant digit first.
pub open spec fn decimal(n: nat) -> Seq<char>
    decreases n,
{
    if n < 10 {
        seq![digit_char(n)]
    } else {
        decimal(n / 10).push(digit_char(n % 10))
    }
}

/// Appends the decimal representation of `n` to `out`.
pub fn push_decimal(out: &mut String, n: u64)
    ensures
        final(out)@ == old(out)@ + decimal(n as nat),
    decreases n,
{
    if n >= 10 {
        push_decimal(out, n / 10);
    }
    let d = (n % 10) as u32;
    let c = char_from_digit(d);
    push_char(out, c);
    proof {
        if n >= 10 {
            assert(decimal(n as nat) == decimal((n / 10) as nat).push(digit_char((n % 10) as nat)));
        }
    }
}

/// The character of decimal digit `d`.
pub fn char_from_digit(d: u32) -> (c: char)
    requires
        d < 10,
    ensures
        c == digit_char(d as nat),
{
    match d {
        0 => '0',
        1 => '1',
        2 => '2',
        3 => '3',
        4 => '4',
        5 => '5',
        6 => '6',
        7 => '7',
        8 => '8',
        _ => '9',
    }
}

/// Lowercase hexadecimal digit character for `d < 16`.
pub open spec fn hex_char(d: nat) -> char {
    if d < 10 {
        ((d + 48) as u32) as char
    } else {
        ((d + 87) as u32) as char
    }
}

/// Two lowercase hexadecimal characters per byte (`format!("{byte:02x}")`).
pub open spec fn hex_lower(b: Seq<u8>) -> Seq<char>
    decreases b.len(),
{
    if b.len() == 0 {
        Seq::empty()
    } else {
        hex_lower(b.drop_last()) + seq![hex_char((b.last() / 16) as nat), hex_char((b.last() % 16) as nat)]
    }
}

/// `c` is a lowercase hexadecimal digit (`0`-`9` or `a`-`f`).
pub open spec fn is_lower_hex(c: char) -> bool {
    (48 <= c as u32 <= 57) || (97 <= c as u32 <= 102)
}

/// The lowercase hex rendering has two hex digits per byte.
pub proof fn lemma_hex_lower(b: Seq<u8>)
    ensures
        hex_lower(b).len() == 2 * b.len(),
        forall|i: int| 0 <= i < hex_lower(b).len() ==> is_lower_hex(#[trigger] hex_lower(b)[i]),
    decreases b.len(),
{
    if b.len() > 0 {
        lemma_hex_lower(b.drop_last());
        let hi = (b.last() / 16) as nat;
        let lo = (b.last() % 16) as nat;
        assert(is_lower_hex(hex_char(hi)));
        assert(is_lower_hex(hex_char(lo)));
        let prev = hex_lower(b.drop_last());
        assert forall|i: int| 0 <= i < hex_lower(b).len() implies is_lower_hex(#[trigger] hex_lower(b)[i]) by {
            if i < prev.len() {
                assert(hex_lower(b)[i] == prev[i]);
            }
        }
    }
}

fn hex_digit(d: u8) -> (c: char)
    requires
        d < 16,
    ensures
        c == hex_char(d as nat),
{
    if d < 10 {
        char_from_digit(d as u32)
    } else {
        match d {
            10 => 'a',
            11 => 'b',
            12 => 'c',
            13 => 'd',
            14 => 'e',
            _ => 'f',
        }
    }
}

/// Lowercase hexadecimal rendering of `bytes`.
pub fn to_hex_lower(bytes: &[u8]) -> (s: String)
    ensures
        s@ == hex_lower(bytes@),
{
    let mut s = String::new();
    let n = bytes.len();
    for i in 0..n
        invariant
            n == bytes@.len(),
            s@ == hex_lower(bytes@.take(i as int)),
    {
        let b = bytes[i];
        proof {
            assert(bytes@.take(i + 1).drop_last() =~= bytes@.take(i as int));
        }
        push_char(&mut s, hex_digit(b / 16));
        push_char(&mut s, hex_digit(b % 16));
        proof {
            assert(s@ =~= hex_lower(bytes@.take(i + 1)));
        }
    }
    assert(bytes@.take(n as int) =~= bytes@);
    s
}

/// Whether every character of `s` is whitespace (`s.trim().is_empty()`).
pub fn str_is_blank(s: &str) -> (b: bool)
    ensures
        b == is_blank(s@),
{
    let v = chars_of(s);
    let n = v.len();
    for i in 0..n
        invariant
            n == v@.len(),
            v@ == s@,
            forall|j: int| 0 <= j < i ==> is_ws(#[trigger] v@[j]),
    {
        if !char_is_ws(v[i]) {
            return false;
        }
    }
    true
}

/// Appends the characters of `src` to `out`.
pub fn push_str(out: &mut String, src: &str)
    ensures
        final(out)@ == old(out)@ + src@,
{
    let v = chars_of(src);
    let n = v.len();
    let ghost start = out@;
    for i in 0..n
        invariant
            n == v@.len(),
            v@ == src@,
            out@ == start + v@.take(i as int),
    {
        push_char(out, v[i]);
        assert(v@.take(i + 1) =~= v@.take(i as int).push(v@[i as int]));
    }
    assert(v@.take(n as int) =~= v@);
}

/// A string with the given characters, followed by `suffix`.
pub fn concat_str(a: &str, b: &str) -> (s: String)
    ensures
        s@ == a@ + b@,
{
    let mut s = String::new();
    push_str(&mut s, a);
    push_str(&mut s, b);
    assert(s@ =~= a@ + b@);
    s
}

/// Lexicographic order by code point (the order of `str`/`String`).
pub open spec fn seq_lt(a: Seq<char>, b: Seq<char>) -> bool
    decreases a.len(),
{
    if a.len() == 0 {
        b.len() > 0
    } else if b.len() == 0 {
        false
    } else if a[0] != b[0] {
        (a[0] as u32) < (b[0] as u32)
    } else {
        seq_lt(a.drop_first(), b.drop_first())
    }
}

pub proof fn lemma_lt_irreflexive(a: Seq<char>)
    ensures
        !seq_lt(a, a),
    decreases a.len(),
{
    if a.len() > 0 {
        lemma_lt_irreflexive(a.drop_first());
    }
}

pub proof fn lemma_lt_transitive(a: Seq<char>, b: Seq<char>, c: Seq<char>)
    requires
        seq_lt(a, b),
        seq_lt(b, c),
    ensures
        seq_lt(a, c),
    decreases a.len(),
{
    if a.len() > 0 && b.len() > 0 && c.len() > 0 && a[0] == b[0] && b[0] == c[0] {
        lemma_lt_transitive(a.drop_first(), b.drop_first(), c.drop_first());
    }
}

pub proof fn lemma_lt_total(a: Seq<char>, b: Seq<char>)
    ensures
        a == b || seq_lt(a, b) || seq_lt(b, a),
    decreases a.len(),
{
    if a.len() > 0 && b.len() > 0 && a[0] == b[0] {
        lemma_lt_total(a.drop_first(), b.drop_first());
        if a.drop_first() == b.drop_first() {
            assert(a =~= seq![a[0]] + a.drop_first());
            assert(b =~= seq![b[0]] + b.drop_first());
        }
    } else if a.len() == 0 && b.len() == 0 {
        assert(a =~= b);
    } else if a.len() > 0 && b.len() > 0 {
        if (a[0] as u32) == (b[0] as u32) {
            vstd::utf8::char_u32_cast(a[0], a[0] as u32);
            vstd::utf8::char_u32_cast(b[0], b[0] as u32);
            assert(a[0] == b[0]);
        }
    }
}

pub proof fn lemma_lt_asymmetric(a: Seq<char>, b: Seq<char>)
    requires
        seq_lt(a, b),
    ensures
        !seq_lt(b, a),
{
    if seq_lt(b, a) {
        lemma_lt_transitive(a, b, a);
        lemma_lt_irreflexive(a);
    }
}

/// Whether `a` sorts before `b`.
pub fn chars_lt(a: &[char], b: &[char]) -> (r: bool)
    ensures
        r == seq_lt(a@, b@),
{
    let n = a.len();
    let m = b.len();
    let mut i: usize = 0;
    assert(a@.skip(0) =~= a@);
    assert(b@.skip(0) =~= b@);
    while i < n && i < m
        invariant
            n == a@.len(),
            m == b@.len(),
            i <= n,
            i <= m,
            seq_lt(a@, b@) == seq_lt(a@.skip(i as int), b@.skip(i as int)),
        decreases n - i,
    {
        if a[i] != b[i] {
            proof {
                assert(a@.skip(i as int)[0] == a@[i as int]);
                assert(b@.skip(i as int)[0] == b@[i as int]);
            }
            return (a[i] as u32) < (b[i] as u32);
        }
        proof {
            assert(a@.skip(i as int).drop_first() =~= a@.skip(i + 1));
            assert(b@.skip(i as int).drop_first() =~= b@.skip(i + 1));
        }
        i = i + 1;
    }
    proof {
        assert(a@.skip(i as int).len() == n - i);
    }
    i == n && i < m
}

/// Whether string `a` sorts before string `b`.
pub fn str_lt(a: &str, b: &str) -> (r: bool)
    ensures
        r == seq_lt(a@, b@),
{
    let x = chars_of(a);
    let y = chars_of(b);
    chars_lt(x.as_slice(), y.as_slice())
}

/// The views of `v` strictly increase.
pub open spec fn strictly_sorted(v: Seq<String>) -> bool {
    forall|i: int, j: int| 0 <= i < j < v.len() ==> seq_lt(#[trigger] v[i]@, #[trigger] v[j]@)
}

/// The views held by `v`.
pub open spec fn view_set(v: Seq<String>) -> Set<Seq<char>> {
    Set::new(|k: Seq<char>| exists|i: int| 0 <= i < v.len() && v[i]@ == k)
}

/// Taking one more element of `v` adds that element's view to the set.
pub proof fn lemma_view_set_take_next(v: Seq<String>, j: int)
    requires
        0 <= j < v.len(),
    ensures
        view_set(v.take(j + 1)) == view_set(v.take(j)).insert(v[j]@),
{
    let a = v.take(j + 1);
    let b = v.take(j);
    assert forall|k: Seq<char>| #[trigger] view_set(a).contains(k) implies view_set(b).insert(v[j]@).contains(k) by {
        let t = choose|t: int| 0 <= t < a.len() && #[trigger] a[t]@ == k;
        if t < j {
            assert(b[t]@ == k);
        }
    }
    assert forall|k: Seq<char>| #[trigger] view_set(b).insert(v[j]@).contains(k) implies view_set(a).contains(k) by {
        if k == v[j]@ {
            assert(a[j]@ == k);
        } else {
            let t = choose|t: int| 0 <= t < b.len() && #[trigger] b[t]@ == k;
            assert(a[t]@ == k);
        }
    }
    assert(view_set(a) =~= view_set(b).insert(v[j]@));
}

/// Inserts `s` into a strictly sorted vector unless an equal string is present.
pub fn insert_sorted_unique(v: &mut Vec<String>, s: String)
    requires
        strictly_sorted(old(v)@),
    ensures
        strictly_sorted(final(v)@),
        view_set(final(v)@) == view_set(old(v)@).insert(s@),
{
    let n = v.len();
    let mut i: usize = 0;
    while i < n && str_lt(v[i].as_str(), s.as_str())
        invariant
            n == v@.len(),
            i <= n,
            v@ == old(v)@,
            strictly_sorted(v@),
            forall|j: int| 0 <= j < i ==> seq_lt(#[trigger] v@[j]@, s@),
        decreases n - i,
    {
        i = i + 1;
    }
    if i < n && str_eq_chars(v[i].as_str(), s.as_str()) {
        proof {
            assert(view_set(v@) =~= view_set(v@).insert(s@)) by {
                assert(v@[i as int]@ == s@);
            }
        }
        return;
    }
    proof {
        if i < n {
            lemma_lt_total(v@[i as int]@, s@);
            assert(seq_lt(s@, v@[i as int]@));
        }
    }
    let ghost sv = s@;
    let ghost before = v@;
    v.insert(i, s);
    proof {
        assert(v@ =~= before.take(i as int).push(v@[i as int]) + before.skip(i as int));
        assert forall|a: int, b: int| 0 <= a < b < v@.len() implies seq_lt(#[trigger] v@[a]@, #[trigger] v@[b]@) by {
            if a < i && b < i {
                assert(v@[a] == before[a]);
                assert(v@[b] == before[b]);
            } else if a < i && b == i {
                assert(v@[a] == before[a]);
            } else if a < i && b > i {
                assert(v@[a] == before[a]);
                assert(v@[b] == before[b - 1]);
                assert(seq_lt(before[a]@, before[b - 1]@));
            } else if a == i {
                assert(v@[b] == before[b - 1]);
                if b - 1 > i {
                    assert(seq_lt(before[i as int]@, before[b - 1]@));
                    lemma_lt_transitive(sv, before[i as int]@, before[b - 1]@);
                }
            } else {
                assert(v@[a] == before[a - 1]);
                assert(v@[b] == before[b - 1]);
            }
        }
        assert(view_set(v@) =~= view_set(before).insert(sv)) by {
            assert forall|k: Seq<char>| #[trigger] view_set(v@).contains(k) implies view_set(before).insert(sv).contains(k) by {
                let j = choose|j: int| 0 <= j < v@.len() && v@[j]@ == k;
                if j < i {
                    assert(v@[j] == before[j]);
                } else if j > i {
                    assert(v@[j] == before[j - 1]);
                }
            }
            assert forall|k: Seq<char>| #[trigger] view_set(before).insert(sv).contains(k) implies view_set(v@).contains(k) by {
                if k == sv {
                    assert(v@[i as int]@ == k);
                } else {
                    let j = choose|j: int| 0 <= j < before.len() && before[j]@ == k;
                    if j < i {
                        assert(v@[j] == before[j]);
                    } else {
                        assert(v@[j + 1] == before[j]);
                    }
                }
            }
        }
    }
}

/// Whether two strings hold the same characters.
pub fn str_eq_chars(a: &str, b: &str) -> (r: bool)
    ensures
        r == (a@ == b@),
{
    let x = a.to_owned();
    let y = b.to_owned();
    x == y
}

/// Whether `v` holds a string equal to `s`.
pub fn vec_contains_str(v: &Vec<String>, s: &str) -> (b: bool)
    ensures
        b == view_set(v@).contains(s@),
{
    let n = v.len();
    for i in 0..n
        invariant
            n == v@.len(),
            forall|j: int| 0 <= j < i ==> (#[trigger] v@[j])@ != s@,
    {
        if str_eq_chars(v[i].as_str(), s) {
            proof {
                assert(v@[i as int]@ == s@);
            }
            return true;
        }
    }
    false
}

/// A copy of a list of strings.
pub fn clone_strings(v: &Vec<String>) -> (r: Vec<String>)
    ensures
        r@ == v@,
{
    let n = v.len();
    let mut r: Vec<String> = Vec::new();
    for i in 0..n
        invariant
            n == v@.len(),
            r@ == v@.take(i as int),
    {
        r.push(v[i].clone());
        proof {
            assert(v@.take(i + 1) =~= v@.take(i as int).push(v@[i as int]));
        }
    }
    assert(v@.take(n as int) =~= v@);
    r
}

} // verus!
