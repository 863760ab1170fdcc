use vstd::prelude::*;
use crate::value::{Value, ValueModel, strings_view, pairs_view};
use crate::state::DEFAULT_TTL_SECS;

verus! {

/// Unicode White_Space: the characters that separate the tokens of a command line.
pub open spec fn is_space(c: char) -> bool {
    let u = c as u32;
    (0x09 <= u && u <= 0x0D) || u == 0x20 || u == 0x85 || u == 0xA0 || u == 0x1680
        || (0x2000 <= u && u <= 0x200A) || u == 0x2028 || u == 0x2029 || u == 0x202F
        || u == 0x205F || u == 0x3000
}

/// Whether `c` separates tokens.
pub fn is_space_char(c: char) -> (r: bool)
    ensures
        r == is_space(c),
{
    let u = c as u32;
    (0x09 <= u && u <= 0x0D) || u == 0x20 || u == 0x85 || u == 0xA0 || u == 0x1680
        || (0x2000 <= u && u <= 0x200A) || u == 0x2028 || u == 0x2029 || u == 0x202F
        || u == 0x205F || u == 0x3000
}

/// The maximal runs of non-space characters of `s`, in order.
pub open spec fn tokens_of(s: Seq<char>) -> Seq<Seq<char>>
    decreases s.len(),
{
    if s.len() == 0 {
        Seq::empty()
    } else {
        let t = tokens_of(s.drop_last());
        let c = s.last();
        if is_space(c) {
            t
        } else if s.len() >= 2 && !is_space(s[s.len() - 2]) && t.len() > 0 {
            t.update(t.len() - 1, t.last().push(c))
        } else {
            t.push(seq![c])
        }
    }
}

/// The pieces of `s` between occurrences of `sep`; there is always at least one.
pub open spec fn split_on(s: Seq<char>, sep: char) -> Seq<Seq<char>>
    decreases s.len(),
{
    if s.len() == 0 {
        seq![Seq::empty()]
    } else {
        let t = split_on(s.drop_last(), sep);
        if s.last() == sep {
            t.push(Seq::empty())
        } else if t.len() > 0 {
            t.update(t.len() - 1, t.last().push(s.last()))
        } else {
            seq![seq![s.last()]]
        }
    }
}

/// `i` is the first position of `c` in `s`.
pub open spec fn first_at(s: Seq<char>, c: char, i: int) -> bool {
    0 <= i < s.len() && s[i] == c && forall|j: int| 0 <= j < i ==> s[j] != c
}

/// A `key:value` piece split at its first colon; `None` when it has no colon.
pub open spec fn pair_of(p: Seq<char>) -> Option<(Seq<char>, Seq<char>)> {
    if p.contains(':') {
        let i = choose|i: int| first_at(p, ':', i);
        Some((p.take(i), p.skip(i + 1)))
    } else {
        None
    }
}

/// `i` is the first position in `m` whose key is `k`.
pub open spec fn first_key_at(m: Seq<(Seq<char>, Seq<char>)>, k: Seq<char>, i: int) -> bool {
    0 <= i < m.len() && m[i].0 == k && forall|j: int| 0 <= j < i ==> m[j].0 != k
}

/// `m` with `k` bound to `v`: an existing binding is overwritten in place,
/// a new one goes last.
pub open spec fn put_pair(m: Seq<(Seq<char>, Seq<char>)>, k: Seq<char>, v: Seq<char>) -> Seq<
    (Seq<char>, Seq<char>),
> {
    if exists|i: int| 0 <= i < m.len() && m[i].0 == k {
        let i = choose|i: int| first_key_at(m, k, i);
        m.update(i, (k, v))
    } else {
        m.push((k, v))
    }
}

/// No two pairs share a key.
pub open spec fn pair_keys_unique(m: Seq<(Seq<char>, Seq<char>)>) -> bool {
    forall|i: int, j: int| 0 <= i < m.len() && 0 <= j < m.len() && i != j ==> m[i].0 != m[j].0
}

proof fn lemma_first_key_exists(m: Seq<(Seq<char>, Seq<char>)>, k: Seq<char>, w: int)
    requires
        0 <= w < m.len(),
        m[w].0 == k,
    ensures
        exists|i: int| first_key_at(m, k, i),
    decreases w,
{
    if forall|j: int| 0 <= j < w ==> m[j].0 != k {
        assert(first_key_at(m, k, w));
    } else {
        let j = choose|j: int| 0 <= j < w && m[j].0 == k;
        lemma_first_key_exists(m, k, j);
    }
}

proof fn lemma_put_pair_unique(m: Seq<(Seq<char>, Seq<char>)>, k: Seq<char>, v: Seq<char>)
    requires
        pair_keys_unique(m),
    ensures
        pair_keys_unique(put_pair(m, k, v)),
{
    if exists|i: int| 0 <= i < m.len() && m[i].0 == k {
        let w = choose|i: int| 0 <= i < m.len() && m[i].0 == k;
        lemma_first_key_exists(m, k, w);
        let i = choose|i: int| first_key_at(m, k, i);
        assert(put_pair(m, k, v) == m.update(i, (k, v)));
    }
}

proof fn lemma_pairs_of_unique(pieces: Seq<Seq<char>>)
    ensures
        pair_keys_unique(pairs_of(pieces)),
    decreases pieces.len(),
{
    if pieces.len() > 0 {
        lemma_pairs_of_unique(pieces.drop_last());
        match pair_of(pieces.last()) {
            Some(kv) => lemma_put_pair_unique(pairs_of(pieces.drop_last()), kv.0, kv.1),
            None => {},
        }
    }
}

/// The pairs that the pieces describe; pieces without a colon are dropped and
/// a later piece for a key overrides an earlier one.
pub open spec fn pairs_of(pieces: Seq<Seq<char>>) -> Seq<(Seq<char>, Seq<char>)>
    decreases pieces.len(),
{
    if pieces.len() == 0 {
        Seq::empty()
    } else {
        let m = pairs_of(pieces.drop_last());
        match pair_of(pieces.last()) {
            Some(kv) => put_pair(m, kv.0, kv.1),
            None => m,
        }
    }
}

/// The value that a raw token stands for: with a comma and a colon, pairs;
/// with a comma only, a list; otherwise the text itself.
pub open spec fn classify(s: Seq<char>) -> ValueModel {
    if !s.contains(',') {
        ValueModel::Text(s)
    } else if s.contains(':') {
        ValueModel::Pairs(pairs_of(split_on(s, ',')))
    } else {
        ValueModel::List(split_on(s, ','))
    }
}

/// A value read as pairs never binds one key twice.
pub proof fn classify_keys_unique(s: Seq<char>)
    ensures
        classify(s) matches ValueModel::Pairs(ps) ==> pair_keys_unique(ps),
{
    lemma_pairs_of_unique(split_on(s, ','));
}

/// Splits a command line into its tokens.
pub fn tokenize(line: &str) -> (r: Vec<String>)
    ensures
        strings_view(r@) == tokens_of(line@),
{
    let n = line.unicode_len();
    let mut out: Vec<String> = Vec::new();
    let mut start: usize = 0;
    let mut inside: bool = false;
    let mut i: usize = 0;
    assert(line@.take(0) =~= Seq::<char>::empty());
    for c in it: line.chars()
        invariant
            it.seq() == line@,
            n == line@.len(),
            i == it.index(),
            i <= n,
            start <= i,
            inside ==> i > 0 && start < i && !is_space(line@[i - 1]) && strings_view(out@).push(
                line@.subrange(start as int, i as int),
            ) == tokens_of(line@.take(i as int)),
            !inside ==> (i == 0 || is_space(line@[i - 1])) && strings_view(out@) == tokens_of(
                line@.take(i as int),
            ),
    {
        let ghost p = line@.take(i + 1);
        assert(p.drop_last() =~= line@.take(i as int));
        assert(c == line@[i as int]);
        if is_space_char(c) {
            if inside {
                let tok = String::from_str(line.substring_char(start, i));
                let ghost before = out@;
                out.push(tok);
                assert(strings_view(out@) =~= strings_view(before).push(tok@));
                inside = false;
            }
        } else if !inside {
            assert(line@.subrange(i as int, i + 1) =~= seq![c]);
            start = i;
            inside = true;
        } else {
            assert(line@.subrange(start as int, i + 1) =~= line@.subrange(start as int, i as int).push(c));
        }
        i = i + 1;
    }
    assert(line@.take(n as int) =~= line@);
    if inside {
        let tok = String::from_str(line.substring_char(start, n));
        let ghost before = out@;
        out.push(tok);
        assert(strings_view(out@) =~= strings_view(before).push(tok@));
    }
    out
}

/// Whether `c` occurs in `s`.
pub fn contains_char(s: &str, c: char) -> (r: bool)
    ensures
        r == s@.contains(c),
{
    for d in it: s.chars()
        invariant
            it.seq() == s@,
            forall|j: int| 0 <= j < it.index() ==> s@[j] != c,
    {
        if d == c {
            assert(s@[it.index() as int] == c);
            return true;
        }
    }
    false
}

/// The pieces of `s` between occurrences of `sep`.
pub fn split_pieces(s: &str, sep: char) -> (r: Vec<String>)
    ensures
        strings_view(r@) == split_on(s@, sep),
{
    let n = s.unicode_len();
    let mut out: Vec<String> = Vec::new();
    let mut start: usize = 0;
    let mut i: usize = 0;
    assert(s@.take(0) =~= Seq::<char>::empty());
    assert(s@.subrange(0, 0) =~= Seq::<char>::empty());
    for c in it: s.chars()
        invariant
            it.seq() == s@,
            n == s@.len(),
            i == it.index(),
            i <= n,
            start <= i,
            strings_view(out@).push(s@.subrange(start as int, i as int)) == split_on(
                s@.take(i as int),
                sep,
            ),
    {
        let ghost p = s@.take(i + 1);
        assert(p.drop_last() =~= s@.take(i as int));
        assert(c == s@[i as int]);
        if c == sep {
            let piece = String::from_str(s.substring_char(start, i));
            let ghost before = out@;
            out.push(piece);
            assert(strings_view(out@) =~= strings_view(before).push(piece@));
            start = i + 1;
            assert(s@.subrange(start as int, i + 1) =~= Seq::<char>::empty());
        } else {
            assert(s@.subrange(start as int, i + 1) =~= s@.subrange(start as int, i as int).push(c));
        }
        i = i + 1;
    }
    assert(s@.take(n as int) =~= s@);
    let piece = String::from_str(s.substring_char(start, n));
    let ghost before = out@;
    out.push(piece);
    assert(strings_view(out@) =~= strings_view(before).push(piece@));
    out
}

/// Splits a `key:value` piece at its first colon.
pub fn parse_pair(p: &str) -> (r: Option<(String, String)>)
    ensures
        match pair_of(p@) {
            Some(kv) => match r {
                Some(got) => got.0@ == kv.0 && got.1@ == kv.1,
                None => false,
            },
            None => r is None,
        },
{
    let n = p.unicode_len();
    let mut i: usize = 0;
    for c in it: p.chars()
        invariant
            it.seq() == p@,
            n == p@.len(),
            i == it.index(),
            forall|j: int| 0 <= j < i ==> p@[j] != ':',
    {
        if c == ':' {
            assert(first_at(p@, ':', i as int));
            assert(p@.contains(':'));
            proof {
                let k = choose|k: int| first_at(p@, ':', k);
                assert(k == i);
            }
            let key = String::from_str(p.substring_char(0, i));
            let val = String::from_str(p.substring_char(i + 1, n));
            assert(key@ =~= p@.take(i as int));
            assert(val@ =~= p@.skip(i + 1));
            return Some((key, val));
        }
        i = i + 1;
    }
    None
}

/// Binds `k` to `v` in the pairs `m`, as `put_pair` describes.
fn put_pair_exec(m: &mut Vec<(String, String)>, k: String, v: String)
    ensures
        pairs_view(final(m)@) == put_pair(pairs_view(old(m)@), k@, v@),
{
    let ghost mv = pairs_view(m@);
    let mut i: usize = 0;
    while i < m.len()
        invariant
            i <= m@.len(),
            mv == pairs_view(m@),
            mv == pairs_view(old(m)@),
            forall|j: int| 0 <= j < i ==> m@[j].0@ != k@,
        decreases m@.len() - i,
    {
        if crate::text::str_eq(m[i].0.as_str(), k.as_str()) {
            assert(mv[i as int].0 == k@);
            assert forall|j: int| 0 <= j < i implies mv[j].0 != k@ by {
                assert(mv[j].0 == m@[j].0@);
            }
            assert(first_key_at(mv, k@, i as int));
            proof {
                let c = choose|c: int| first_key_at(mv, k@, c);
                assert(c == i);
            }
            let ghost kv = k@;
            let ghost vv = v@;
            m.set(i, (k, v));
            assert(pairs_view(m@) =~= mv.update(i as int, (kv, vv)));
            return;
        }
        i = i + 1;
    }
    assert(!exists|j: int| 0 <= j < mv.len() && mv[j].0 == k@) by {
        assert forall|j: int| 0 <= j < mv.len() implies mv[j].0 != k@ by {
            assert(mv[j].0 == m@[j].0@);
        }
    }
    let ghost kv = k@;
    let ghost vv = v@;
    m.push((k, v));
    assert(pairs_view(m@) =~= mv.push((kv, vv)));
}

/// Turns a raw value token into the value it stands for.
pub fn parse_value(raw: &str) -> (r: Value)
    ensures
        r@ == classify(raw@),
        r@ matches ValueModel::Pairs(ps) ==> pair_keys_unique(ps),
{
    proof {
        classify_keys_unique(raw@);
    }
    if !contains_char(raw, ',') {
        return Value::String(String::from_str(raw));
    }
    let pieces = split_pieces(raw, ',');
    if !contains_char(raw, ':') {
        return Value::VecStr(pieces);
    }
    let ghost pv = strings_view(pieces@);
    let mut m: Vec<(String, String)> = Vec::new();
    assert(pv.take(0) =~= Seq::<Seq<char>>::empty());
    for i in 0..pieces.len()
        invariant
            pv == strings_view(pieces@),
            pairs_view(m@) == pairs_of(pv.take(i as int)),
    {
        assert(pv.take(i + 1).drop_last() =~= pv.take(i as int));
        assert(pv.take(i + 1).last() == pieces@[i as int]@);
        match parse_pair(pieces[i].as_str()) {
            Some(kv) => {
                put_pair_exec(&mut m, kv.0, kv.1);
            },
            None => {},
        }
    }
    assert(pv.take(pieces@.len() as int) =~= pv);
    Value::Hash(m)
}

/// An ASCII decimal digit.
pub open spec fn is_digit(c: char) -> bool {
    48 <= (c as u32) && (c as u32) <= 57
}

/// Every character of `d` is a decimal digit.
pub open spec fn all_digits(d: Seq<char>) -> bool {
    forall|i: int| 0 <= i < d.len() ==> is_digit(#[trigger] d[i])
}

/// The number that a string of decimal digits writes.
pub open spec fn digits_value(d: Seq<char>) -> int
    decreases d.len(),
{
    if d.len() == 0 {
        0
    } else {
        digits_value(d.drop_last()) * 10 + ((d.last() as u32) - 48)
    }
}

/// The digits of an unsigned decimal numeral, after its optional `+` sign.
pub open spec fn unsigned_digits(s: Seq<char>) -> Seq<char> {
    if s.len() > 0 && s[0] == '+' {
        s.drop_first()
    } else {
        s
    }
}

/// The `u64` that `s` writes in decimal, if any: an optional `+`, then at
/// least one digit, and a value that fits.
pub open spec fn u64_of(s: Seq<char>) -> Option<u64> {
    let d = unsigned_digits(s);
    if d.len() > 0 && all_digits(d) && digits_value(d) <= u64::MAX {
        Some(digits_value(d) as u64)
    } else {
        None
    }
}

/// The time-to-live, in seconds, that a token asks for; the default when it
/// writes no `u64`.
pub open spec fn ttl_of(s: Seq<char>) -> u64 {
    match u64_of(s) {
        Some(n) => n,
        None => DEFAULT_TTL_SECS,
    }
}

proof fn lemma_digits_nonneg(d: Seq<char>)
    requires
        all_digits(d),
    ensures
        digits_value(d) >= 0,
    decreases d.len(),
{
    if d.len() > 0 {
        let p = d.drop_last();
        assert(all_digits(p)) by {
            assert forall|i: int| 0 <= i < p.len() implies is_digit(#[trigger] p[i]) by {
                assert(p[i] == d[i]);
            }
        }
        lemma_digits_nonneg(p);
        assert(is_digit(d[d.len() - 1]));
    }
}

proof fn lemma_digits_grow(d: Seq<char>, k: int)
    requires
        all_digits(d),
        0 <= k <= d.len(),
    ensures
        digits_value(d.take(k)) <= digits_value(d),
    decreases d.len() - k,
{
    if k < d.len() {
        lemma_digits_grow(d, k + 1);
        let t = d.take(k + 1);
        assert(t.drop_last() =~= d.take(k));
        assert(is_digit(t[t.len() - 1]));
        assert(all_digits(d.take(k))) by {
            assert forall|i: int| 0 <= i < k implies is_digit(#[trigger] d.take(k)[i]) by {
                assert(d.take(k)[i] == d[i]);
            }
        }
        lemma_digits_nonneg(d.take(k));
    } else {
        assert(d.take(k) =~= d);
    }
}

/// Reads an unsigned decimal numeral, as `u64_of` describes.
pub fn parse_u64(s: &str) -> (r: Option<u64>)
    ensures
        r == u64_of(s@),
{
    let n = s.unicode_len();
    let start: usize = if n > 0 && s.get_char(0) == '+' { 1 } else { 0 };
    let ghost d = unsigned_digits(s@);
    assert(d =~= s@.subrange(start as int, n as int));
    if start == n {
        return None;
    }
    let mut acc: u64 = 0;
    let mut i: usize = start;
    assert(d.take(0) =~= Seq::<char>::empty());
    while i < n
        invariant
            n == s@.len(),
            start <= i <= n,
            d == s@.subrange(start as int, n as int),
            d == unsigned_digits(s@),
            all_digits(d.take(i - start)),
            acc as int == digits_value(d.take(i - start)),
        decreases n - i,
    {
        let c = s.get_char(i);
        let ghost k = i - start;
        assert(d[k] == c);
        if !(48 <= (c as u32) && (c as u32) <= 57) {
            assert(!is_digit(d[k]));
            assert(!all_digits(d));
            return None;
        }
        let next: u128 = acc as u128 * 10 + ((c as u32) - 48) as u128;
        assert(d.take(k + 1).drop_last() =~= d.take(k));
        assert(d.take(k + 1).last() == c);
        assert(next == digits_value(d.take(k + 1)));
        assert(all_digits(d.take(k + 1))) by {
            assert forall|j: int| 0 <= j < k + 1 implies is_digit(#[trigger] d.take(k + 1)[j]) by {
                if j < k {
                    assert(d.take(k + 1)[j] == d.take(k)[j]);
                }
            }
        }
        if next > u64::MAX as u128 {
            proof {
                if all_digits(d) {
                    lemma_digits_grow(d, k + 1);
                }
            }
            return None;
        }
        acc = next as u64;
        i = i + 1;
    }
    assert(d.take(n - start) =~= d);
    Some(acc)
}

/// The time-to-live, in seconds, that a token asks for.
pub fn parse_ttl(s: &str) -> (r: u64)
    ensures
        r == ttl_of(s@),
{
    match parse_u64(s) {
        Some(n) => n,
        None => DEFAULT_TTL_SECS,
    }
}

/// `xs` joined with commas.
pub open spec fn join(xs: Seq<Seq<char>>) -> Seq<char>
    decreases xs.len(),
{
    if xs.len() == 0 {
        Seq::empty()
    } else if xs.len() == 1 {
        xs[0]
    } else {
        join(xs.drop_last()) + ","@ + xs.last()
    }
}

/// A pair as it appears in a reply, `key:value`.
pub open spec fn pair_text(p: (Seq<char>, Seq<char>)) -> Seq<char> {
    p.0 + ":"@ + p.1
}

/// The name of a value's kind in a reply.
pub open spec fn kind_name(v: ValueModel) -> Seq<char> {
    match v {
        ValueModel::Text(_) => "String"@,
        ValueModel::List(_) => "VecStr"@,
        ValueModel::Pairs(_) => "Hash"@,
    }
}

/// The text of a value in a reply: its contents, then its type.
pub open spec fn render(v: ValueModel) -> Seq<char> {
    let body = match v {
        ValueModel::Text(s) => s,
        ValueModel::List(xs) => join(xs),
        ValueModel::Pairs(ps) => join(ps.map_values(|p: (Seq<char>, Seq<char>)| pair_text(p))),
    };
    body + ", type: "@ + kind_name(v)
}

/// The strings of `xs` joined with commas.
fn join_strings(xs: &Vec<String>) -> (r: String)
    ensures
        r@ == join(strings_view(xs@)),
{
    let ghost xv = strings_view(xs@);
    let mut out = String::new();
    assert(xv.take(0) =~= Seq::<Seq<char>>::empty());
    for i in 0..xs.len()
        invariant
            xv == strings_view(xs@),
            out@ == join(xv.take(i as int)),
    {
        let ghost t = xv.take(i + 1);
        assert(t.drop_last() =~= xv.take(i as int));
        if i > 0 {
            out.append(",");
        } else {
            assert(out@ =~= Seq::<char>::empty());
        }
        out.append(xs[i].as_str());
        assert(t.last() == xs@[i as int]@);
        if i == 0 {
            assert(out@ =~= t[0]);
        }
    }
    assert(xv.take(xs@.len() as int) =~= xv);
    out
}

/// The name of a value's kind, as `kind_name` gives it.
pub fn kind_name_of(v: &Value) -> (r: String)
    ensures
        r@ == kind_name(v@),
{
    match v {
        Value::String(_) => String::from_str("String"),
        Value::VecStr(_) => String::from_str("VecStr"),
        Value::Hash(_) => String::from_str("Hash"),
    }
}

/// The text of a value in a reply, as `render` describes.
pub fn render_value(v: &Value) -> (r: String)
    ensures
        r@ == render(v@),
{
    let mut out = match v {
        Value::String(s) => s.clone(),
        Value::VecStr(xs) => join_strings(xs),
        Value::Hash(ps) => {
            let mut texts: Vec<String> = Vec::new();
            for i in 0..ps.len()
                invariant
                    texts@.len() == i,
                    forall|j: int| 0 <= j < i ==> #[trigger] texts@[j]@ == pair_text(
                        (ps@[j].0@, ps@[j].1@),
                    ),
            {
                let mut t = ps[i].0.clone();
                t.append(":");
                t.append(ps[i].1.as_str());
                texts.push(t);
            }
            let r = join_strings(&texts);
            assert(strings_view(texts@) =~= pairs_view(ps@).map_values(
                |p: (Seq<char>, Seq<char>)| pair_text(p),
            ));
            r
        },
    };
    out.append(", type: ");
    let name = kind_name_of(v);
    out.append(name.as_str());
    out
}

} // verus!
