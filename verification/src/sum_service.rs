//! The summing echo service: every line a client sends is appended to what it sent before,
//! and the service answers with the sum of all the integers in that text, written in decimal
//! on a line of its own.
use vstd::prelude::*;
use vstd::utf8::{decode_utf8, encode_utf8};
use crate::decimal::{decimal, fits_i32, format_i32, parse_i32, parse_i32_span};

verus! {

/// A character that `char::is_whitespace` accepts: the Unicode `White_Space` property.
pub open spec fn is_whitespace(c: char) -> bool {
    let u = c as u32;
    ||| 0x9 <= u <= 0xd
    ||| u == 0x20
    ||| u == 0x85
    ||| u == 0xa0
    ||| u == 0x1680
    ||| 0x2000 <= u <= 0x200a
    ||| u == 0x2028
    ||| u == 0x2029
    ||| u == 0x202f
    ||| u == 0x205f
    ||| u == 0x3000
}

/// The maximal runs of non-whitespace characters of `s`, in order: what
/// `str::split_whitespace` yields.
pub open spec fn tokens(s: Seq<char>) -> Seq<Seq<char>>
    decreases s.len(),
{
    if s.len() == 0 {
        seq![]
    } else {
        let prev = tokens(s.drop_last());
        let c = s.last();
        if is_whitespace(c) {
            prev
        } else if s.len() >= 2 && !is_whitespace(s[s.len() - 2]) {
            prev.drop_last().push(prev.last().push(c))
        } else {
            prev.push(seq![c])
        }
    }
}

/// Every token reads as an `i32`.
pub open spec fn all_parse(ts: Seq<Seq<char>>) -> bool {
    forall|i: int| 0 <= i < ts.len() ==> (#[trigger] parse_i32(ts[i])) is Some
}

/// The values of the tokens, or `None` when one of them does not read as an `i32`.
pub open spec fn parse_all(ts: Seq<Seq<char>>) -> Option<Seq<int>> {
    if all_parse(ts) {
        Some(Seq::new(ts.len(), |i: int| parse_i32(ts[i])->0))
    } else {
        None
    }
}

/// The sum of a sequence of integers.
pub open spec fn seq_sum(v: Seq<int>) -> int
    decreases v.len(),
{
    if v.len() == 0 {
        0
    } else {
        seq_sum(v.drop_last()) + v.last()
    }
}

/// Summing from the left in `i32` arithmetic never overflows: every running total fits.
pub open spec fn running_sums_fit(v: Seq<int>) -> bool {
    forall|k: int| 1 <= k <= v.len() ==> #[trigger] fits_i32(seq_sum(v.take(k)))
}

/// The sum of `v` folded from the left in `i32` arithmetic, or `None` where a running total
/// overflows.
pub open spec fn checked_sum(v: Seq<int>) -> Option<int> {
    if running_sums_fit(v) {
        Some(seq_sum(v))
    } else {
        None
    }
}

/// Why a text has no sum.
#[derive(PartialEq, Eq, Structural, Clone, Copy, Debug)]
pub enum SumError {
    /// A whitespace-separated token is not an `i32`.
    BadNumber,
    /// A running total left the `i32` range.
    Overflow,
}

/// The sum of the integers of a text, or why it has none.
pub open spec fn text_sum(s: Seq<char>) -> Result<int, SumError> {
    match parse_all(tokens(s)) {
        None => Err(SumError::BadNumber),
        Some(v) => match checked_sum(v) {
            None => Err(SumError::Overflow),
            Some(x) => Ok(x),
        },
    }
}

/// The reply line for a sum: its decimal text and a newline, as bytes.
pub open spec fn sum_reply(x: int) -> Seq<u8> {
    encode_utf8(decimal(x).push('\n'))
}

/// The texts that a list of spans picks out of `text`.
pub open spec fn span_texts(text: Seq<char>, spans: Seq<(usize, usize)>) -> Seq<Seq<char>> {
    spans.map_values(|p: (usize, usize)| text.subrange(p.0 as int, p.1 as int))
}

/// Each span is a non-empty range inside a text of length `len`.
pub open spec fn spans_valid(spans: Seq<(usize, usize)>, len: int) -> bool {
    forall|k: int| #![trigger spans[k]] 0 <= k < spans.len() ==> spans[k].0 < spans[k].1 && spans[k].1 <= len
}

/// The values of a vector of `i32`, as integers.
pub open spec fn ints(v: Seq<i32>) -> Seq<int> {
    v.map_values(|x: i32| x as int)
}

/// Whether `c` is whitespace, as `char::is_whitespace` says.
pub fn is_whitespace_char(c: char) -> (r: bool)
    ensures
        r == is_whitespace(c),
{
    let u = c as u32;
    (0x9 <= u && u <= 0xd) || u == 0x20 || u == 0x85 || u == 0xa0 || u == 0x1680 || (0x2000 <= u
        && u <= 0x200a) || u == 0x2028 || u == 0x2029 || u == 0x202f || u == 0x205f || u == 0x3000
}

/// The start and end of every whitespace-separated token of `text`, in order.
pub fn token_spans(text: &Vec<char>) -> (spans: Vec<(usize, usize)>)
    ensures
        spans_valid(spans@, text@.len() as int),
        span_texts(text@, spans@) == tokens(text@),
{
    let n = text.len();
    let mut spans: Vec<(usize, usize)> = Vec::new();
    let mut in_token = false;
    let mut start: usize = 0;
    let mut i: usize = 0;
    while i < n
        invariant
            n == text@.len(),
            0 <= i <= n,
            spans_valid(spans@, i as int),
            in_token ==> start < i && !is_whitespace(text@[i - 1]),
            !in_token ==> (i == 0 || is_whitespace(text@[i - 1])),
            (if in_token {
                span_texts(text@, spans@).push(text@.subrange(start as int, i as int))
            } else {
                span_texts(text@, spans@)
            }) == tokens(text@.take(i as int)),
        decreases n - i,
    {
        let c = text[i];
        let ws = is_whitespace_char(c);
        let ghost s = text@.take(i + 1);
        let ghost old_spans = spans@;
        proof {
            assert(s.drop_last() =~= text@.take(i as int));
            assert(s.last() == c);
            if i >= 1 {
                assert(s[s.len() - 2] == text@[i - 1]);
            }
        }
        if ws {
            if in_token {
                spans.push((start, i));
                in_token = false;
                proof {
                    assert(span_texts(text@, spans@) =~= span_texts(text@, old_spans).push(
                        text@.subrange(start as int, i as int),
                    ));
                }
            }
        } else {
            if in_token {
                proof {
                    assert(text@.subrange(start as int, i + 1) =~= text@.subrange(
                        start as int,
                        i as int,
                    ).push(c));
                    let prev = span_texts(text@, spans@).push(
                        text@.subrange(start as int, i as int),
                    );
                    assert(prev.drop_last() =~= span_texts(text@, spans@));
                }
            } else {
                start = i;
                in_token = true;
                proof {
                    assert(text@.subrange(i as int, i + 1) =~= seq![c]);
                }
            }
        }
        assert forall|k: int| #![trigger spans@[k]] 0 <= k < spans@.len() implies spans@[k].0 < spans@[k].1
            && spans@[k].1 <= i + 1 by {
            if k < old_spans.len() {
                assert(spans@[k] == old_spans[k]);
                assert(old_spans[k].0 < old_spans[k].1 <= i);
            }
        }
        i = i + 1;
    }
    proof {
        assert(text@.take(n as int) =~= text@);
    }
    if in_token {
        let ghost old_spans = spans@;
        spans.push((start, n));
        proof {
            assert(span_texts(text@, spans@) =~= span_texts(text@, old_spans).push(
                text@.subrange(start as int, n as int),
            ));
        }
    }
    spans
}

/// Reads every span of `text` as an `i32`, or `None` when one of them is not an `i32`.
pub fn parse_spans(text: &Vec<char>, spans: &Vec<(usize, usize)>) -> (r: Option<Vec<i32>>)
    requires
        spans_valid(spans@, text@.len() as int),
    ensures
        match r {
            Some(v) => parse_all(span_texts(text@, spans@)) == Some(ints(v@)),
            None => parse_all(span_texts(text@, spans@)) is None,
        },
{
    let ghost ts = span_texts(text@, spans@);
    let mut values: Vec<i32> = Vec::new();
    let mut k: usize = 0;
    while k < spans.len()
        invariant
            spans_valid(spans@, text@.len() as int),
            ts == span_texts(text@, spans@),
            0 <= k <= spans@.len(),
            values@.len() == k,
            forall|j: int| 0 <= j < k ==> parse_i32(#[trigger] ts[j]) == Some(values@[j] as int),
        decreases spans@.len() - k,
    {
        let (s, e) = spans[k];
        assert(spans@[k as int].0 < spans@[k as int].1 <= text@.len());
        match parse_i32_span(text.as_slice(), s, e) {
            Some(v) => {
                values.push(v);
            },
            None => {
                assert(parse_i32(ts[k as int]) is None);
                return None;
            },
        }
        k = k + 1;
    }
    assert(all_parse(ts));
    assert(Seq::new(ts.len(), |i: int| parse_i32(ts[i])->0) =~= ints(values@));
    Some(values)
}

proof fn lemma_sum_step(v: Seq<int>, k: int)
    requires
        0 <= k < v.len(),
    ensures
        seq_sum(v.take(k + 1)) == seq_sum(v.take(k)) + v[k],
{
    assert(v.take(k + 1).drop_last() =~= v.take(k));
}

/// Folds `values` from the left in `i32` arithmetic, or `None` where a running total
/// overflows.
pub fn sum_values(values: &Vec<i32>) -> (r: Option<i32>)
    ensures
        match r {
            Some(x) => checked_sum(ints(values@)) == Some(x as int),
            None => checked_sum(ints(values@)) is None,
        },
{
    let ghost v = ints(values@);
    let mut acc: i32 = 0;
    let mut k: usize = 0;
    assert(v.take(0) =~= Seq::<int>::empty());
    while k < values.len()
        invariant
            v == ints(values@),
            0 <= k <= values@.len(),
            acc as int == seq_sum(v.take(k as int)),
            forall|j: int| 1 <= j <= k ==> #[trigger] fits_i32(seq_sum(v.take(j))),
        decreases values@.len() - k,
    {
        proof {
            lemma_sum_step(v, k as int);
        }
        let next: i64 = acc as i64 + values[k] as i64;
        if next < -2147483648 || next > 2147483647 {
            assert(!fits_i32(seq_sum(v.take(k + 1))));
            return None;
        }
        acc = next as i32;
        k = k + 1;
    }
    assert(v.take(v.len() as int) =~= v);
    Some(acc)
}

/// Every character is ASCII.
pub open spec fn ascii_only(chars: Seq<char>) -> bool {
    forall|i: int| 0 <= i < chars.len() ==> (#[trigger] chars[i] as u32) <= 0x7f
}

proof fn lemma_ascii_encoding(chars: Seq<char>)
    requires
        ascii_only(chars),
    ensures
        encode_utf8(chars) =~= Seq::new(chars.len(), |i: int| (chars[i] as u32) as u8),
    decreases chars.len(),
{
    if chars.len() > 0 {
        let v = chars[0] as u32;
        assert(v <= 0x7f);
        assert((v & 0x7f) as u8 == v as u8) by (bit_vector)
            requires
                v <= 0x7f,
        ;
        let rest = chars.drop_first();
        assert(ascii_only(rest)) by {
            assert forall|i: int| 0 <= i < rest.len() implies (#[trigger] rest[i] as u32) <= 0x7f by {
                assert(rest[i] == chars[i + 1]);
            }
        }
        lemma_ascii_encoding(rest);
    }
}

proof fn lemma_nat_digits_small(m: nat, i: int)
    requires
        0 <= i < crate::decimal::nat_digits(m).len(),
    ensures
        48 <= (crate::decimal::nat_digits(m)[i] as u32) <= 57,
    decreases m,
{
    let s = crate::decimal::nat_digits(m);
    if m < 10 {
        assert((m + 48) as char as u32 == m + 48);
    } else {
        let d = (m % 10) as int;
        assert((d + 48) as char as u32 == d + 48);
        if i < s.len() - 1 {
            assert(s[i] == crate::decimal::nat_digits(m / 10)[i]);
            lemma_nat_digits_small(m / 10, i);
        }
    }
}

proof fn lemma_reply_ascii(n: int)
    ensures
        ascii_only(decimal(n).push('\n')),
{
    let d = decimal(n);
    let r = d.push('\n');
    assert forall|i: int| 0 <= i < r.len() implies (#[trigger] r[i] as u32) <= 0x7f by {
        if i < d.len() {
            assert(r[i] == d[i]);
            if n < 0 {
                if i > 0 {
                    assert(d[i] == crate::decimal::nat_digits((-n) as nat)[i - 1]);
                    lemma_nat_digits_small((-n) as nat, i - 1);
                }
            } else {
                lemma_nat_digits_small(n as nat, i);
            }
        }
    }
}

/// The bytes of an ASCII text.
fn ascii_bytes(chars: &Vec<char>) -> (r: Vec<u8>)
    requires
        ascii_only(chars@),
    ensures
        r@ == encode_utf8(chars@),
{
    proof {
        lemma_ascii_encoding(chars@);
    }
    let mut out: Vec<u8> = Vec::new();
    let mut i: usize = 0;
    while i < chars.len()
        invariant
            0 <= i <= chars@.len(),
            out@ =~= Seq::new(i as nat, |j: int| (chars@[j] as u32) as u8),
        decreases chars@.len() - i,
    {
        let c = chars[i];
        let b = (c as u32) as u8;
        out.push(b);
        i = i + 1;
    }
    out
}

/// The sum of the integers of `text`, as the service computes it, or why it has none.
pub fn sum_text(text: &Vec<char>) -> (r: Result<i32, SumError>)
    ensures
        match text_sum(text@) {
            Ok(x) => r == Ok::<i32, SumError>(x as i32) && fits_i32(x),
            Err(e) => r == Err::<i32, SumError>(e),
        },
{
    let spans = token_spans(text);
    match parse_spans(text, &spans) {
        None => Err(SumError::BadNumber),
        Some(values) => match sum_values(&values) {
            None => Err(SumError::Overflow),
            Some(x) => Ok(x),
        },
    }
}

/// The reply line for a sum.
pub fn reply_line(x: i32) -> (r: Vec<u8>)
    ensures
        r@ == sum_reply(x as int),
{
    let mut chars = format_i32(x);
    chars.push('\n');
    proof {
        lemma_reply_ascii(x as int);
    }
    ascii_bytes(&chars)
}

/// One client's conversation with the summing service: all the text it has sent so far.
pub struct SumSession {
    text: Vec<char>,
}

impl View for SumSession {
    type V = Seq<char>;

    closed spec fn view(&self) -> Seq<char> {
        self.text@
    }
}

impl SumSession {
    /// A conversation in which nothing has been sent yet.
    pub fn new() -> (s: SumSession)
        ensures
            s@ == Seq::<char>::empty(),
    {
        SumSession { text: Vec::new() }
    }

    /// Takes the next line a client sent and answers with the sum of every integer sent so
    /// far, or says why there is none.
    pub fn on_line(&mut self, line: &str) -> (r: Result<Vec<u8>, SumError>)
        ensures
            final(self)@ == old(self)@ + line@,
            match text_sum(final(self)@) {
                Ok(x) => r matches Ok(bytes) && bytes@ == sum_reply(x),
                Err(e) => r matches Err(e2) && e2 == e,
            },
    {
        let ghost start = self.text@;
        for c in it: line.chars()
            invariant
                self.text@ == start + it.seq().take(it.index() as int),
        {
            self.text.push(c);
        }
        match sum_text(&self.text) {
            Ok(x) => Ok(reply_line(x)),
            Err(e) => Err(e),
        }
    }
}

} // verus!

verus! {

proof fn lemma_tokens_nonempty(s: Seq<char>)
    requires
        s.len() > 0,
        !is_whitespace(s.last()),
    ensures
        tokens(s).len() > 0,
    decreases s.len(),
{
    let prev = tokens(s.drop_last());
    if s.len() >= 2 && !is_whitespace(s[s.len() - 2]) {
        assert(s.drop_last().last() == s[s.len() - 2]);
        lemma_tokens_nonempty(s.drop_last());
    }
}

/// A text that ends in whitespace (or is empty) splits into tokens independently of what
/// follows it: the tokens of `s + t` are those of `s` followed by those of `t`. So the
/// numbers a client sent before a line break are never merged with those it sends after.
pub proof fn law_tokens_split_at_whitespace(s: Seq<char>, t: Seq<char>)
    requires
        s.len() == 0 || is_whitespace(s.last()),
    ensures
        tokens(s + t) == tokens(s) + tokens(t),
    decreases t.len(),
{
    if t.len() == 0 {
        assert(s + t =~= s);
        assert(tokens(s) + tokens(t) =~= tokens(s));
    } else {
        let u = t.drop_last();
        let c = t.last();
        law_tokens_split_at_whitespace(s, u);
        let st = s + t;
        assert(st.drop_last() =~= s + u);
        assert(st.last() == c);
        if is_whitespace(c) {
        } else if u.len() > 0 {
            assert(st[st.len() - 2] == u.last());
            assert(t[t.len() - 2] == u.last());
            if !is_whitespace(u.last()) {
                lemma_tokens_nonempty(u);
                let a = tokens(s);
                let b = tokens(u);
                assert((a + b).drop_last() =~= a + b.drop_last());
                assert((a + b).last() == b.last());
                assert(a + b.drop_last().push(b.last().push(c)) =~= (a + b.drop_last()).push(
                    b.last().push(c),
                ));
            } else {
                assert(tokens(s) + tokens(u).push(seq![c]) =~= (tokens(s) + tokens(u)).push(
                    seq![c],
                ));
            }
        } else {
            assert(u =~= Seq::<char>::empty());
            if s.len() > 0 {
                assert(st[st.len() - 2] == s.last());
            }
            assert(tokens(s) + tokens(u).push(seq![c]) =~= (tokens(s) + tokens(u)).push(seq![c]));
        }
    }
}

/// Whitespace alone holds no token.
proof fn lemma_tokens_of_whitespace(w: Seq<char>)
    requires
        forall|i: int| 0 <= i < w.len() ==> #[trigger] is_whitespace(w[i]),
    ensures
        tokens(w) == Seq::<Seq<char>>::empty(),
    decreases w.len(),
{
    if w.len() > 0 {
        assert(is_whitespace(w[w.len() - 1]));
        lemma_tokens_of_whitespace(w.drop_last());
    }
}

/// A line of nothing but whitespace changes nothing: the text before it and the text with it
/// have the same sum, or fail in the same way.
pub proof fn law_blank_line_keeps_sum(s: Seq<char>, w: Seq<char>)
    requires
        s.len() == 0 || is_whitespace(s.last()),
        forall|i: int| 0 <= i < w.len() ==> #[trigger] is_whitespace(w[i]),
    ensures
        text_sum(s + w) == text_sum(s),
{
    law_tokens_split_at_whitespace(s, w);
    lemma_tokens_of_whitespace(w);
    assert(tokens(s) + tokens(w) =~= tokens(s));
}

/// A text without whitespace is one token.
proof fn lemma_single_token(s: Seq<char>)
    requires
        s.len() > 0,
        forall|i: int| 0 <= i < s.len() ==> !#[trigger] is_whitespace(s[i]),
    ensures
        tokens(s) == seq![s],
    decreases s.len(),
{
    let u = s.drop_last();
    assert(!is_whitespace(s[s.len() - 1]));
    if u.len() == 0 {
        assert(tokens(u) =~= Seq::<Seq<char>>::empty());
        assert(s =~= seq![s.last()]);
    } else {
        assert forall|i: int| 0 <= i < u.len() implies !#[trigger] is_whitespace(u[i]) by {
            assert(u[i] == s[i]);
        }
        lemma_single_token(u);
        assert(s[s.len() - 2] == u[u.len() - 1]);
        assert(!is_whitespace(s[s.len() - 2]));
        assert(u.push(s.last()) =~= s);
        assert(tokens(u).drop_last() =~= Seq::<Seq<char>>::empty());
    }
}

proof fn lemma_decimal_no_whitespace(n: int)
    ensures
        forall|i: int| 0 <= i < decimal(n).len() ==> !#[trigger] is_whitespace(decimal(n)[i]),
        decimal(n).len() > 0,
{
    lemma_reply_ascii(n);
    crate::decimal::lemma_decimal_nonempty(n);
    let d = decimal(n);
    let r = d.push('\n');
    assert forall|i: int| 0 <= i < d.len() implies !#[trigger] is_whitespace(d[i]) by {
        assert(r[i] == d[i]);
        if n < 0 && i == 0 {
        } else if n < 0 {
            assert(d[i] == crate::decimal::nat_digits((-n) as nat)[i - 1]);
            lemma_nat_digits_small((-n) as nat, i - 1);
        } else {
            lemma_nat_digits_small(n as nat, i);
        }
    }
}

/// The service's reply, read back as text, sums to the value it reports: a reply line sent
/// to a fresh session is answered with the same line.
pub proof fn law_reply_reads_back(x: int)
    requires
        fits_i32(x),
    ensures
        decode_utf8(sum_reply(x)) == decimal(x).push('\n'),
        text_sum(decimal(x).push('\n')) == Ok::<int, SumError>(x),
{
    vstd::utf8::encode_utf8_decode_utf8(decimal(x).push('\n'));
    let d = decimal(x);
    lemma_decimal_no_whitespace(x);
    lemma_single_token(d);
    assert(is_whitespace('\n'));
    assert(d.push('\n').drop_last() =~= d);
    assert(tokens(d.push('\n')) == tokens(d));
    let ts = tokens(d);
    crate::decimal::law_decimal_reads_back(x);
    assert(parse_i32(ts[0]) == Some(x));
    assert(all_parse(ts));
    let v = Seq::new(ts.len(), |i: int| parse_i32(ts[i])->0);
    assert(v =~= seq![x]);
    assert(v.take(1) =~= v);
    assert(v.drop_last() =~= Seq::<int>::empty());
    assert(seq_sum(Seq::<int>::empty()) == 0);
    assert(seq_sum(v) == x);
    assert(running_sums_fit(v));
}

} // verus!

verus! {

/// The sum of a text is the sum of the values of all its tokens, each counted once and in
/// full, whenever every token is an `i32` and no running total overflows.
pub proof fn law_sum_adds_every_token(s: Seq<char>, v: Seq<int>)
    requires
        parse_all(tokens(s)) == Some(v),
        running_sums_fit(v),
    ensures
        text_sum(s) == Ok::<int, SumError>(seq_sum(v)),
        v.len() == tokens(s).len(),
        forall|i: int| 0 <= i < v.len() ==> parse_i32(tokens(s)[i]) == Some(#[trigger] v[i]),
{
}

proof fn lemma_sum_two(a: int, b: int)
    ensures
        seq_sum(seq![a, b]) == a + b,
        seq_sum(seq![a]) == a,
{
    let v = seq![a, b];
    let u = seq![a];
    assert(u.drop_last() =~= Seq::<int>::empty());
    assert(seq_sum(Seq::<int>::empty()) == 0);
    assert(seq_sum(u) == seq_sum(u.drop_last()) + u.last());
    assert(seq_sum(u) == a);
    assert(v.drop_last() =~= u);
    assert(v.last() == b);
    assert(seq_sum(v) == seq_sum(v.drop_last()) + v.last());
}

/// A line holding two integers separated by a space is answered with their sum, whatever the
/// two values are (equal or not), as long as each and the total fit in an `i32`.
pub proof fn law_two_numbers_add(a: int, b: int)
    requires
        fits_i32(a),
        fits_i32(b),
        fits_i32(a + b),
    ensures
        text_sum(decimal(a) + seq![' '] + decimal(b) + seq!['\n']) == Ok::<int, SumError>(a + b),
{
    let da = decimal(a);
    let db = decimal(b);
    let s1 = da.push(' ');
    let s2 = db.push('\n');
    let text = da + seq![' '] + db + seq!['\n'];
    assert(text =~= s1 + s2);
    assert(is_whitespace(' '));
    assert(is_whitespace('\n'));
    law_tokens_split_at_whitespace(s1, s2);
    lemma_decimal_no_whitespace(a);
    lemma_decimal_no_whitespace(b);
    lemma_single_token(da);
    lemma_single_token(db);
    assert(s1.drop_last() =~= da);
    assert(s2.drop_last() =~= db);
    assert(tokens(s1) == seq![da]);
    assert(tokens(s2) == seq![db]);
    let ts = tokens(text);
    assert(ts =~= seq![da, db]);
    crate::decimal::law_decimal_reads_back(a);
    crate::decimal::law_decimal_reads_back(b);
    assert(parse_i32(ts[0]) == Some(a));
    assert(parse_i32(ts[1]) == Some(b));
    assert(all_parse(ts));
    let v = Seq::new(ts.len(), |i: int| parse_i32(ts[i])->0);
    assert(v =~= seq![a, b]);
    lemma_sum_two(a, b);
    assert(v.take(1) =~= seq![a]);
    assert(v.take(2) =~= v);
    assert(running_sums_fit(v)) by {
        assert forall|k: int| 1 <= k <= v.len() implies #[trigger] fits_i32(seq_sum(v.take(k))) by {
            if k == 1 {
            } else {
                assert(k == 2);
            }
        }
    }
}

} // verus!

verus! {

proof fn lemma_seq_sum_concat(v: Seq<int>, w: Seq<int>)
    ensures
        seq_sum(v + w) == seq_sum(v) + seq_sum(w),
    decreases w.len(),
{
    if w.len() == 0 {
        assert(v + w =~= v);
    } else {
        lemma_seq_sum_concat(v, w.drop_last());
        assert((v + w).drop_last() =~= v + w.drop_last());
        assert((v + w).last() == w.last());
    }
}

/// Lines add up: after a text that ends in whitespace (every line ends in a newline), the
/// numbers of the next line are appended to those read before, and the total of all of them
/// is the total before plus the total of the new line.
pub proof fn law_lines_add_up(s: Seq<char>, t: Seq<char>, v: Seq<int>, w: Seq<int>)
    requires
        s.len() == 0 || is_whitespace(s.last()),
        parse_all(tokens(s)) == Some(v),
        parse_all(tokens(t)) == Some(w),
    ensures
        parse_all(tokens(s + t)) == Some(v + w),
        seq_sum(v + w) == seq_sum(v) + seq_sum(w),
{
    law_tokens_split_at_whitespace(s, t);
    let a = tokens(s);
    let b = tokens(t);
    let ab = a + b;
    assert forall|i: int| 0 <= i < ab.len() implies (#[trigger] parse_i32(ab[i])) is Some by {
        if i < a.len() {
            assert(ab[i] == a[i]);
        } else {
            assert(ab[i] == b[i - a.len()]);
        }
    }
    let u = Seq::new(ab.len(), |i: int| parse_i32(ab[i])->0);
    assert forall|i: int| 0 <= i < u.len() implies #[trigger] u[i] == (v + w)[i] by {
        if i < a.len() {
            assert(ab[i] == a[i]);
        } else {
            assert(ab[i] == b[i - a.len()]);
        }
    }
    assert(u =~= v + w);
    lemma_seq_sum_concat(v, w);
}

} // verus!
