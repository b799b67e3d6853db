//! The chunks of a format string give the string back: writing each
//! placeholder of a chunk as the argument it stands for, and joining the
//! chunks in order, restores the text.
use vstd::prelude::*;
use crate::format_chunks::{
    digits_value, find_char, format_chunks, is_digit, lemma_find_char, lemma_position_of, parse_index, position_of,
    split_from, unsigned_digits, Chunk,
};
use crate::strings::{decimal, digit};

verus! {

/// A chunk's text from `cursor` on, with each placeholder `{k}` written as
/// `{ix[k]}`, scanning braces as the split does.
pub open spec fn restore_from(c: Seq<char>, ix: Seq<usize>, cursor: int) -> Seq<char>
    decreases c.len() - cursor,
{
    if cursor < 0 || cursor >= c.len() {
        Seq::empty()
    } else {
        match find_char(c, '{', cursor) {
            None => c.subrange(cursor, c.len() as int),
            Some(open) => match find_char(c, '}', open + 1) {
                None => c.subrange(cursor, c.len() as int),
                Some(close) => if close < cursor || close >= c.len() {
                    Seq::empty()
                } else {
                    match parse_index(c.subrange(open + 1, close)) {
                        Some(k) => if k < ix.len() {
                            c.subrange(cursor, open) + seq!['{'] + decimal(ix[k as int] as nat) + seq!['}']
                                + restore_from(c, ix, close + 1)
                        } else {
                            c.subrange(cursor, close + 1) + restore_from(c, ix, close + 1)
                        },
                        None => c.subrange(cursor, close + 1) + restore_from(c, ix, close + 1),
                    }
                },
            },
        }
    }
}

/// Whether scanning `c` from `cursor` closes every brace it opens.
pub open spec fn closed_from(c: Seq<char>, cursor: int) -> bool
    decreases c.len() - cursor,
{
    if cursor < 0 || cursor >= c.len() {
        true
    } else {
        match find_char(c, '{', cursor) {
            None => true,
            Some(open) => match find_char(c, '}', open + 1) {
                None => false,
                Some(close) => if close < cursor || close >= c.len() {
                    false
                } else {
                    closed_from(c, close + 1)
                },
            },
        }
    }
}

/// The chunks written back and joined in order.
pub open spec fn restored(cs: Seq<Chunk>) -> Seq<char>
    decreases cs.len(),
{
    if cs.len() == 0 {
        Seq::empty()
    } else {
        restored(cs.drop_last()) + restore_from(cs.last().0, cs.last().1, 0)
    }
}

/// Whether every brace group of the text that reads as an index spells it
/// in plain decimal, without sign or leading zeros.
pub open spec fn canonical_markers(text: Seq<char>) -> bool {
    forall|o: int|
        0 <= o < text.len() && text[o] == '{' ==> match #[trigger] find_char(text, '}', o + 1) {
            Some(c) => match parse_index(text.subrange(o + 1, c)) {
                Some(k) => text.subrange(o + 1, c) == decimal(k as nat),
                None => true,
            },
            None => true,
        }
}

/// The first occurrence found is the one a search meets first.
proof fn lemma_find_is(s: Seq<char>, c: char, from: int, i: int)
    requires
        0 <= from <= i < s.len(),
        s[i] == c,
        forall|j: int| from <= j < i ==> s[j] != c,
    ensures
        find_char(s, c, from) == Some(i),
    decreases i - from,
{
    if from < i {
        lemma_find_is(s, c, from + 1, i);
    }
}

/// A search that meets nothing finds nothing.
proof fn lemma_find_none(s: Seq<char>, c: char, from: int)
    requires
        0 <= from,
        forall|j: int| from <= j < s.len() ==> s[j] != c,
    ensures
        find_char(s, c, from) is None,
    decreases s.len() - from,
{
    if from < s.len() {
        lemma_find_none(s, c, from + 1);
    }
}

/// A search in `a + b` past `a` is a search in `b`.
proof fn lemma_find_shift(a: Seq<char>, b: Seq<char>, c: char, j: int)
    requires
        0 <= j,
    ensures
        find_char(a + b, c, a.len() + j) == match find_char(b, c, j) {
            Some(k) => Some(k + a.len()),
            None => None::<int>,
        },
    decreases b.len() - j,
{
    lemma_find_char(b, c, j);
    let s = a + b;
    match find_char(b, c, j) {
        Some(k) => {
            assert forall|q: int| a.len() + j <= q < a.len() + k implies s[q] != c by {
                assert(s[q] == b[q - a.len()]);
            }
            lemma_find_is(s, c, a.len() + j, k + a.len());
        },
        None => {
            assert forall|q: int| a.len() + j <= q < s.len() implies s[q] != c by {
                assert(s[q] == b[q - a.len()]);
            }
            lemma_find_none(s, c, a.len() + j);
        },
    }
}

/// A search in `a + b` from inside `a` finds what `a` holds, else what `b` holds.
proof fn lemma_find_concat(a: Seq<char>, b: Seq<char>, c: char, from: int)
    requires
        0 <= from <= a.len(),
    ensures
        find_char(a + b, c, from) == match find_char(a, c, from) {
            Some(i) => Some(i),
            None => match find_char(b, c, 0) {
                Some(k) => Some(k + a.len()),
                None => None::<int>,
            },
        },
{
    lemma_find_char(a, c, from);
    let s = a + b;
    match find_char(a, c, from) {
        Some(i) => {
            assert forall|q: int| from <= q < i implies s[q] != c by {
                assert(s[q] == a[q]);
            }
            assert(s[i] == a[i]);
            lemma_find_is(s, c, from, i);
        },
        None => {
            lemma_find_shift(a, b, c, 0);
            lemma_find_char(s, c, from);
            lemma_find_char(s, c, a.len() as int);
            if from < a.len() {
                assert forall|q: int| from <= q < a.len() implies s[q] != c by {
                    assert(s[q] == a[q]);
                }
                match find_char(s, c, a.len() as int) {
                    Some(k) => lemma_find_is(s, c, from, k),
                    None => {
                        assert forall|q: int| from <= q < s.len() implies s[q] != c by {
                            if q >= a.len() {
                            }
                        }
                        lemma_find_none(s, c, from);
                    },
                }
            }
        },
    }
}

/// Writing back `a + b` past `a` is writing back `b`.
proof fn lemma_restore_shift(a: Seq<char>, b: Seq<char>, ix: Seq<usize>, j: int)
    requires
        0 <= j,
    ensures
        restore_from(a + b, ix, a.len() + j) == restore_from(b, ix, j),
        closed_from(a + b, a.len() + j) == closed_from(b, j),
    decreases b.len() - j,
{
    let s = a + b;
    let n = a.len() as int;
    if j >= b.len() {
    } else {
        lemma_find_shift(a, b, '{', j);
        lemma_find_char(b, '{', j);
        match find_char(b, '{', j) {
            None => {
                assert(s.subrange(n + j, s.len() as int) =~= b.subrange(j, b.len() as int));
            },
            Some(open) => {
                lemma_find_shift(a, b, '}', open + 1);
                lemma_find_char(b, '}', open + 1);
                match find_char(b, '}', open + 1) {
                    None => {
                        assert(s.subrange(n + j, s.len() as int) =~= b.subrange(j, b.len() as int));
                    },
                    Some(close) => {
                        assert(s.subrange(n + open + 1, n + close) =~= b.subrange(open + 1, close));
                        assert(s.subrange(n + j, n + open) =~= b.subrange(j, open));
                        assert(s.subrange(n + j, n + close + 1) =~= b.subrange(j, close + 1));
                        lemma_restore_shift(a, b, ix, close + 1);
                    },
                }
            },
        }
    }
}

/// Writing back `a + b` from a point of `a` after which `a` opens no brace.
proof fn lemma_restore_plain(a: Seq<char>, b: Seq<char>, ix: Seq<usize>, cursor: int)
    requires
        0 <= cursor <= a.len(),
        find_char(a, '{', cursor) is None,
    ensures
        restore_from(a + b, ix, cursor) == a.subrange(cursor, a.len() as int) + restore_from(b, ix, 0),
        closed_from(a + b, cursor) == closed_from(b, 0),
{
    let s = a + b;
    let n = a.len() as int;
    lemma_restore_shift(a, b, ix, 0);
    if cursor == n {
        assert(a.subrange(cursor, n) =~= Seq::<char>::empty());
        assert(Seq::<char>::empty() + restore_from(b, ix, 0) =~= restore_from(b, ix, 0));
    } else {
        lemma_find_concat(a, b, '{', cursor);
        lemma_find_char(b, '{', 0);
        match find_char(b, '{', 0) {
            None => {
                assert(s.subrange(cursor, s.len() as int) =~= a.subrange(cursor, n) + b);
                if b.len() > 0 {
                    assert(b.subrange(0, b.len() as int) =~= b);
                } else {
                    assert(a.subrange(cursor, n) + b =~= a.subrange(cursor, n));
                }
            },
            Some(open) => {
                lemma_find_shift(a, b, '}', open + 1);
                lemma_find_char(b, '}', open + 1);
                match find_char(b, '}', open + 1) {
                    None => {
                        assert(s.subrange(cursor, s.len() as int) =~= a.subrange(cursor, n) + b);
                        assert(b.subrange(0, b.len() as int) =~= b);
                    },
                    Some(close) => {
                        lemma_restore_shift(a, b, ix, close + 1);
                        assert(s.subrange(n + open + 1, n + close) =~= b.subrange(open + 1, close));
                        assert(s.subrange(cursor, n + open) =~= a.subrange(cursor, n) + b.subrange(0, open));
                        assert(s.subrange(cursor, n + close + 1) =~= a.subrange(cursor, n) + b.subrange(0, close + 1));
                        match parse_index(b.subrange(open + 1, close)) {
                            Some(k) => if k < ix.len() {
                                assert(restore_from(s, ix, cursor) =~= a.subrange(cursor, n) + restore_from(b, ix, 0));
                            } else {
                                assert(restore_from(s, ix, cursor) =~= a.subrange(cursor, n) + restore_from(b, ix, 0));
                            },
                            None => {
                                assert(restore_from(s, ix, cursor) =~= a.subrange(cursor, n) + restore_from(b, ix, 0));
                            },
                        }
                    },
                }
            },
        }
    }
}

/// Writing back `a + b`, where `a` closes every brace it opens, is writing
/// back each in turn.
proof fn lemma_restore_concat(a: Seq<char>, b: Seq<char>, ix: Seq<usize>, cursor: int)
    requires
        0 <= cursor <= a.len(),
        closed_from(a, cursor),
    ensures
        restore_from(a + b, ix, cursor) == restore_from(a, ix, cursor) + restore_from(b, ix, 0),
        closed_from(a + b, cursor) == closed_from(b, 0),
    decreases a.len() - cursor,
{
    let s = a + b;
    let n = a.len() as int;
    if cursor == n {
        lemma_restore_shift(a, b, ix, 0);
        assert(Seq::<char>::empty() + restore_from(b, ix, 0) =~= restore_from(b, ix, 0));
    } else {
        lemma_find_char(a, '{', cursor);
        match find_char(a, '{', cursor) {
            None => {
                lemma_restore_plain(a, b, ix, cursor);
            },
            Some(open) => {
                lemma_find_concat(a, b, '{', cursor);
                lemma_find_concat(a, b, '}', open + 1);
                lemma_find_char(a, '}', open + 1);
                let close = find_char(a, '}', open + 1).unwrap();
                assert(s.subrange(open + 1, close) =~= a.subrange(open + 1, close));
                assert(s.subrange(cursor, open) =~= a.subrange(cursor, open));
                assert(s.subrange(cursor, close + 1) =~= a.subrange(cursor, close + 1));
                lemma_restore_concat(a, b, ix, close + 1);
                match parse_index(a.subrange(open + 1, close)) {
                    Some(k) => if k < ix.len() {
                        assert(restore_from(s, ix, cursor) =~= restore_from(a, ix, cursor) + restore_from(b, ix, 0));
                    } else {
                        assert(restore_from(s, ix, cursor) =~= restore_from(a, ix, cursor) + restore_from(b, ix, 0));
                    },
                    None => {
                        assert(restore_from(s, ix, cursor) =~= restore_from(a, ix, cursor) + restore_from(b, ix, 0));
                    },
                }
            },
        }
    }
}

/// The decimal spelling of a number is a nonempty run of digits, which
/// reads back as the number.
proof fn lemma_decimal_reads_back(n: nat)
    ensures
        decimal(n).len() > 0,
        forall|k: int| 0 <= k < decimal(n).len() ==> is_digit(#[trigger] decimal(n)[k]),
        digits_value(decimal(n)) == n,
    decreases n,
{
    if n >= 10 {
        lemma_decimal_reads_back(n / 10);
        let d = decimal(n / 10);
        assert(decimal(n) == d.push(digit(n % 10)));
        assert(decimal(n).drop_last() =~= d);
        assert(digit(n % 10) as nat == 48 + n % 10);
        assert forall|k: int| 0 <= k < decimal(n).len() implies is_digit(#[trigger] decimal(n)[k]) by {
            if k < d.len() {
                assert(decimal(n)[k] == d[k]);
            }
        }
        assert(decimal(n).last() == digit(n % 10));
        assert(digits_value(decimal(n)) == digits_value(d) * 10 + (digit(n % 10) as nat - '0' as nat) as nat);
        assert(n == (n / 10) * 10 + n % 10);
    } else {
        assert(digit(n) as nat == 48 + n);
        assert(decimal(n) == seq![digit(n)]);
        assert(decimal(n).drop_last() =~= Seq::<char>::empty());
        assert(digits_value(Seq::<char>::empty()) == 0);
        assert(digits_value(decimal(n)) == digits_value(decimal(n).drop_last()) * 10 + (decimal(n).last() as nat
            - '0' as nat) as nat);
    }
}

/// A placeholder spelled in decimal reads as its number.
proof fn lemma_parse_decimal(n: usize)
    ensures
        parse_index(decimal(n as nat)) == Some(n),
{
    lemma_decimal_reads_back(n as nat);
    let d = decimal(n as nat);
    assert(is_digit(d[0]));
    assert(unsigned_digits(d) == d);
}

/// Whether `ix2` starts with `ix`.
pub open spec fn extends(ix2: Seq<usize>, ix: Seq<usize>) -> bool {
    ix.len() <= ix2.len() && forall|k: int| 0 <= k < ix.len() ==> ix2[k] == ix[k]
}

/// A brace group that reads as no index, with the text before it, is
/// written back as itself and closes its brace.
proof fn lemma_unread_group(text: Seq<char>, cursor: int, open: int, close: int, ix: Seq<usize>)
    requires
        0 <= cursor,
        find_char(text, '{', cursor) == Some(open),
        find_char(text, '}', open + 1) == Some(close),
        parse_index(text.subrange(open + 1, close)) is None,
    ensures
        restore_from(text.subrange(cursor, close + 1), ix, 0) == text.subrange(cursor, close + 1),
        closed_from(text.subrange(cursor, close + 1), 0),
{
    lemma_find_char(text, '{', cursor);
    lemma_find_char(text, '}', open + 1);
    let seg = text.subrange(cursor, close + 1);
    assert forall|j: int| 0 <= j < open - cursor implies seg[j] != '{' by {
        assert(seg[j] == text[cursor + j]);
    }
    lemma_find_is(seg, '{', 0, open - cursor);
    assert forall|j: int| open - cursor + 1 <= j < close - cursor implies seg[j] != '}' by {
        assert(seg[j] == text[cursor + j]);
    }
    lemma_find_is(seg, '}', open - cursor + 1, close - cursor);
    assert(seg.subrange(open - cursor + 1, close - cursor) =~= text.subrange(open + 1, close));
    assert(parse_index(seg.subrange(open - cursor + 1, close - cursor)) is None);
    assert(seg.subrange(0, close - cursor + 1) =~= seg);
    assert(restore_from(seg, ix, close - cursor + 1) == Seq::<char>::empty());
    assert(closed_from(seg, close - cursor + 1));
    assert(restore_from(seg, ix, 0) == seg.subrange(0, close - cursor + 1) + restore_from(seg, ix, close - cursor + 1));
    assert(seg + Seq::<char>::empty() =~= seg);
}

/// Text without a brace, then the placeholder `{local}`, is written back
/// with the argument the placeholder stands for, and closes its brace.
proof fn lemma_placeholder(p: Seq<char>, local: usize, ix: Seq<usize>)
    requires
        forall|j: int| 0 <= j < p.len() ==> p[j] != '{',
        local < ix.len(),
    ensures
        restore_from(p + seq!['{'] + decimal(local as nat) + seq!['}'], ix, 0) == p + seq!['{'] + decimal(
            ix[local as int] as nat,
        ) + seq!['}'],
        closed_from(p + seq!['{'] + decimal(local as nat) + seq!['}'], 0),
{
    let d = decimal(local as nat);
    lemma_decimal_reads_back(local as nat);
    lemma_parse_decimal(local);
    let seg = p + seq!['{'] + d + seq!['}'];
    let n = p.len() as int;
    assert(seg[n] == '{');
    assert forall|j: int| 0 <= j < n implies seg[j] != '{' by {
        assert(seg[j] == p[j]);
    }
    lemma_find_is(seg, '{', 0, n);
    assert forall|j: int| n + 1 <= j < n + 1 + d.len() implies seg[j] != '}' by {
        assert(seg[j] == d[j - n - 1]);
        assert(is_digit(d[j - n - 1]));
    }
    assert(seg[n + 1 + d.len()] == '}');
    lemma_find_is(seg, '}', n + 1, n + 1 + d.len());
    assert(seg.subrange(n + 1, n + 1 + d.len()) =~= d);
    assert(parse_index(seg.subrange(n + 1, n + 1 + d.len())) == Some(local));
    assert(seg.subrange(0, n) =~= p);
    let after = n + 1 + d.len() + 1;
    assert(seg.len() == after);
    assert(restore_from(seg, ix, after) == Seq::<char>::empty());
    assert(closed_from(seg, after));
    assert(restore_from(seg, ix, 0) == seg.subrange(0, n) + seq!['{'] + decimal(ix[local as int] as nat) + seq!['}']
        + restore_from(seg, ix, after));
    assert(p + seq!['{'] + decimal(ix[local as int] as nat) + seq!['}'] + Seq::<char>::empty() =~= p + seq!['{']
        + decimal(ix[local as int] as nat) + seq!['}']);
}

/// What remains of a text that opens no brace it closes is written back as itself.
proof fn lemma_unclosed_rest(text: Seq<char>, cursor: int, ix: Seq<usize>)
    requires
        0 <= cursor < text.len(),
        find_char(text, '{', cursor) matches Some(open) ==> find_char(text, '}', open + 1) is None,
    ensures
        restore_from(text.subrange(cursor, text.len() as int), ix, 0) == text.subrange(cursor, text.len() as int),
{
    let rest = text.subrange(cursor, text.len() as int);
    lemma_find_char(text, '{', cursor);
    match find_char(text, '{', cursor) {
        None => {
            assert forall|j: int| 0 <= j < rest.len() implies rest[j] != '{' by {
                assert(rest[j] == text[cursor + j]);
            }
            lemma_find_none(rest, '{', 0);
            assert(rest.subrange(0, rest.len() as int) =~= rest);
        },
        Some(open) => {
            lemma_find_char(text, '}', open + 1);
            assert forall|j: int| 0 <= j < open - cursor implies rest[j] != '{' by {
                assert(rest[j] == text[cursor + j]);
            }
            lemma_find_is(rest, '{', 0, open - cursor);
            assert forall|j: int| open - cursor + 1 <= j < rest.len() implies rest[j] != '}' by {
                assert(rest[j] == text[cursor + j]);
            }
            lemma_find_none(rest, '}', open - cursor + 1);
            assert(rest.subrange(0, rest.len() as int) =~= rest);
        },
    }
}

/// The split gives the text back: from any point of it, what is closed,
/// written back, then the open chunk written back, then the text read but
/// not placed, is the text so far.
proof fn lemma_split_restores(
    text: Seq<char>,
    argc: usize,
    cursor: int,
    chunks: Seq<Chunk>,
    current: Seq<char>,
    indices: Seq<usize>,
    pending: Seq<char>,
    r: Seq<char>,
)
    requires
        canonical_markers(text),
        0 <= cursor <= text.len(),
        indices.len() <= 3,
        restored(chunks) + r + pending == text.subrange(0, cursor),
        forall|ix2: Seq<usize>| extends(ix2, indices) ==> #[trigger] restore_from(current, ix2, 0) == r,
        closed_from(current, 0),
        closed_from(pending, 0),
        forall|ix: Seq<usize>| #[trigger] restore_from(pending, ix, 0) == pending,
    ensures
        split_from(text, argc, cursor, chunks, current, indices, pending) matches Some(cs) ==> restored(cs) == text,
    decreases text.len() - cursor, 1nat,
{
    assert(extends(indices, indices));
    assert(restore_from(current, indices, 0) == r);
    assert(restore_from(pending, indices, 0) == pending);
    if cursor >= text.len() {
        lemma_restore_concat(current, pending, indices, 0);
        assert(text.subrange(0, cursor) =~= text);
        assert(restored(chunks) + (r + pending) =~= restored(chunks) + r + pending);
        finish_restores(text, chunks, current + pending, indices, r + pending);
    } else {
        let rest = text.subrange(cursor, text.len() as int);
        lemma_find_char(text, '{', cursor);
        match find_char(text, '{', cursor) {
            None => {
                lemma_unclosed_rest(text, cursor, indices);
                lemma_restore_concat(pending, rest, indices, 0);
                lemma_restore_concat(current, pending + rest, indices, 0);
                assert(text.subrange(0, cursor) + rest =~= text);
                assert(restored(chunks) + (r + (pending + rest)) =~= restored(chunks) + r + pending + rest);
                finish_restores(text, chunks, current + (pending + rest), indices, r + (pending + rest));
            },
            Some(open) => {
                lemma_find_char(text, '}', open + 1);
                match find_char(text, '}', open + 1) {
                    None => {
                        lemma_unclosed_rest(text, cursor, indices);
                        lemma_restore_concat(pending, rest, indices, 0);
                        lemma_restore_concat(current, pending + rest, indices, 0);
                        assert(text.subrange(0, cursor) + rest =~= text);
                        assert(restored(chunks) + (r + (pending + rest)) =~= restored(chunks) + r + pending + rest);
                        finish_restores(text, chunks, current + (pending + rest), indices, r + (pending + rest));
                    },
                    Some(close) => {
                        let seg = text.subrange(cursor, close + 1);
                        assert(text.subrange(0, close + 1) =~= text.subrange(0, cursor) + seg);
                        match parse_index(text.subrange(open + 1, close)) {
                            None => {
                                lemma_unread_group(text, cursor, open, close, indices);
                                let pending2 = pending + seg;
                                lemma_restore_concat(pending, seg, indices, 0);
                                assert forall|ix: Seq<usize>| #[trigger] restore_from(pending2, ix, 0) == pending2 by {
                                    lemma_unread_group(text, cursor, open, close, ix);
                                    lemma_restore_concat(pending, seg, ix, 0);
                                }
                                assert(restored(chunks) + r + pending2 =~= text.subrange(0, close + 1));
                                lemma_split_restores(text, argc, close + 1, chunks, current, indices, pending2, r);
                            },
                            Some(index) => if index < argc {
                                marker_restores(text, argc, cursor, open, close, index, chunks, current, indices, pending, r);
                            },
                        }
                    },
                }
            },
        }
    }
}

/// The last step of the split gives the text back.
proof fn finish_restores(text: Seq<char>, chunks: Seq<Chunk>, current: Seq<char>, indices: Seq<usize>, r: Seq<char>)
    requires
        restored(chunks) + r == text,
        restore_from(current, indices, 0) == r,
    ensures
        restored(crate::format_chunks::finish_chunks(text, chunks, current, indices)) == text,
{
    if current.len() == 0 && chunks.len() == 0 {
        assert(r == Seq::<char>::empty());
        assert(text =~= Seq::<char>::empty());
        let cs = seq![(text, Seq::<usize>::empty())];
        assert(cs.drop_last() =~= Seq::<Chunk>::empty());
        assert(restored(Seq::<Chunk>::empty()) == Seq::<char>::empty());
        assert(restore_from(text, Seq::<usize>::empty(), 0) == Seq::<char>::empty());
        assert(restored(cs) == restored(cs.drop_last()) + restore_from(cs.last().0, cs.last().1, 0));
        assert(restored(cs) =~= text);
    } else {
        let cs = chunks.push((current, indices));
        assert(cs.drop_last() =~= chunks);
    }
}

/// Text without a brace and a placeholder, after text that is written back
/// as itself, are written back with the argument in place of the placeholder.
proof fn lemma_pending_placeholder(
    pending: Seq<char>,
    plain: Seq<char>,
    local: usize,
    ix: Seq<usize>,
    index: usize,
)
    requires
        forall|j: int| 0 <= j < plain.len() ==> plain[j] != '{',
        local < ix.len(),
        ix[local as int] == index,
        closed_from(pending, 0),
        restore_from(pending, ix, 0) == pending,
    ensures
        restore_from(pending + (plain + (seq!['{'] + decimal(local as nat) + seq!['}'])), ix, 0) == pending + (
        plain + seq!['{'] + decimal(index as nat) + seq!['}']),
        closed_from(pending + (plain + (seq!['{'] + decimal(local as nat) + seq!['}'])), 0),
{
    let tail = plain + (seq!['{'] + decimal(local as nat) + seq!['}']);
    assert(tail =~= plain + seq!['{'] + decimal(local as nat) + seq!['}']);
    lemma_placeholder(plain, local, ix);
    lemma_restore_concat(pending, tail, ix, 0);
}

/// A placeholder step of the split keeps the text given back.
#[verifier::rlimit(50)]
proof fn marker_restores(
    text: Seq<char>,
    argc: usize,
    cursor: int,
    open: int,
    close: int,
    index: usize,
    chunks: Seq<Chunk>,
    current: Seq<char>,
    indices: Seq<usize>,
    pending: Seq<char>,
    r: Seq<char>,
)
    requires
        canonical_markers(text),
        0 <= cursor < text.len(),
        find_char(text, '{', cursor) == Some(open),
        find_char(text, '}', open + 1) == Some(close),
        parse_index(text.subrange(open + 1, close)) == Some(index),
        index < argc,
        indices.len() <= 3,
        restored(chunks) + r + pending == text.subrange(0, cursor),
        forall|ix2: Seq<usize>| extends(ix2, indices) ==> #[trigger] restore_from(current, ix2, 0) == r,
        closed_from(current, 0),
        closed_from(pending, 0),
        forall|ix: Seq<usize>| #[trigger] restore_from(pending, ix, 0) == pending,
    ensures
        split_from(text, argc, cursor, chunks, current, indices, pending) matches Some(cs) ==> restored(cs) == text,
    decreases text.len() - cursor, 0nat,
{
    lemma_find_char(text, '{', cursor);
    lemma_find_char(text, '}', open + 1);
    let plain = text.subrange(cursor, open);
    let seg = text.subrange(cursor, close + 1);
    let back = plain + seq!['{'] + decimal(index as nat) + seq!['}'];
    assert(text.subrange(0, close + 1) =~= text.subrange(0, cursor) + seg);
    assert(text[open] == '{');
    assert(text.subrange(open + 1, close) == decimal(index as nat));
    assert(seg =~= back);
    assert forall|j: int| 0 <= j < plain.len() implies plain[j] != '{' by {
        assert(plain[j] == text[cursor + j]);
    }
    let pending2 = pending + plain;
    let full = indices.len() == 3 && position_of(indices, index) is None;
    let chunks2 = if full { chunks.push((current, indices)) } else { chunks };
    let current2 = if full { pending2 } else { current + pending2 };
    let indices2 = if full { Seq::<usize>::empty() } else { indices };
    lemma_position_of(indices2, index);
    let local = match position_of(indices2, index) {
        Some(k) => k,
        None => indices2.len() as int,
    };
    let indices3 = match position_of(indices2, index) {
        Some(k) => indices2,
        None => indices2.push(index),
    };
    assert(0 <= local < indices3.len() <= 3 && indices3[local] == index);
    assert(extends(indices3, indices2));
    let m = seq!['{'] + decimal(local as nat) + seq!['}'];
    let next = current2 + seq!['{'] + decimal(local as nat) + seq!['}'];
    let r2 = if full { pending + back } else { r + (pending + back) };
    assert forall|ix2: Seq<usize>| extends(ix2, indices3) implies #[trigger] restore_from(next, ix2, 0) == r2
        && closed_from(next, 0) by {
        assert(ix2[local] == index);
        lemma_pending_placeholder(pending, plain, local as usize, ix2, index);
        if full {
            assert(next =~= pending + (plain + m));
        } else {
            assert(next =~= current + (pending + (plain + m)));
            assert(extends(ix2, indices));
            lemma_restore_concat(current, pending + (plain + m), ix2, 0);
        }
    }
    assert(extends(indices3, indices3));
    assert(restore_from(next, indices3, 0) == r2);
    assert(closed_from(next, 0));
    if full {
        let cs2 = chunks.push((current, indices));
        assert(cs2.drop_last() =~= chunks);
        assert(extends(indices, indices));
        assert(restored(chunks2) == restored(chunks) + r);
    }
    assert(restored(chunks2) + r2 + Seq::<char>::empty() =~= text.subrange(0, close + 1));
    assert(closed_from(Seq::<char>::empty(), 0));
    assert forall|ix: Seq<usize>| #[trigger] restore_from(Seq::<char>::empty(), ix, 0) == Seq::<char>::empty() by {}
    lemma_split_restores(text, argc, close + 1, chunks2, next, indices3, Seq::empty(), r2);
}

/// Where every placeholder of a format string is spelled in plain decimal,
/// its chunks give it back: each placeholder of a chunk written as the
/// argument it stands for, and the chunks joined in order, are the text.
pub proof fn lemma_chunks_restore_text(text: Seq<char>, argc: usize)
    requires
        canonical_markers(text),
    ensures
        format_chunks(text, argc) matches Some(cs) ==> restored(cs) == text,
{
    let e = Seq::<char>::empty();
    assert(restored(Seq::<Chunk>::empty()) + e + e =~= text.subrange(0, 0));
    assert forall|ix: Seq<usize>| #[trigger] restore_from(e, ix, 0) == e by {}
    lemma_split_restores(text, argc, 0, Seq::empty(), e, Seq::empty(), e, e);
}

} // verus!
