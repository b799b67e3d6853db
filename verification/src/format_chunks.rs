//! The split of a format string into chunks of at most three distinct
//! arguments each, as the Workshop's custom strings allow.
use vstd::prelude::*;
use crate::strings::{chars_of, decimal, decimal_chars, push_chars, string_of};

verus! {

/// The first position from `from` on that holds `c`.
pub open spec fn find_char(s: Seq<char>, c: char, from: int) -> Option<int>
    decreases s.len() - from,
{
    if from < 0 || from >= s.len() {
        None
    } else if s[from] == c {
        Some(from)
    } else {
        find_char(s, c, from + 1)
    }
}

pub open spec fn is_digit(c: char) -> bool {
    '0' <= c && c <= '9'
}

/// The value of a string of decimal digits.
pub open spec fn digits_value(d: Seq<char>) -> nat
    decreases d.len(),
{
    if d.len() == 0 {
        0
    } else {
        digits_value(d.drop_last()) * 10 + (d.last() as nat - '0' as nat) as nat
    }
}

/// What `str::parse::<usize>` gives: an optional `+`, then at least one
/// decimal digit and nothing else, of a value that fits in `usize`.
/// The characters after an optional leading `+`.
pub open spec fn unsigned_digits(m: Seq<char>) -> Seq<char> {
    if m.len() > 0 && m[0] == '+' {
        m.skip(1)
    } else {
        m
    }
}

pub open spec fn parse_index(m: Seq<char>) -> Option<usize> {
    let d = unsigned_digits(m);
    if d.len() > 0 && (forall|k: int| 0 <= k < d.len() ==> is_digit(#[trigger] d[k]))
        && digits_value(d) <= usize::MAX {
        Some(digits_value(d) as usize)
    } else {
        None
    }
}

/// Where `v` occurs first in `s`.
pub open spec fn position_of(s: Seq<usize>, v: usize) -> Option<int>
    decreases s.len(),
{
    if s.len() == 0 {
        None
    } else if s[0] == v {
        Some(0)
    } else {
        match position_of(s.skip(1), v) {
            Some(k) => Some(k + 1),
            None => None,
        }
    }
}

pub type Chunk = (Seq<char>, Seq<usize>);

/// The chunks once the text is read: the open chunk closes the list, but a
/// text without placeholders is one chunk of itself.
pub open spec fn finish_chunks(text: Seq<char>, chunks: Seq<Chunk>, current: Seq<char>, indices: Seq<
    usize,
>) -> Seq<Chunk> {
    if current.len() == 0 && chunks.len() == 0 {
        seq![(text, Seq::<usize>::empty())]
    } else {
        chunks.push((current, indices))
    }
}

/// The split from `cursor` on: `chunks` are closed, `current` is the open
/// chunk with its distinct argument `indices`, and `pending` is text read
/// but not yet placed.
pub open spec fn split_from(
    text: Seq<char>,
    argc: usize,
    cursor: int,
    chunks: Seq<Chunk>,
    current: Seq<char>,
    indices: Seq<usize>,
    pending: Seq<char>,
) -> Option<Seq<Chunk>>
    decreases text.len() - cursor,
{
    if cursor < 0 || cursor >= text.len() {
        Some(finish_chunks(text, chunks, current + pending, indices))
    } else {
        match find_char(text, '{', cursor) {
            None => Some(
                finish_chunks(
                    text,
                    chunks,
                    current + (pending + text.subrange(cursor, text.len() as int)),
                    indices,
                ),
            ),
            Some(open) => match find_char(text, '}', open + 1) {
                None => Some(
                    finish_chunks(
                        text,
                        chunks,
                        current + (pending + text.subrange(cursor, text.len() as int)),
                        indices,
                    ),
                ),
                Some(close) => if close < cursor || close >= text.len() {
                    None
                } else {
                    match parse_index(text.subrange(open + 1, close)) {
                        None => split_from(
                            text,
                            argc,
                            close + 1,
                            chunks,
                            current,
                            indices,
                            pending + text.subrange(cursor, close + 1),
                        ),
                        Some(index) => if index >= argc {
                            None
                        } else {
                            let pending2 = pending + text.subrange(cursor, open);
                            let full = indices.len() == 3 && position_of(indices, index) is None;
                            let chunks2 = if full {
                                chunks.push((current, indices))
                            } else {
                                chunks
                            };
                            let current2 = if full {
                                pending2
                            } else {
                                current + pending2
                            };
                            let indices2 = if full {
                                Seq::<usize>::empty()
                            } else {
                                indices
                            };
                            let local = match position_of(indices2, index) {
                                Some(k) => k,
                                None => indices2.len() as int,
                            };
                            let indices3 = match position_of(indices2, index) {
                                Some(k) => indices2,
                                None => indices2.push(index),
                            };
                            split_from(
                                text,
                                argc,
                                close + 1,
                                chunks2,
                                current2 + seq!['{'] + decimal(local as nat) + seq!['}'],
                                indices3,
                                Seq::empty(),
                            )
                        },
                    }
                },
            },
        }
    }
}

/// The chunks of a format string with `argc` arguments, or `None` when a
/// placeholder names an argument that does not exist.
pub open spec fn format_chunks(text: Seq<char>, argc: usize) -> Option<Seq<Chunk>> {
    split_from(text, argc, 0, Seq::empty(), Seq::empty(), Seq::empty(), Seq::empty())
}

pub open spec fn chunk_views(v: Seq<(String, Vec<usize>)>) -> Seq<Chunk> {
    v.map_values(|c: (String, Vec<usize>)| (c.0@, c.1@))
}

pub proof fn lemma_find_char(s: Seq<char>, c: char, from: int)
    ensures
        match find_char(s, c, from) {
            Some(i) => 0 <= from <= i < s.len() && s[i] == c && forall|j: int| from <= j < i ==> s[j] != c,
            None => forall|j: int| 0 <= from <= j < s.len() ==> s[j] != c,
        },
    decreases s.len() - from,
{
    if 0 <= from < s.len() && s[from] != c {
        lemma_find_char(s, c, from + 1);
    }
}

pub(crate) fn find_from(s: &Vec<char>, c: char, from: usize) -> (r: Option<usize>)
    requires
        from <= s@.len(),
    ensures
        match find_char(s@, c, from as int) {
            Some(i) => r == Some(i as usize),
            None => r is None,
        },
{
    proof {
        lemma_find_char(s@, c, from as int);
    }
    let mut k = from;
    while k < s.len()
        invariant
            from <= k <= s@.len(),
            find_char(s@, c, from as int) == find_char(s@, c, k as int),
        decreases s@.len() - k,
    {
        if s[k] == c {
            return Some(k);
        }
        k = k + 1;
    }
    None
}

/// `str::parse::<usize>` on the characters `s[a..b]`.
fn parse_usize(s: &Vec<char>, a: usize, b: usize) -> (r: Option<usize>)
    requires
        a <= b <= s@.len(),
    ensures
        r == parse_index(s@.subrange(a as int, b as int)),
{
    let ghost m = s@.subrange(a as int, b as int);
    let mut start = a;
    if a < b && s[a] == '+' {
        start = a + 1;
    }
    let ghost d = s@.subrange(start as int, b as int);
    assert(d =~= unsigned_digits(m));
    if start == b {
        return None;
    }
    let mut value: usize = 0;
    let mut k = start;
    let mut overflow = false;
    while k < b
        invariant
            start <= k <= b <= s@.len(),
            m == s@.subrange(a as int, b as int),
            d == s@.subrange(start as int, b as int),
            d == unsigned_digits(m),
            forall|j: int| start <= j < k ==> is_digit(#[trigger] s@[j]),
            !overflow ==> value == digits_value(s@.subrange(start as int, k as int)),
            overflow ==> digits_value(s@.subrange(start as int, k as int)) > usize::MAX,
        decreases b - k,
    {
        let c = s[k];
        if !('0' <= c && c <= '9') {
            assert(d[k - start] == c);
            assert(!is_digit(d[k - start]));
            assert(!(forall|j: int| 0 <= j < d.len() ==> is_digit(#[trigger] d[j])));
            assert(parse_index(m) is None);
            return None;
        }
        let digit = (c as u32 - '0' as u32) as usize;
        let ghost prefix = s@.subrange(start as int, k + 1);
        assert(prefix.drop_last() =~= s@.subrange(start as int, k as int));
        assert(prefix.last() == c);
        if !overflow {
            if value > (usize::MAX - digit) / 10 {
                overflow = true;
                assert(digits_value(prefix) > usize::MAX) by (nonlinear_arith)
                    requires
                        digits_value(prefix) == value * 10 + digit,
                        value > (usize::MAX - digit) / 10,
                        digit <= 9,
                ;
            } else {
                assert(value * 10 + digit <= usize::MAX) by (nonlinear_arith)
                    requires
                        value <= (usize::MAX - digit) / 10,
                        digit <= 9,
                ;
                value = value * 10 + digit;
            }
        } else {
            assert(digits_value(prefix) > usize::MAX) by (nonlinear_arith)
                requires
                    digits_value(prefix) == digits_value(prefix.drop_last()) * 10 + digit,
                    digits_value(prefix.drop_last()) > usize::MAX,
            ;
        }
        k = k + 1;
    }
    assert(d =~= s@.subrange(start as int, b as int));
    assert forall|j: int| 0 <= j < d.len() implies is_digit(#[trigger] d[j]) by {
        assert(d[j] == s@[start + j]);
    }
    if overflow {
        None
    } else {
        Some(value)
    }
}

pub proof fn lemma_position_of(s: Seq<usize>, v: usize)
    ensures
        match position_of(s, v) {
            Some(k) => 0 <= k < s.len() && s[k] == v,
            None => forall|k: int| 0 <= k < s.len() ==> s[k] != v,
        },
    decreases s.len(),
{
    if s.len() > 0 && s[0] != v {
        lemma_position_of(s.skip(1), v);
        if position_of(s.skip(1), v) is None {
            assert forall|k: int| 0 <= k < s.len() implies s[k] != v by {
                if k > 0 {
                    assert(s[k] == s.skip(1)[k - 1]);
                }
            }
        }
    }
}

fn position_in(v: &Vec<usize>, x: usize) -> (r: Option<usize>)
    ensures
        match r {
            Some(k) => position_of(v@, x) == Some(k as int),
            None => position_of(v@, x) is None,
        },
{
    proof {
        lemma_position_of(v@, x);
    }
    let mut k: usize = 0;
    assert(v@.skip(0) =~= v@);
    while k < v.len()
        invariant
            k <= v@.len(),
            position_of(v@, x) == match position_of(v@.skip(k as int), x) {
                Some(p) => Some(p + k),
                None => None::<int>,
            },
        decreases v@.len() - k,
    {
        assert(v@.skip(k as int).skip(1) =~= v@.skip(k + 1));
        if v[k] == x {
            return Some(k);
        }
        k = k + 1;
    }
    None
}

fn push_range(out: &mut Vec<char>, s: &Vec<char>, a: usize, b: usize)
    requires
        a <= b <= s@.len(),
    ensures
        final(out)@ == old(out)@ + s@.subrange(a as int, b as int),
{
    let ghost start = out@;
    let mut k = a;
    while k < b
        invariant
            a <= k <= b <= s@.len(),
            out@ == start + s@.subrange(a as int, k as int),
        decreases b - k,
    {
        out.push(s[k]);
        k = k + 1;
        assert(out@ =~= start + s@.subrange(a as int, k as int));
    }
}

fn close_chunk(chunks: &mut Vec<(String, Vec<usize>)>, current: &Vec<char>, indices: Vec<usize>)
    ensures
        chunk_views(final(chunks)@) == chunk_views(old(chunks)@).push((current@, indices@)),
{
    chunks.push((string_of(current), indices));
    assert(chunk_views(chunks@) =~= chunk_views(old(chunks)@).push((current@, indices@)));
}

/// Split a format string with `arg_count` arguments into chunks of at most
/// three distinct arguments, renumbering each chunk's placeholders from 0;
/// `None` when a placeholder names a missing argument.
pub fn split_format_chunks(text: &str, arg_count: usize) -> (r: Option<Vec<(String, Vec<usize>)>>)
    ensures
        match format_chunks(text@, arg_count) {
            Some(cs) => r matches Some(v) && chunk_views(v@) == cs,
            None => r is None,
        },
{
    let s = chars_of(text);
    let n = s.len();
    let mut chunks: Vec<(String, Vec<usize>)> = Vec::new();
    let mut current: Vec<char> = Vec::new();
    let mut indices: Vec<usize> = Vec::new();
    let mut pending: Vec<char> = Vec::new();
    let mut cursor: usize = 0;
    assert(chunk_views(chunks@) =~= Seq::<Chunk>::empty());
    while cursor < n
        invariant
            n == s@.len(),
            s@ == text@,
            cursor <= n,
            format_chunks(text@, arg_count) == split_from(
                s@,
                arg_count,
                cursor as int,
                chunk_views(chunks@),
                current@,
                indices@,
                pending@,
            ),
        decreases n - cursor,
    {
        let ghost c0 = cursor as int;
        let ghost ch0 = chunk_views(chunks@);
        let ghost cur0 = current@;
        let ghost ind0 = indices@;
        let ghost pen0 = pending@;
        let ghost result = split_from(s@, arg_count, c0, ch0, cur0, ind0, pen0);
        proof {
            lemma_find_char(s@, '{', cursor as int);
        }
        let open = match find_from(&s, '{', cursor) {
            Some(o) => o,
            None => {
                push_range(&mut pending, &s, cursor, n);
                cursor = n;
                assert(result == split_from(s@, arg_count, n as int, ch0, cur0, ind0, pending@));
                continue;
            },
        };
        proof {
            lemma_find_char(s@, '}', open + 1);
        }
        let close = match find_from(&s, '}', open + 1) {
            Some(c) => c,
            None => {
                push_range(&mut pending, &s, cursor, n);
                cursor = n;
                assert(result == split_from(s@, arg_count, n as int, ch0, cur0, ind0, pending@));
                continue;
            },
        };
        match parse_usize(&s, open + 1, close) {
            None => {
                push_range(&mut pending, &s, cursor, close + 1);
                cursor = close + 1;
                assert(result == split_from(
                    s@,
                    arg_count,
                    cursor as int,
                    ch0,
                    cur0,
                    ind0,
                    pending@,
                ));
            },
            Some(index) => {
                if index >= arg_count {
                    return None;
                }
                push_range(&mut pending, &s, cursor, open);
                let ghost pending2 = pending@;
                let known = position_in(&indices, index);
                let full = indices.len() == 3 && known.is_none();
                if full {
                    let old_indices = indices;
                    indices = Vec::new();
                    close_chunk(&mut chunks, &current, old_indices);
                    current = Vec::new();
                }
                let ghost chunks2 = chunk_views(chunks@);
                let ghost indices2 = indices@;
                push_chars(&mut current, &pending);
                let ghost current2 = current@;
                assert(current2 =~= (if full {
                    pending2
                } else {
                    cur0 + pending2
                }));
                pending = Vec::new();
                let local = match position_in(&indices, index) {
                    Some(k) => k,
                    None => {
                        indices.push(index);
                        indices.len() - 1
                    },
                };
                current.push('{');
                let digits = decimal_chars(local as u64);
                push_chars(&mut current, &digits);
                current.push('}');
                cursor = close + 1;
                assert(current@ =~= current2 + seq!['{'] + decimal(local as nat) + seq!['}']);
                assert(pending@ =~= Seq::<char>::empty());
                assert(find_char(s@, '{', c0) == Some(open as int));
                assert(find_char(s@, '}', open + 1) == Some(close as int));
                assert(parse_index(s@.subrange(open + 1, close as int)) == Some(index));
                assert(pending2 == pen0 + s@.subrange(c0, open as int));
                assert(full == (ind0.len() == 3 && position_of(ind0, index) is None));
                assert(chunks2 == (if full { ch0.push((cur0, ind0)) } else { ch0 }));
                assert(indices2 == (if full { Seq::<usize>::empty() } else { ind0 }));
                assert(local as int == match position_of(indices2, index) {
                    Some(k) => k,
                    None => indices2.len() as int,
                });
                assert(indices@ == match position_of(indices2, index) {
                    Some(k) => indices2,
                    None => indices2.push(index),
                });
                assert(result == split_from(
                    s@,
                    arg_count,
                    cursor as int,
                    chunk_views(chunks@),
                    current@,
                    indices@,
                    pending@,
                ));
            },
        }
    }
    push_chars(&mut current, &pending);
    if current.len() == 0 && chunks.len() == 0 {
        let mut only: Vec<(String, Vec<usize>)> = Vec::new();
        only.push((string_of(&s), Vec::new()));
        assert(chunk_views(only@) =~= seq![(text@, Seq::<usize>::empty())]);
        return Some(only);
    }
    close_chunk(&mut chunks, &current, indices);
    Some(chunks)
}

/// Whether a chunk names at most three distinct arguments, each of them one
/// of the `argc` arguments.
pub open spec fn chunk_ok(c: Chunk, argc: usize) -> bool {
    &&& c.1.len() <= 3
    &&& forall|k: int| 0 <= k < c.1.len() ==> #[trigger] c.1[k] < argc
    &&& forall|a: int, b: int| 0 <= a < b < c.1.len() ==> #[trigger] c.1[a] != #[trigger] c.1[b]
}

/// Every chunk names at most three distinct arguments, each of them one of
/// the format string's arguments.
pub proof fn lemma_format_chunks_bounded(text: Seq<char>, argc: usize)
    ensures
        match format_chunks(text, argc) {
            Some(cs) => forall|i: int| 0 <= i < cs.len() ==> chunk_ok(#[trigger] cs[i], argc),
            None => true,
        },
{
    lemma_split_bounded(text, argc, 0, Seq::empty(), Seq::empty(), Seq::empty(), Seq::empty());
}

/// The split keeps every chunk within three distinct arguments.
proof fn lemma_split_bounded(
    text: Seq<char>,
    argc: usize,
    cursor: int,
    chunks: Seq<Chunk>,
    current: Seq<char>,
    indices: Seq<usize>,
    pending: Seq<char>,
)
    requires
        forall|i: int| 0 <= i < chunks.len() ==> chunk_ok(#[trigger] chunks[i], argc),
        chunk_ok((current, indices), argc),
    ensures
        match split_from(text, argc, cursor, chunks, current, indices, pending) {
            Some(cs) => forall|i: int| 0 <= i < cs.len() ==> chunk_ok(#[trigger] cs[i], argc),
            None => true,
        },
    decreases text.len() - cursor,
{
    if cursor < 0 || cursor >= text.len() {
        lemma_finish_bounded(text, argc, chunks, current + pending, indices);
    } else {
        match find_char(text, '{', cursor) {
            None => {
                lemma_finish_bounded(
                    text,
                    argc,
                    chunks,
                    current + (pending + text.subrange(cursor, text.len() as int)),
                    indices,
                );
            },
            Some(open) => {
                lemma_find_char(text, '{', cursor);
                match find_char(text, '}', open + 1) {
                    None => {
                        lemma_finish_bounded(
                            text,
                            argc,
                            chunks,
                            current + (pending + text.subrange(cursor, text.len() as int)),
                            indices,
                        );
                    },
                    Some(close) => {
                        lemma_find_char(text, '}', open + 1);
                        if !(close < cursor || close >= text.len()) {
                            match parse_index(text.subrange(open + 1, close)) {
                                None => {
                                    lemma_split_bounded(
                                        text,
                                        argc,
                                        close + 1,
                                        chunks,
                                        current,
                                        indices,
                                        pending + text.subrange(cursor, close + 1),
                                    );
                                },
                                Some(index) => {
                                    if index < argc {
                                        let pending2 = pending + text.subrange(cursor, open);
                                        let full = indices.len() == 3 && position_of(indices, index) is None;
                                        let chunks2 = if full {
                                            chunks.push((current, indices))
                                        } else {
                                            chunks
                                        };
                                        let current2 = if full {
                                            pending2
                                        } else {
                                            current + pending2
                                        };
                                        let indices2 = if full {
                                            Seq::<usize>::empty()
                                        } else {
                                            indices
                                        };
                                        let local = match position_of(indices2, index) {
                                            Some(k) => k,
                                            None => indices2.len() as int,
                                        };
                                        let indices3 = match position_of(indices2, index) {
                                            Some(k) => indices2,
                                            None => indices2.push(index),
                                        };
                                        lemma_position_of(indices, index);
                                        lemma_position_of(indices2, index);
                                        assert forall|i: int| 0 <= i < chunks2.len() implies chunk_ok(
                                            #[trigger] chunks2[i],
                                            argc,
                                        ) by {
                                            if i < chunks.len() {
                                                assert(chunks2[i] == chunks[i]);
                                            }
                                        }
                                        assert(chunk_ok((current2, indices2), argc));
                                        if position_of(indices2, index) is None {
                                            assert(indices2.len() < 3);
                                            assert forall|a: int, b: int|
                                                0 <= a < b < indices3.len() implies #[trigger] indices3[a]
                                                != #[trigger] indices3[b] by {
                                                if b == indices2.len() {
                                                    assert(indices3[a] == indices2[a]);
                                                } else {
                                                    assert(indices3[a] == indices2[a]);
                                                    assert(indices3[b] == indices2[b]);
                                                }
                                            }
                                            assert forall|k: int| 0 <= k < indices3.len() implies #[trigger] indices3[k] < argc by {
                                                if k < indices2.len() {
                                                    assert(indices3[k] == indices2[k]);
                                                }
                                            }
                                        }
                                        lemma_split_bounded(
                                            text,
                                            argc,
                                            close + 1,
                                            chunks2,
                                            current2 + seq!['{'] + decimal(local as nat) + seq!['}'],
                                            indices3,
                                            Seq::empty(),
                                        );
                                    }
                                },
                            }
                        }
                    },
                }
            },
        }
    }
}

/// Closing the split keeps every chunk within three distinct arguments.
proof fn lemma_finish_bounded(
    text: Seq<char>,
    argc: usize,
    chunks: Seq<Chunk>,
    current: Seq<char>,
    indices: Seq<usize>,
)
    requires
        forall|i: int| 0 <= i < chunks.len() ==> chunk_ok(#[trigger] chunks[i], argc),
        chunk_ok((current, indices), argc),
    ensures
        forall|i: int|
            0 <= i < finish_chunks(text, chunks, current, indices).len() ==> chunk_ok(
                #[trigger] finish_chunks(text, chunks, current, indices)[i],
                argc,
            ),
{
    let f = finish_chunks(text, chunks, current, indices);
    if current.len() == 0 && chunks.len() == 0 {
        assert(f[0] == (text, Seq::<usize>::empty()));
    } else {
        assert forall|i: int| 0 <= i < f.len() implies chunk_ok(#[trigger] f[i], argc) by {
            if i < chunks.len() {
                assert(f[i] == chunks[i]);
            }
        }
    }
}

} // verus!
